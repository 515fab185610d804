use menix::errno::Errno;
use menix::file::{
    NodeType, LOOKUP_FOLLOW_SYMLINKS, LOOKUP_MUST_EXIST, LOOKUP_MUST_NOT_EXIST, O_CREATE, O_DIRECTORY,
    O_EXCLUSIVE, O_EXECUTABLE, O_NO_FOLLOW,
};
use menix::process::Identity;
use menix::vfs::{Loc, Opened, Vfs};

fn kernel() -> Identity {
    Identity::get_kernel()
}

#[test]
fn new_vfs_has_a_root_directory() {
    let v = Vfs::new();
    assert_eq!(v.entries.len(), 1);
    assert_eq!(v.inodes.len(), 1);
    assert_eq!(v.inodes[0].node_type, NodeType::Directory);
    assert_eq!(v.inodes[0].mode, 0o755);
    assert_eq!(v.inode_counter, 1);
}

#[test]
fn mknod_then_lookup_finds_the_node() {
    let mut v = Vfs::new();
    let id = kernel();
    assert_eq!(v.mknod(0, 0, None, b"/etc", NodeType::Directory, 0o755, false, &id), Ok(()));
    let found = v.lookup(0, 0, None, b"/etc", LOOKUP_MUST_EXIST, &id);
    assert_eq!(found, Ok(Loc::Found(1)));
    assert_eq!(v.inodes[v.entries[1].inode].node_type, NodeType::Directory);
    assert_eq!(v.inodes[1].id, 1);
}

#[test]
fn lookup_of_missing_name_reports_where_it_would_be() {
    let v = Vfs::new();
    let id = kernel();
    assert_eq!(v.lookup(0, 0, None, b"/nothing", 0, &id), Ok(Loc::Missing(0, b"nothing".to_vec())));
    assert_eq!(v.lookup(0, 0, None, b"/nothing", LOOKUP_MUST_EXIST, &id), Err(Errno::ENOENT));
    assert_eq!(v.lookup(0, 0, None, b"/nothing/deeper", 0, &id), Err(Errno::ENOENT));
}

#[test]
fn empty_path_and_nul_bytes_are_refused() {
    let v = Vfs::new();
    let id = kernel();
    assert_eq!(v.lookup(0, 0, None, b"", 0, &id), Err(Errno::ENOENT));
    assert_eq!(v.lookup(0, 0, None, b"/a\0b", 0, &id), Err(Errno::EILSEQ));
}

#[test]
fn root_path_and_repeated_slashes_resolve() {
    let mut v = Vfs::new();
    let id = kernel();
    v.mknod(0, 0, None, b"/a", NodeType::Directory, 0o755, false, &id).unwrap();
    v.mknod(0, 0, None, b"/a/b", NodeType::Regular, 0o644, false, &id).unwrap();
    assert_eq!(v.lookup(0, 0, None, b"/", LOOKUP_MUST_EXIST, &id), Ok(Loc::Found(0)));
    assert_eq!(v.lookup(0, 0, None, b"//a///b/", LOOKUP_MUST_EXIST, &id), Ok(Loc::Found(2)));
    // Relative to the working directory `/a`.
    assert_eq!(v.lookup(0, 1, None, b"b", LOOKUP_MUST_EXIST, &id), Ok(Loc::Found(2)));
    // Relative to an explicit start.
    assert_eq!(v.lookup(0, 0, Some(1), b"b", LOOKUP_MUST_EXIST, &id), Ok(Loc::Found(2)));
}

#[test]
fn walking_through_a_file_is_not_a_directory() {
    let mut v = Vfs::new();
    let id = kernel();
    v.mknod(0, 0, None, b"/f", NodeType::Regular, 0o644, false, &id).unwrap();
    assert_eq!(v.lookup(0, 0, None, b"/f/x", 0, &id), Err(Errno::ENOTDIR));
}

#[test]
fn must_not_exist_refuses_existing_names() {
    let mut v = Vfs::new();
    let id = kernel();
    v.mknod(0, 0, None, b"/f", NodeType::Regular, 0o644, false, &id).unwrap();
    assert_eq!(v.lookup(0, 0, None, b"/f", LOOKUP_MUST_NOT_EXIST, &id), Err(Errno::EEXIST));
    assert_eq!(v.mknod(0, 0, None, b"/f", NodeType::Regular, 0o644, false, &id), Err(Errno::EEXIST));
}

#[test]
fn mknod_refuses_unsupported_kinds() {
    let mut v = Vfs::new();
    let id = kernel();
    assert_eq!(v.mknod(0, 0, None, b"/l", NodeType::SymbolicLink, 0o777, false, &id), Err(Errno::EINVAL));
    assert_eq!(v.mknod(0, 0, None, b"/s", NodeType::Socket, 0o777, false, &id), Err(Errno::EINVAL));
    // The file system refuses FIFOs, and devices without a device.
    assert_eq!(v.mknod(0, 0, None, b"/p", NodeType::FIFO, 0o644, false, &id), Err(Errno::EINVAL));
    assert_eq!(v.mknod(0, 0, None, b"/c", NodeType::CharacterDevice, 0o644, false, &id), Err(Errno::ENODEV));
    assert_eq!(v.mknod(0, 0, None, b"/c", NodeType::CharacterDevice, 0o644, true, &id), Ok(()));
    assert_eq!(v.entries.len(), 2);
}

#[test]
fn create_inode_counts_ids() {
    let mut v = Vfs::new();
    assert_eq!(v.create_inode(NodeType::Regular, 0o600, false), Ok(1));
    assert_eq!(v.create_inode(NodeType::Directory, 0o700, false), Ok(2));
    assert_eq!(v.create_inode(NodeType::Socket, 0o700, false), Err(Errno::EINVAL));
    assert_eq!(v.create_inode(NodeType::BlockDevice, 0o700, false), Err(Errno::ENODEV));
    assert_eq!(v.inodes[2].id, 2);
    assert_eq!(v.inode_counter, 3);
}

#[test]
fn open_creates_a_missing_file() {
    let mut v = Vfs::new();
    let id = kernel();
    let opened = v.open(0, 0, None, b"/new", O_CREATE, 0o640, &id);
    assert_eq!(opened, Ok(Opened { entry: 1, inode: 1, flags: O_CREATE }));
    assert_eq!(v.inodes[1].node_type, NodeType::Regular);
    assert_eq!(v.inodes[1].mode, 0o640);
    // Opening it again finds the same node.
    assert_eq!(v.open(0, 0, None, b"/new", 0, 0, &id), Ok(Opened { entry: 1, inode: 1, flags: 0 }));
}

#[test]
fn open_errors() {
    let mut v = Vfs::new();
    let id = kernel();
    assert_eq!(v.open(0, 0, None, b"/missing", 0, 0, &id), Err(Errno::ENOENT));
    assert_eq!(v.open(0, 0, None, b"/d", O_DIRECTORY | O_CREATE, 0, &id), Err(Errno::EINVAL));
    v.mknod(0, 0, None, b"/f", NodeType::Regular, 0o644, false, &id).unwrap();
    assert_eq!(v.open(0, 0, None, b"/f", O_DIRECTORY, 0, &id), Err(Errno::ENOTDIR));
    assert_eq!(v.open(0, 0, None, b"/f", O_CREATE | O_EXCLUSIVE, 0, &id), Err(Errno::EEXIST));
    // Executing needs all execute bits.
    assert_eq!(v.open(0, 0, None, b"/f", O_EXECUTABLE, 0, &id), Err(Errno::EACCES));
    v.mknod(0, 0, None, b"/x", NodeType::Regular, 0o755, false, &id).unwrap();
    assert!(v.open(0, 0, None, b"/x", O_EXECUTABLE, 0, &id).is_ok());
    assert_eq!(v.open(0, 0, None, b"/", O_DIRECTORY, 0, &id), Ok(Opened { entry: 0, inode: 0, flags: O_DIRECTORY }));
}

#[test]
fn symlinks_are_followed() {
    let mut v = Vfs::new();
    let id = kernel();
    v.mknod(0, 0, None, b"/dir", NodeType::Directory, 0o755, false, &id).unwrap();
    v.mknod(0, 0, None, b"/dir/file", NodeType::Regular, 0o644, false, &id).unwrap();
    assert_eq!(v.symlink(0, 0, None, b"/link", b"dir", &id), Ok(()));
    assert_eq!(v.inodes[3].node_type, NodeType::SymbolicLink);
    assert_eq!(v.inodes[3].mode, 0o777);
    assert_eq!(v.inodes[3].data, b"dir".to_vec());
    // An intermediate link is always followed.
    assert_eq!(v.lookup(0, 0, None, b"/link/file", LOOKUP_MUST_EXIST, &id), Ok(Loc::Found(2)));
    // The last one only on request.
    assert_eq!(v.lookup(0, 0, None, b"/link", LOOKUP_FOLLOW_SYMLINKS, &id), Ok(Loc::Found(1)));
    assert_eq!(v.lookup(0, 0, None, b"/link", 0, &id), Ok(Loc::Found(3)));
    // Opening follows it, unless asked not to.
    assert_eq!(v.open(0, 0, None, b"/link", O_DIRECTORY, 0, &id).map(|o| o.entry), Ok(1));
    assert_eq!(v.open(0, 0, None, b"/link", O_NO_FOLLOW, 0, &id), Err(Errno::ELOOP));
    assert_eq!(v.symlink(0, 0, None, b"/link", b"x", &id), Err(Errno::EEXIST));
}

#[test]
fn symlink_then_lookup_finds_the_link_and_its_target() {
    let mut v = Vfs::new();
    let id = kernel();
    v.mknod(0, 0, None, b"/etc", NodeType::Directory, 0o755, false, &id).unwrap();
    assert_eq!(v.symlink(0, 0, Some(1), b"mtab", b"/proc/mounts", &id), Ok(()));
    assert_eq!(v.lookup(0, 0, Some(1), b"mtab", LOOKUP_MUST_EXIST, &id), Ok(Loc::Found(2)));
    assert_eq!(v.entries[2].inode, 2);
    assert_eq!(v.inodes[2].node_type, NodeType::SymbolicLink);
    assert_eq!(v.inodes[2].data, b"/proc/mounts".to_vec());
}

#[test]
fn symlink_then_follow_finds_the_target() {
    let mut v = Vfs::new();
    let id = kernel();
    v.mknod(0, 0, None, b"/etc", NodeType::Directory, 0o755, false, &id).unwrap();
    v.mknod(0, 0, None, b"/etc/real", NodeType::Regular, 0o644, false, &id).unwrap();
    assert_eq!(v.symlink(0, 0, Some(1), b"alias", b"real", &id), Ok(()));
    let flags = LOOKUP_FOLLOW_SYMLINKS | LOOKUP_MUST_EXIST;
    assert_eq!(v.lookup(0, 0, Some(1), b"alias", flags, &id), Ok(Loc::Found(2)));
    assert_eq!(v.lookup(0, 0, Some(1), b"alias", LOOKUP_MUST_EXIST, &id), Ok(Loc::Found(3)));
}

#[test]
fn files_beside_a_device_open_and_the_device_does_not() {
    let mut v = Vfs::new();
    let id = kernel();
    v.mknod(0, 0, None, b"/console", NodeType::CharacterDevice, 0o600, true, &id).unwrap();
    v.mknod(0, 0, None, b"/file", NodeType::Regular, 0o644, false, &id).unwrap();
    assert_eq!(v.open(0, 0, None, b"/file", 0, 0, &id).map(|o| o.entry), Ok(2));
    assert_eq!(v.open(0, 0, None, b"/console", 0, 0, &id), Err(Errno::ENOTSUP));
}

#[test]
fn a_link_to_itself_loops() {
    let mut v = Vfs::new();
    let id = kernel();
    v.symlink(0, 0, None, b"/me", b"me", &id).unwrap();
    assert_eq!(v.lookup(0, 0, None, b"/me", LOOKUP_FOLLOW_SYMLINKS, &id), Err(Errno::ELOOP));
    // Two links pointing at each other run out of depth.
    v.symlink(0, 0, None, b"/a", b"b", &id).unwrap();
    v.symlink(0, 0, None, b"/b", b"a", &id).unwrap();
    assert_eq!(v.lookup(0, 0, None, b"/a", LOOKUP_FOLLOW_SYMLINKS, &id), Err(Errno::ELOOP));
}

#[test]
fn lookup_parent_of_root_fails() {
    let mut v = Vfs::new();
    let id = kernel();
    v.mknod(0, 0, None, b"/d", NodeType::Directory, 0o755, false, &id).unwrap();
    assert_eq!(v.lookup_parent(&Loc::Found(0)), Err(Errno::ENOENT));
    assert_eq!(v.lookup_parent(&Loc::Found(1)), Ok(0));
    assert_eq!(v.lookup_parent(&Loc::Missing(1, b"x".to_vec())), Ok(1));
}

#[test]
fn find_child_takes_the_first_match() {
    let mut v = Vfs::new();
    let id = kernel();
    v.mknod(0, 0, None, b"/a", NodeType::Regular, 0o644, false, &id).unwrap();
    assert_eq!(v.find_child(0, b"a"), Some(1));
    assert_eq!(v.find_child(0, b"b"), None);
    assert_eq!(v.find_child(1, b"a"), None);
}

#[test]
fn set_data_replaces_contents() {
    let mut v = Vfs::new();
    let id = kernel();
    v.open(0, 0, None, b"/f", O_CREATE, 0o644, &id).unwrap();
    v.set_data(1, b"hello".to_vec());
    assert_eq!(v.inodes[1].data, b"hello".to_vec());
}

#[test]
fn try_access_for_execution() {
    let mut v = Vfs::new();
    let id = kernel();
    v.create_inode(NodeType::Regular, 0o111, false).unwrap();
    v.create_inode(NodeType::Regular, 0o110, false).unwrap();
    assert_eq!(v.try_access(1, &id, O_EXECUTABLE), Ok(()));
    assert_eq!(v.try_access(2, &id, O_EXECUTABLE), Err(Errno::EACCES));
    assert_eq!(v.try_access(2, &id, 0), Ok(()));
}

#[test]
fn flookup_starts_at_the_file() {
    let mut v = Vfs::new();
    let id = kernel();
    assert_eq!(v.mknod(0, 0, None, b"/etc", NodeType::Directory, 0o755, false, &id), Ok(()));
    assert_eq!(v.mknod(0, 0, None, b"/etc/hosts", NodeType::Regular, 0o644, false, &id), Ok(()));
    let dir = menix::file::File { id: 1, flags: 0, path: Some(1), node: Some(NodeType::Directory) };
    assert_eq!(v.flookup(0, 0, Some(&dir), b"hosts", LOOKUP_MUST_EXIST, &id), Ok(Loc::Found(2)));
    assert_eq!(v.flookup(0, 0, None, b"etc", LOOKUP_MUST_EXIST, &id), Ok(Loc::Found(1)));
    let pipe = menix::file::File { id: 2, flags: 0, path: None, node: None };
    assert_eq!(v.flookup(0, 0, Some(&pipe), b"hosts", LOOKUP_MUST_EXIST, &id), Err(Errno::ENOENT));
}

#[test]
fn chmod_chown_and_get_mode() {
    let mut v = Vfs::new();
    assert_eq!(v.get_mode(0), 0o755);
    v.chmod(0, 0o170_644);
    assert_eq!(v.get_mode(0), 0o644);
    assert_eq!(v.inodes[0].mode, 0o644);
    v.chown(0, 1000, 100);
    assert_eq!((v.inodes[0].uid, v.inodes[0].gid), (1000, 100));
    assert_eq!(v.inodes[0].node_type, NodeType::Directory);
}
