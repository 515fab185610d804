use menix::errno::Errno;
use menix::file::{File, FileDescription, NodeType, O_CLOSE_ON_EXEC, O_CREATE, O_READ, O_WRITE};
use menix::process::{FdTable, Identity};
use menix::syscall::system::Timespec;
use menix::syscall::path::{chdir, faccessat, fstatat, mkdirat, openat, readlinkat, Stat};
use menix::syscall::vfs::{AT_FDCWD, AT_SYMLINK_NOFOLLOW, S_IFDIR, S_IFLNK, S_IFREG};
use menix::vfs::Vfs;

fn kernel() -> Identity {
    Identity::get_kernel()
}

/// A root with `/etc` (0755), `/etc/passwd` (0644, 5 bytes) and a link
/// `/lnk` to `/etc/passwd`.
fn tree() -> Vfs {
    let id = kernel();
    let mut v = Vfs::new();
    assert_eq!(v.mknod(0, 0, None, b"/etc", NodeType::Directory, 0o755, false, &id), Ok(()));
    assert_eq!(v.mknod(0, 0, None, b"/etc/passwd", NodeType::Regular, 0o644, false, &id), Ok(()));
    v.set_data(2, b"root\n".to_vec());
    assert_eq!(v.symlink(0, 0, None, b"/lnk", b"/etc/passwd", &id), Ok(()));
    v
}

#[test]
fn openat_installs_the_lowest_descriptor() {
    let id = kernel();
    let mut v = tree();
    let mut files = FdTable::new();
    let fd = openat(&mut v, &mut files, 0, 0, AT_FDCWD, Some(b"/etc/passwd"), O_READ | O_CLOSE_ON_EXEC, 7, &id);
    assert_eq!(fd, Ok(0));
    let d = files.get_fd(0).unwrap();
    assert_eq!(d.file, File { id: 7, flags: O_READ, path: Some(2), node: Some(NodeType::Regular) });
    assert!(d.close_on_exec);
    // Relative to the directory descriptor of /etc.
    let dir = openat(&mut v, &mut files, 0, 0, AT_FDCWD, Some(b"/etc"), O_READ, 8, &id);
    assert_eq!(dir, Ok(1));
    let again = openat(&mut v, &mut files, 0, 0, 1, Some(b"passwd"), O_READ, 9, &id);
    assert_eq!(again, Ok(2));
    assert_eq!(files.get_fd(2).unwrap().file.path, Some(2));
}

#[test]
fn openat_errors() {
    let id = kernel();
    let mut v = tree();
    let mut files = FdTable::new();
    assert_eq!(openat(&mut v, &mut files, 0, 0, AT_FDCWD, None, O_READ, 1, &id), Err(Errno::EINVAL));
    assert_eq!(openat(&mut v, &mut files, 0, 0, 5, Some(b"passwd"), O_READ, 1, &id), Err(Errno::EBADF));
    assert_eq!(openat(&mut v, &mut files, 0, 0, AT_FDCWD, Some(b"/nope"), O_READ, 1, &id), Err(Errno::ENOENT));
    // A descriptor without an entry is no directory.
    files.open_file(
        FileDescription { file: File { id: 3, flags: 0, path: None, node: None }, close_on_exec: false },
        0,
    );
    assert_eq!(openat(&mut v, &mut files, 0, 0, 0, Some(b"x"), O_READ, 1, &id), Err(Errno::ENOTDIR));
}

#[test]
fn openat_creates_a_file() {
    let id = kernel();
    let mut v = tree();
    let mut files = FdTable::new();
    let fd = openat(&mut v, &mut files, 0, 0, AT_FDCWD, Some(b"/etc/new"), O_CREATE | O_WRITE, 4, &id);
    assert_eq!(fd, Ok(0));
    let e = files.get_fd(0).unwrap().file.path.unwrap();
    assert_eq!(v.entries[e].name, b"new".to_vec());
    assert_eq!(v.inodes[v.entries[e].inode].node_type, NodeType::Regular);
    assert_eq!(v.inodes[v.entries[e].inode].mode, 0);
    assert_eq!(files.get_fd(0).unwrap().file.flags, O_CREATE | O_WRITE);
}

#[test]
fn fstatat_reports_the_node() {
    let id = kernel();
    let v = tree();
    let files = FdTable::new();
    let st = fstatat(&v, &files, 0, 0, AT_FDCWD, b"/etc/passwd", 0, &id);
    assert_eq!(st, Ok(Stat { ino: 2, mode: 0o644 | S_IFREG, uid: 0, gid: 0, size: 5, dev: 0, rdev: 0, blksize: 0, blocks: 0, atime: zero(), mtime: zero(), ctime: zero() }));
    // The link is followed, unless asked not to.
    let followed = fstatat(&v, &files, 0, 0, AT_FDCWD, b"/lnk", 0, &id);
    assert_eq!(followed, st);
    let link = fstatat(&v, &files, 0, 0, AT_FDCWD, b"/lnk", AT_SYMLINK_NOFOLLOW, &id);
    assert_eq!(link, Ok(Stat { ino: 3, mode: 0o777 | S_IFLNK, uid: 0, gid: 0, size: 11, dev: 0, rdev: 0, blksize: 0, blocks: 0, atime: zero(), mtime: zero(), ctime: zero() }));
    let dir = fstatat(&v, &files, 0, 0, AT_FDCWD, b"/etc", 0, &id);
    assert_eq!(dir.map(|s| s.mode), Ok(0o755 | S_IFDIR));
    assert_eq!(fstatat(&v, &files, 0, 0, AT_FDCWD, b"/missing", 0, &id), Err(Errno::ENOENT));
    assert_eq!(fstatat(&v, &files, 0, 0, 3, b"x", 0, &id), Err(Errno::EBADF));
}

#[test]
fn mkdirat_makes_a_directory() {
    let id = kernel();
    let mut v = tree();
    let files = FdTable::new();
    assert_eq!(mkdirat(&mut v, &files, 0, 0, AT_FDCWD, b"/tmp", 0o1777, &id), Err(Errno::EINVAL));
    assert_eq!(mkdirat(&mut v, &files, 0, 0, AT_FDCWD, b"/tmp", 0o755, &id), Ok(0));
    let st = fstatat(&v, &files, 0, 0, AT_FDCWD, b"/tmp", 0, &id).unwrap();
    assert_eq!(st.mode, 0o755 | S_IFDIR);
    assert_eq!(mkdirat(&mut v, &files, 0, 0, AT_FDCWD, b"/tmp", 0o755, &id), Err(Errno::EEXIST));
}

#[test]
fn chdir_moves_the_working_directory() {
    let id = kernel();
    let v = tree();
    let mut cwd = 0usize;
    assert_eq!(chdir(&v, 0, &mut cwd, b"/etc", &id), Ok(()));
    assert_eq!(cwd, 1);
    assert_eq!(chdir(&v, 0, &mut cwd, b"nowhere", &id), Err(Errno::ENOENT));
    assert_eq!(cwd, 1);
    // A relative path now starts at /etc.
    let files = FdTable::new();
    let st = fstatat(&v, &files, 0, cwd, AT_FDCWD, b"passwd", 0, &id).unwrap();
    assert_eq!(st.size, 5);
}

#[test]
fn readlinkat_reads_the_target() {
    let id = kernel();
    let v = tree();
    let files = FdTable::new();
    assert_eq!(readlinkat(&v, &files, 0, 0, AT_FDCWD, Some(b"/lnk"), 64, &id), Ok(b"/etc/passwd".to_vec()));
    assert_eq!(readlinkat(&v, &files, 0, 0, AT_FDCWD, Some(b"/lnk"), 4, &id), Ok(b"/etc".to_vec()));
    assert_eq!(readlinkat(&v, &files, 0, 0, AT_FDCWD, Some(b"/etc"), 64, &id), Err(Errno::EINVAL));
    assert_eq!(readlinkat(&v, &files, 0, 0, AT_FDCWD, None, 64, &id), Err(Errno::EINVAL));
}

#[test]
fn faccessat_checks_the_mode() {
    let id = kernel();
    let v = tree();
    let files = FdTable::new();
    // 0o644: read for all, write for the owner, no execute.
    assert_eq!(faccessat(&v, &files, 0, 0, AT_FDCWD, Some(b"/etc/passwd"), 0o4, 0, &id), Ok(()));
    assert_eq!(faccessat(&v, &files, 0, 0, AT_FDCWD, Some(b"/etc/passwd"), 0o1, 0, &id), Err(Errno::EACCES));
    assert_eq!(faccessat(&v, &files, 0, 0, AT_FDCWD, Some(b"/lnk"), 0o400, 0, &id), Ok(()));
    assert_eq!(faccessat(&v, &files, 0, 0, AT_FDCWD, None, 0o4, 0, &id), Err(Errno::EINVAL));
    // F_OK only asks that the node exists.
    assert_eq!(faccessat(&v, &files, 0, 0, AT_FDCWD, Some(b"/etc/passwd"), 0, 0, &id), Ok(()));
    assert_eq!(faccessat(&v, &files, 0, 0, AT_FDCWD, Some(b"/gone"), 0, 0, &id), Err(Errno::ENOENT));
    assert_eq!(faccessat(&v, &files, 0, 0, AT_FDCWD, Some(b"/gone"), 0o4, 0, &id), Err(Errno::ENOENT));
}

#[test]
fn execve_opens_the_file_for_execution() {
    let id = kernel();
    let mut v = tree();
    // /etc/passwd (0644) has no execute bits.
    assert_eq!(menix::syscall::path::execve(&mut v, 0, 0, b"/etc/passwd", &id), Err(Errno::EACCES));
    assert_eq!(v.mknod(0, 0, None, b"/init", NodeType::Regular, 0o755, false, &id), Ok(()));
    let o = menix::syscall::path::execve(&mut v, 0, 0, b"/init", &id).unwrap();
    assert_eq!(v.inodes[o.inode].mode, 0o755);
    assert_eq!(menix::syscall::path::execve(&mut v, 0, 0, b"/missing", &id), Err(Errno::ENOENT));
}

fn zero() -> Timespec {
    Timespec { tv_sec: 0, tv_nsec: 0 }
}
