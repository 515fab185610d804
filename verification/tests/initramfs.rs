use menix::errno::Errno;
use menix::file::{NodeType, LOOKUP_MUST_EXIST};
use menix::initramfs::{c_string_len, create_dirs, is_module_name, load, oct2bin, parse_archive, ArchiveEntry};
use menix::process::Identity;
use menix::vfs::{Loc, Vfs};

/// A ustar header block.
fn header(name: &[u8], typ: u8, mode: &[u8], size: &[u8], link: &[u8]) -> Vec<u8> {
    let mut h = vec![0u8; 512];
    h[..name.len()].copy_from_slice(name);
    h[100..100 + mode.len()].copy_from_slice(mode);
    h[124..124 + size.len()].copy_from_slice(size);
    h[156] = typ;
    h[157..157 + link.len()].copy_from_slice(link);
    h[257..262].copy_from_slice(b"ustar");
    h
}

fn padded(data: &[u8]) -> Vec<u8> {
    let mut v = data.to_vec();
    while v.len() % 512 != 0 {
        v.push(0);
    }
    v
}

fn sample_archive() -> Vec<u8> {
    let mut a = Vec::new();
    a.extend(header(b"bin/", b'5', b"0000755", b"00000000000", b""));
    a.extend(header(b"bin/hello", b'0', b"0000755", b"00000000005", b""));
    a.extend(padded(b"hello"));
    a.extend(header(b"lib/module.kso", b'0', b"0000644", b"00000000003", b""));
    a.extend(padded(b"kso"));
    a.extend(header(b"sbin", b'2', b"0000777", b"00000000000", b"bin"));
    a.extend(vec![0u8; 512]);
    a
}

#[test]
fn oct2bin_reads_octal_until_terminator() {
    assert_eq!(oct2bin(b"0000755\0"), 0o755);
    assert_eq!(oct2bin(b"17 "), 15);
    assert_eq!(oct2bin(b""), 0);
    assert_eq!(oct2bin(b"\0123"), 0);
}

#[test]
fn c_string_len_stops_at_nul() {
    assert_eq!(c_string_len(b"abc\0def"), 3);
    assert_eq!(c_string_len(b"abc"), 3);
    assert_eq!(c_string_len(b"\0"), 0);
}

#[test]
fn parse_archive_lists_entries_in_order() {
    let a = sample_archive();
    let entries = parse_archive(&a);
    assert_eq!(entries.len(), 4);
    match &entries[0] {
        ArchiveEntry::Directory { name } => assert_eq!(name, b"bin/"),
        _ => panic!("expected a directory"),
    }
    match &entries[1] {
        ArchiveEntry::File { name, mode, data_offset, size } => {
            assert_eq!(name, b"bin/hello");
            assert_eq!(*mode, 0o755);
            assert_eq!(*data_offset, 1024);
            assert_eq!(*size, 5);
            assert_eq!(&a[*data_offset..*data_offset + *size], b"hello");
        },
        _ => panic!("expected a file"),
    }
    match &entries[3] {
        ArchiveEntry::SymLink { name, target } => {
            assert_eq!(name, b"sbin");
            assert_eq!(target, b"bin");
        },
        _ => panic!("expected a link"),
    }
}

#[test]
fn parse_archive_uses_long_names() {
    let mut a = Vec::new();
    let long = b"a/very/long/name\0";
    a.extend(header(b"././@LongLink", b'L', b"0000000", b"00000000021", b""));
    a.extend(padded(long));
    a.extend(header(b"short", b'5', b"0000755", b"00000000000", b""));
    a.extend(vec![0u8; 512]);
    let entries = parse_archive(&a);
    assert_eq!(entries.len(), 1);
    match &entries[0] {
        ArchiveEntry::Directory { name } => assert_eq!(name, b"a/very/long/name"),
        _ => panic!("expected a directory"),
    }
}

#[test]
fn create_dirs_makes_every_directory_and_gives_the_name() {
    let mut v = Vfs::new();
    let id = Identity::get_kernel();
    let (dir, name) = create_dirs(&mut v, 0, 0, 0, b"usr/local/bin/tool", &id).unwrap();
    assert_eq!(name, b"tool");
    assert_eq!(v.lookup(0, 0, None, b"/usr/local/bin", LOOKUP_MUST_EXIST, &id), Ok(Loc::Found(dir)));
    // Existing directories are fine.
    let (dir2, name2) = create_dirs(&mut v, 0, 0, 0, b"usr/local/other", &id).unwrap();
    assert_eq!(name2, b"other");
    assert_eq!(v.lookup(0, 0, None, b"/usr/local", LOOKUP_MUST_EXIST, &id), Ok(Loc::Found(dir2)));
    // A path without a slash needs no directory.
    assert_eq!(create_dirs(&mut v, 0, 0, 0, b"plain", &id).unwrap(), (0, b"plain".to_vec()));
}

#[test]
fn create_dirs_fails_through_a_file() {
    let mut v = Vfs::new();
    let id = Identity::get_kernel();
    v.mknod(0, 0, None, b"/f", NodeType::Regular, 0o644, false, &id).unwrap();
    assert_eq!(create_dirs(&mut v, 0, 0, 0, b"f/x", &id), Err(Errno::ENOTDIR));
}

#[test]
fn load_puts_the_archive_into_the_file_system() {
    let a = sample_archive();
    let entries = parse_archive(&a);
    let mut v = Vfs::new();
    let id = Identity::get_kernel();
    assert_eq!(load(&mut v, 0, 0, 0, &entries, &a, &id), Ok(4));
    let hello = match v.lookup(0, 0, None, b"/bin/hello", LOOKUP_MUST_EXIST, &id) {
        Ok(Loc::Found(e)) => e,
        other => panic!("{:?}", other),
    };
    let node = &v.inodes[v.entries[hello].inode];
    assert_eq!(node.node_type, NodeType::Regular);
    assert_eq!(node.mode, 0o755);
    assert_eq!(node.data, b"hello".to_vec());
    // The link leads to the directory.
    assert_eq!(
        v.lookup(0, 0, None, b"/sbin/hello", LOOKUP_MUST_EXIST, &id),
        Ok(Loc::Found(hello))
    );
    match v.lookup(0, 0, None, b"/lib/module.kso", LOOKUP_MUST_EXIST, &id) {
        Ok(Loc::Found(e)) => assert_eq!(v.inodes[v.entries[e].inode].data, b"kso".to_vec()),
        other => panic!("{:?}", other),
    }
}

#[test]
fn module_names_end_in_kso() {
    assert!(is_module_name(b"lib/module.kso"));
    assert!(is_module_name(b".kso"));
    assert!(!is_module_name(b"kso"));
    assert!(!is_module_name(b"module.ko"));
}

#[test]
fn initramfs_stage_loads_every_archive_into_the_root() {
    let mut v = Vfs::new();
    let second = {
        let mut a = Vec::new();
        a.extend(header(b"etc/motd", b'0', b"0000644", b"00000000002", b""));
        a.extend(padded(b"hi"));
        a.extend(vec![0u8; 512]);
        a
    };
    let archives = vec![sample_archive(), second];
    assert_eq!(menix::initramfs::INITRAMFS_STAGE(&mut v, 0, &archives), Ok(()));
    let id = Identity::get_kernel();
    let motd = v.lookup(0, 0, None, b"/etc/motd", LOOKUP_MUST_EXIST, &id);
    let e = match motd {
        Ok(Loc::Found(e)) => e,
        other => panic!("unexpected {:?}", other),
    };
    assert_eq!(v.inodes[v.entries[e].inode].data, b"hi".to_vec());
    assert!(matches!(v.lookup(0, 0, None, b"/bin/hello", LOOKUP_MUST_EXIST, &id), Ok(Loc::Found(_))));
}

#[test]
fn dev_mount_stage_makes_dev() {
    let mut v = Vfs::new();
    let e = menix::vfs::VFS_DEV_MOUNT_STAGE(&mut v, 0).unwrap();
    assert_eq!(v.entries[e].name, b"dev".to_vec());
    let i = v.entries[e].inode;
    assert_eq!(v.inodes[i].node_type, NodeType::Directory);
    assert_eq!(v.inodes[i].mode, 0o600);
    assert_eq!(menix::vfs::VFS_DEV_MOUNT_STAGE(&mut v, 0), Err(Errno::EEXIST));
}
