use menix::errno::Errno;
use menix::file::SeekAnchor;
use menix::tmpfs::{TmpNode, TmpRegular};

fn node(bytes: &[u8]) -> TmpNode {
    TmpNode { cache: bytes.to_vec(), size: bytes.len() }
}

#[test]
fn read_advances_the_cursor() {
    let n = node(b"hello world");
    let mut f = TmpRegular::new();
    let mut buf = vec![0u8; 5];
    assert_eq!(f.read(Some(&n), &mut buf, None), Ok(5));
    assert_eq!(buf, b"hello".to_vec());
    assert_eq!(f.position, 5);
    let mut rest = vec![9u8; 10];
    assert_eq!(f.read(Some(&n), &mut rest, None), Ok(6));
    assert_eq!(rest, b" world\x09\x09\x09\x09".to_vec());
    assert_eq!(f.position, 11);
    assert_eq!(f.read(Some(&n), &mut rest, None), Ok(0));
}

#[test]
fn read_at_an_offset_keeps_the_cursor() {
    let n = node(b"abcdef");
    let mut f = TmpRegular::new();
    let mut buf = vec![0u8; 2];
    assert_eq!(f.read(Some(&n), &mut buf, Some(3)), Ok(2));
    assert_eq!(buf, b"de".to_vec());
    assert_eq!(f.position, 0);
    assert_eq!(f.read(None, &mut buf, None), Err(Errno::EINVAL));
}

#[test]
fn write_sets_the_size_to_the_bytes_written() {
    let mut n = Some(node(b"hello world"));
    let mut f = TmpRegular::new();
    assert_eq!(f.write(&mut n, b"ab", None), Ok(2));
    assert_eq!(f.position, 2);
    let m = n.as_ref().unwrap();
    assert_eq!(m.size, 2);
    assert_eq!(m.cache, b"abllo world".to_vec());
    // A write past the end fills the gap with zeros.
    assert_eq!(f.write(&mut n, b"xyz", Some(13)), Ok(3));
    assert_eq!(n.as_ref().unwrap().cache, b"abllo world\0\0xyz".to_vec());
    assert_eq!(n.as_ref().unwrap().size, 3);
    assert_eq!(f.position, 2);
    let mut none: Option<TmpNode> = None;
    assert_eq!(f.write(&mut none, b"q", None), Err(Errno::EINVAL));
}

#[test]
fn tmp_regular_seek_anchors() {
    let mut f = TmpRegular::new();
    assert_eq!(f.seek(Some(10), SeekAnchor::Start(4)), Ok(4));
    assert_eq!(f.seek(Some(10), SeekAnchor::Current(3)), Ok(7));
    assert_eq!(f.position, 7);
    assert_eq!(f.seek(Some(10), SeekAnchor::End(-2)), Ok(8));
    assert_eq!(f.seek(Some(10), SeekAnchor::End(-11)), Err(Errno::EINVAL));
    assert_eq!(f.position, 8);
    assert_eq!(f.seek(None, SeekAnchor::End(0)), Err(Errno::EINVAL));
    // Moving before the start wraps the cursor and reports an overflow.
    assert_eq!(f.seek(Some(10), SeekAnchor::Current(-9)), Err(Errno::EOVERFLOW));
    assert_eq!(f.position, u64::MAX);
    assert_eq!(f.release(), Ok(()));
    assert_eq!(f.position, 0);
}

#[test]
fn default_file_operations_use_the_offset() {
    let n = node(b"0123456789");
    let mut buf = vec![0u8; 4];
    assert_eq!(menix::tmpfs::read_at(Some(&n), &mut buf, 8), Ok(2));
    assert_eq!(buf, b"89\0\0".to_vec());
    assert_eq!(menix::tmpfs::read_at(Some(&n), &mut buf, 10), Ok(0));
    let mut m = Some(node(b"abc"));
    assert_eq!(menix::tmpfs::write_at(&mut m, b"Z", 1), Ok(1));
    assert_eq!(m.as_ref().unwrap().cache, b"aZc".to_vec());
    assert_eq!(m.as_ref().unwrap().size, 1);
}

#[test]
fn reading_a_directory() {
    let dir = TmpNode { cache: vec![], size: 0 };
    let mut empty: Vec<u8> = vec![];
    assert_eq!(menix::tmpfs::read_dir(Some(&dir), &mut empty), Ok(0));
    let mut buf = vec![1u8; 8];
    assert_eq!(menix::tmpfs::read_dir(Some(&dir), &mut buf), Ok(0));
    assert_eq!(menix::tmpfs::read_dir(None, &mut buf), Err(Errno::EINVAL));
}

#[test]
fn write_then_read_at_the_start() {
    let mut n = Some(node(b"old contents"));
    let mut f = TmpRegular::new();
    assert_eq!(f.write(&mut n, b"new", Some(0)), Ok(3));
    let mut buf = vec![0u8; 3];
    assert_eq!(f.read(n.as_ref(), &mut buf, Some(0)), Ok(3));
    assert_eq!(buf, b"new".to_vec());
    // After a write further in, the size is the bytes written: reading at
    // the offset written to finds the end of the file.
    assert_eq!(f.write(&mut n, b"x", Some(5)), Ok(1));
    assert_eq!(f.read(n.as_ref(), &mut buf, Some(5)), Ok(0));
}
