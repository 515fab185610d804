use menix::bitmap::BitMap;
use menix::errno::Errno;
use menix::file::{
    open_lookup_flags, seek, NullFile, SeekAnchor, LOOKUP_FOLLOW_SYMLINKS, LOOKUP_MUST_EXIST, LOOKUP_MUST_NOT_EXIST,
    O_CREATE, O_DIRECTORY, O_EXCLUSIVE, O_NO_FOLLOW, O_TEMPORARY,
};
use menix::path::{split_components, split_last};
use menix::posix::{default_utsname, uts_field, Limits, Resource, Rlimit, Signal, UTS_FIELD_LEN};
use menix::spin::{Once, SpinLock, SpinMutex};
use menix::util::{align_down, align_up, divide_up};
use menix::view::{decode, le_bytes, read_reg, write_reg, BitValue, Field, MmioView, Register};

#[test]
fn alignment_helpers() {
    assert_eq!(align_up(0x1001, 0x1000), 0x2000);
    assert_eq!(align_up(0x1000, 0x1000), 0x1000);
    assert_eq!(align_down(0x1fff, 0x1000), 0x1000);
    assert_eq!(divide_up(0x1001, 0x1000), 2);
    assert_eq!(divide_up(0, 16), 0);
}

#[test]
fn path_splitting() {
    assert_eq!(split_components(b"//usr/./bin/"), vec![b"usr".to_vec(), b".".to_vec(), b"bin".to_vec()]);
    assert!(split_components(b"///").is_empty());
    assert_eq!(split_last(b"a/b/c"), (b"a/b".to_vec(), b"c".to_vec()));
    assert_eq!(split_last(b"c"), (vec![], b"c".to_vec()));
    assert_eq!(split_last(b"/c"), (vec![], b"c".to_vec()));
}

#[test]
fn open_flags_decide_the_lookup() {
    assert_eq!(open_lookup_flags(0), Ok(LOOKUP_MUST_EXIST | LOOKUP_FOLLOW_SYMLINKS));
    assert_eq!(open_lookup_flags(O_CREATE), Ok(LOOKUP_FOLLOW_SYMLINKS));
    assert_eq!(open_lookup_flags(O_CREATE | O_EXCLUSIVE), Ok(LOOKUP_MUST_NOT_EXIST));
    assert_eq!(open_lookup_flags(O_NO_FOLLOW), Ok(LOOKUP_MUST_EXIST));
    assert_eq!(open_lookup_flags(O_CREATE | O_TEMPORARY), Ok(LOOKUP_MUST_EXIST | LOOKUP_FOLLOW_SYMLINKS));
    assert_eq!(open_lookup_flags(O_DIRECTORY | O_TEMPORARY), Err(Errno::EINVAL));
}

#[test]
fn file_seeks() {
    assert_eq!(seek(10, Some(100), SeekAnchor::Start(4)), Ok((4, 4)));
    assert_eq!(seek(10, Some(100), SeekAnchor::Current(5)), Ok((15, 15)));
    assert_eq!(seek(10, Some(100), SeekAnchor::Current(-3)), Ok((7, 7)));
    assert_eq!(seek(10, Some(100), SeekAnchor::End(-1)), Ok((99, 99)));
    assert_eq!(seek(10, Some(100), SeekAnchor::End(-101)), Err(Errno::EINVAL));
    assert_eq!(seek(10, None, SeekAnchor::End(0)), Err(Errno::EINVAL));
    assert_eq!(seek(10, Some(usize::MAX), SeekAnchor::End(1)), Err(Errno::EOVERFLOW));
}

#[test]
fn the_null_file() {
    let null = NullFile;
    let mut buf = vec![1u8, 2, 3];
    assert_eq!(null.read(&mut buf, 7), Ok(3));
    assert_eq!(buf, vec![0, 0, 0]);
    assert_eq!(null.write(b"abcd", 0), Ok(4));
    assert_eq!(null.seek(SeekAnchor::End(9)), Ok(0));
    assert_eq!(null.ioctl(1, 2), Err(Errno::ENOTTY));
    assert_eq!(null.poll(0x5), Ok(0x5));
}

#[test]
fn error_codes() {
    assert_eq!(Errno::ENOENT.code(), 2);
    assert_eq!(Errno::EINVAL.code(), 22);
    assert_eq!(Errno::EAFNOSUPPORT.code(), 97);
}

#[test]
fn bitmaps() {
    let mut b = BitMap::from_ptr(vec![0u8; 2]);
    b.set(3, true);
    b.set(9, true);
    assert!(b.get(3) && b.get(9));
    assert!(!b.get(4));
    b.set(3, false);
    assert!(!b.get(3));
    // Out of range bits read as clear and cannot be set.
    b.set(16, true);
    assert!(!b.get(16));
    b.fill(true);
    assert!(b.get(0) && b.get(15));
    let empty = BitMap::new();
    assert!(!empty.get(0));
}

#[test]
fn registers_read_back_what_was_written() {
    let mut bytes = vec![0u8; 8];
    let le = Register::new(4, 4, true);
    assert_eq!(write_reg(&mut bytes, le, 0x1234_5678), Some(()));
    assert_eq!(&bytes[4..], &[0x78, 0x56, 0x34, 0x12]);
    assert_eq!(read_reg(&bytes, le), Some(BitValue::new(0x1234_5678)));
    let be = Register::new(0, 2, true).with_be();
    write_reg(&mut bytes, be, 0xabcd);
    assert_eq!(&bytes[..2], &[0xab, 0xcd]);
    assert_eq!(read_reg(&bytes, be).map(|v| v.value()), Some(0xabcd));
    assert_eq!(read_reg(&bytes, Register::new(8, 4, true)), None);
    assert_eq!(decode(&[1, 2], 0, 2, false), 0x0102);
    assert_eq!(le_bytes(0x0102, 2), vec![2, 1]);
}

#[test]
fn fields_of_a_register() {
    let reg = Register::new(0, 4, true);
    let f = Field::new_bits(reg, 4, 7, 1);
    assert_eq!((f.bit_offset(), f.bit_width()), (4, 4));
    let v = BitValue::new(0xffff_ffff).write_field(f, 0x5);
    assert_eq!(v.value(), 0xffff_ff5f);
    assert_eq!(v.read_field(f).value(), 0x5);
    let byte = Field::new(reg, 1, 1);
    assert_eq!(byte.byte_offset(), 1);
    assert_eq!(BitValue::new(0x1234).read_field(byte).value(), 0x12);
}

#[test]
fn mmio_views() {
    let view = MmioView::new(0x1000, 0x100);
    assert_eq!(view.register_address(Register::new(8, 4, true), 0x10), Some(0x1018));
    let sub = view.sub_view(0x80).unwrap();
    assert_eq!((sub.base(), sub.len()), (0x1080, 0x80));
    assert!(view.sub_view(0x200).is_none());
}

#[test]
fn limits_and_numbers() {
    let l = Limits::default();
    assert_eq!(l.open_max, Rlimit { rlim_cur: 1024, rlim_max: 1024 });
    assert_eq!(l.core_size, Rlimit { rlim_cur: 0, rlim_max: 0 });
    assert_eq!(Resource::NumFiles.number(), 7);
    assert_eq!(Resource::RtTime.number(), 15);
    assert_eq!(Signal::SIGKILL.number(), 9);
    assert_eq!(Signal::SIGCHLD.number(), 17);
    assert_eq!(Signal::SIGSYS.number(), 31);
}

#[test]
fn the_system_name() {
    let u = default_utsname(b"0.1.0", b"x86_64");
    assert_eq!(u.sysname.len(), UTS_FIELD_LEN);
    assert_eq!(&u.sysname[..6], b"Menix\0");
    assert_eq!(&u.nodename[..10], b"localhost\0");
    assert_eq!(&u.release[..6], b"0.1.0\0");
    assert_eq!(&u.version[..18], b"Menix is not Minix");
    assert_eq!(&u.machine[..6], b"x86_64");
    assert_eq!(&u.domainname[..6], b"(none)");
    assert!(uts_field(b"").iter().all(|&b| b == 0));
}

#[test]
fn spin_primitives() {
    let mut l = SpinLock::new();
    assert!(!l.is_locked());
    l.lock();
    assert!(l.is_locked());
    l.unlock();
    assert!(!l.is_locked());

    let mut m = SpinMutex::new(5u32);
    let g = m.try_lock().unwrap();
    *m.data_mut(&g) += 1;
    assert!(m.is_locked());
    assert!(m.try_lock().is_none());
    m.unlock(g);
    assert!(!m.is_locked());
    let g = m.try_lock().unwrap();
    assert_eq!(*m.data_mut(&g), 6);
    m.force_unlock();
    assert_eq!(m.into_inner(), 6);

    let mut once = Once::new();
    once.init(3u8);
    assert_eq!(*once.get(), 3);
}
