use menix::errno::Errno;
use menix::module::{KernelSymbols, ModuleSegment, RelocWrite};
use menix::module_plan::plan_module;

const MACHINE: u16 = 62;

fn put(buf: &mut [u8], at: usize, bytes: &[u8]) {
    buf[at..at + bytes.len()].copy_from_slice(bytes);
}

fn phdr(buf: &mut [u8], at: usize, typ: u32, flags: u32, offset: u64, vaddr: u64, filesz: u64, memsz: u64) {
    put(buf, at, &typ.to_le_bytes());
    put(buf, at + 4, &flags.to_le_bytes());
    put(buf, at + 8, &offset.to_le_bytes());
    put(buf, at + 16, &vaddr.to_le_bytes());
    put(buf, at + 32, &filesz.to_le_bytes());
    put(buf, at + 40, &memsz.to_le_bytes());
}

fn dynent(buf: &mut [u8], at: usize, tag: i64, val: u64) {
    put(buf, at, &tag.to_le_bytes());
    put(buf, at + 8, &val.to_le_bytes());
}

/// A module named `test.kso` that needs the kernel and `needed`, with a
/// version text and one relative relocation.
fn image(needed: Option<&[u8]>) -> Vec<u8> {
    let mut m = vec![0u8; 0x400];
    put(&mut m, 0, &[0x7f, b'E', b'L', b'F', 2, 1, 1]);
    put(&mut m, 18, &MACHINE.to_le_bytes());
    put(&mut m, 24, &0x1000u64.to_le_bytes());
    put(&mut m, 32, &64u64.to_le_bytes());
    put(&mut m, 56, &3u16.to_le_bytes());
    phdr(&mut m, 64, 1, 5, 0, 0, 0x400, 0x1000);
    phdr(&mut m, 120, 2, 4, 0x100, 0x100, 16 * 10, 16 * 10);
    phdr(&mut m, 176, 0x6000_0001, 4, 0x300, 0x300, 3, 3);
    let mut at = 0x100;
    for (tag, val) in [(5i64, 0x200u64), (10, 0x40), (6, 0x280), (4, 0x240), (14, 1), (1, 10), (7, 0x2c0), (8, 24)] {
        dynent(&mut m, at, tag, val);
        at += 16;
    }
    if needed.is_some() {
        dynent(&mut m, at, 1, 20);
    }
    put(&mut m, 0x200, b"\0test.kso\0menix.kso\0");
    if let Some(n) = needed {
        put(&mut m, 0x200 + 20, n);
    }
    put(&mut m, 0x240, &1u32.to_le_bytes());
    put(&mut m, 0x244, &2u32.to_le_bytes());
    // Relocation: relative, at 0x800, addend 0x10.
    put(&mut m, 0x2c0, &0x800u64.to_le_bytes());
    put(&mut m, 0x2c8, &8u64.to_le_bytes());
    put(&mut m, 0x2d0, &0x10i64.to_le_bytes());
    put(&mut m, 0x300, b"1.0");
    m
}

#[test]
fn a_module_is_planned_from_its_image() {
    let m = image(None);
    let k = KernelSymbols::new();
    let plan = plan_module(&m, 0x4000_0000, 0x1000, MACHINE, &vec![], &k).unwrap();
    assert_eq!(plan.name, b"test.kso".to_vec());
    assert_eq!(plan.version, b"1.0".to_vec());
    assert_eq!(plan.load_base, 0x4000_0000);
    assert_eq!(plan.mmap_end, 0x4000_1000);
    assert_eq!(
        plan.segments,
        vec![ModuleSegment {
            virt: 0x4000_0000,
            size: 0x1000,
            copy_to: 0x4000_0000,
            file_offset: 0,
            file_size: 0x400,
            zero_size: 0xc00,
            prot: menix::syscall::memory::VM_READ | menix::syscall::memory::VM_EXEC,
        }]
    );
    assert_eq!(plan.writes, vec![RelocWrite { location: 0x4000_0800, value: 0x4000_0010 }]);
    assert_eq!(plan.entry, 0x4000_1000);
}

#[test]
fn module_planning_errors() {
    let k = KernelSymbols::new();
    let mut bad = image(None);
    bad[18] = 3;
    assert!(matches!(plan_module(&bad, 0x4000_0000, 0x1000, MACHINE, &vec![], &k), Err(Errno::ENOEXEC)));
    // A needed module that is not loaded.
    let m = image(Some(b"dep.kso\0"));
    assert!(matches!(plan_module(&m, 0x4000_0000, 0x1000, MACHINE, &vec![], &k), Err(Errno::ENOENT)));
    let ok = plan_module(&m, 0x4000_0000, 0x1000, MACHINE, &vec![b"dep.kso".to_vec()], &k);
    assert!(ok.is_ok());
    // A version text that is no UTF-8.
    let mut t = image(None);
    t[0x300] = 0xff;
    assert!(matches!(plan_module(&t, 0x4000_0000, 0x1000, MACHINE, &vec![], &k), Err(Errno::EBADMSG)));
}
