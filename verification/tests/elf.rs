use menix::elf::{
    check_exec_header, check_module_header, elf_info, fix_addr, identify, load_base, phdr_offset, plan_image, plan_segment,
    relocation_value, rela_symbol, rela_type, scan_dynamic, segment_prot, ElfDyn, ElfHdr, ElfInfo, ElfPhdr, ElfRela, ElfSym,
    SegmentPlan, DT_NEEDED, DT_NULL, DT_STRTAB, ET_DYN, ET_EXEC, PF_EXECUTE, PF_READ, PF_WRITE, PT_INTERP, PT_LOAD, PT_PHDR,
    R_COMMON_64, R_COMMON_NONE, R_COMMON_RELATIVE,
};
use menix::errno::Errno;
use menix::exec::build_stack;
use menix::syscall::memory::{VM_EXEC, VM_READ, VM_WRITE};

const MACHINE: u16 = 62;

fn header_bytes(e_type: u16, machine: u16) -> Vec<u8> {
    let mut b = vec![0u8; 64];
    b[..4].copy_from_slice(&[0x7f, b'E', b'L', b'F']);
    b[4] = 2;
    b[5] = 1;
    b[6] = 1;
    b[16..18].copy_from_slice(&e_type.to_le_bytes());
    b[18..20].copy_from_slice(&machine.to_le_bytes());
    b[24..32].copy_from_slice(&0x1040u64.to_le_bytes());
    b[32..40].copy_from_slice(&64u64.to_le_bytes());
    b[54..56].copy_from_slice(&56u16.to_le_bytes());
    b[56..58].copy_from_slice(&3u16.to_le_bytes());
    b
}

fn phdr(p_type: u32, p_flags: u32, p_offset: u64, p_vaddr: u64, p_filesz: u64, p_memsz: u64) -> ElfPhdr {
    ElfPhdr { p_type, p_flags, p_offset, p_vaddr, p_paddr: p_vaddr, p_filesz, p_memsz, p_align: 0x1000 }
}

#[test]
fn headers_are_read_little_endian() {
    let b = header_bytes(ET_DYN, MACHINE);
    assert!(identify(&b));
    assert!(!identify(&b[..63]));
    let h = ElfHdr::parse(&b);
    assert_eq!(h.e_type, ET_DYN);
    assert_eq!(h.e_machine, MACHINE);
    assert_eq!(h.e_entry, 0x1040);
    assert_eq!(h.e_phnum, 3);
    assert_eq!(check_exec_header(&h, MACHINE), Ok(()));
    assert_eq!(check_exec_header(&h, 183), Err(Errno::ENOEXEC));
    assert_eq!(check_module_header(&h, MACHINE), Ok(()));
    assert_eq!(load_base(&h, 0x10000), 0x10000);
    assert_eq!(phdr_offset(&h, 2), 64 + 2 * 56);
    let e = ElfHdr::parse(&header_bytes(ET_EXEC, MACHINE));
    assert_eq!(load_base(&e, 0x10000), 0);
}

#[test]
fn module_headers_need_64_bit_little_endian() {
    let mut b = header_bytes(ET_DYN, MACHINE);
    b[5] = 2;
    assert_eq!(check_module_header(&ElfHdr::parse(&b), MACHINE), Err(Errno::ENOEXEC));
    let mut c = header_bytes(ET_DYN, MACHINE);
    c[4] = 1;
    assert_eq!(check_module_header(&ElfHdr::parse(&c), MACHINE), Err(Errno::ENOEXEC));
}

#[test]
fn program_headers_are_read_at_their_offset() {
    let mut b = vec![0u8; 8 + 56];
    b[8..12].copy_from_slice(&PT_LOAD.to_le_bytes());
    b[12..16].copy_from_slice(&5u32.to_le_bytes());
    b[24..32].copy_from_slice(&0x1234u64.to_le_bytes());
    let p = ElfPhdr::parse(&b, 8);
    assert_eq!(p.p_type, PT_LOAD);
    assert_eq!(p.p_flags, 5);
    assert_eq!(p.p_vaddr, 0x1234);
}

#[test]
fn segments_are_mapped_by_whole_pages() {
    assert_eq!(segment_prot(PF_READ | PF_EXECUTE), VM_READ | VM_EXEC);
    let p = phdr(PT_LOAD, PF_READ | PF_WRITE, 0x1234, 0x1234, 0x100, 0x3000);
    assert_eq!(
        plan_segment(&p, 0x10000, 0x1000),
        SegmentPlan {
            map_address: 0x11000,
            backed_size: 0x1000,
            file_offset: 0x1000,
            file_size: 0x100,
            zero_size: 0x3000,
            prot: VM_READ | VM_WRITE,
        }
    );
}

#[test]
fn plan_image_collects_segments_interpreter_and_auxiliary_values() {
    let h = ElfHdr::parse(&header_bytes(ET_DYN, MACHINE));
    let phdrs = vec![
        phdr(PT_PHDR, PF_READ, 64, 0x40, 0xa8, 0xa8),
        phdr(PT_INTERP, PF_READ, 0x200, 0x200, 0x1c, 0x1c),
        phdr(PT_LOAD, PF_READ | PF_EXECUTE, 0, 0, 0x800, 0x800),
    ];
    let plan = plan_image(&h, &phdrs, 0x10000, 0x1000, MACHINE).unwrap();
    assert_eq!(plan.segments.len(), 1);
    assert_eq!(plan.segments[0].map_address, 0x10000);
    assert_eq!(plan.interp, Some((0x200, 0x1b)));
    assert_eq!(plan.info, ElfInfo { at_phdr: 0x10040, at_phnum: 3, at_phent: 56, at_entry: 0x11040 });
    assert!(matches!(plan_image(&h, &phdrs, 0x10000, 0x1000, 1), Err(Errno::ENOEXEC)));
    assert_eq!(elf_info(&h, 0x40, 0x10000), ElfInfo { at_phdr: 0x10040, at_phnum: 3, at_phent: 56, at_entry: 0x11040 });
}

#[test]
fn the_dynamic_table_ends_at_its_null_entry() {
    let entries = vec![
        ElfDyn { d_tag: DT_STRTAB as i64, d_val: 0x100 },
        ElfDyn { d_tag: DT_NEEDED as i64, d_val: 1 },
        ElfDyn { d_tag: DT_NEEDED as i64, d_val: 7 },
        ElfDyn { d_tag: DT_STRTAB as i64, d_val: 0x200 },
        ElfDyn { d_tag: DT_NULL as i64, d_val: 0 },
        ElfDyn { d_tag: DT_STRTAB as i64, d_val: 0x300 },
    ];
    let info = scan_dynamic(&entries);
    assert_eq!(info.strtab, Some(0x200));
    assert_eq!(info.needed, vec![1, 7]);
    assert_eq!(info.symtab, None);
}

#[test]
fn addresses_become_file_offsets() {
    let phdrs = vec![phdr(PT_LOAD, PF_READ, 0x1000, 0x4000, 0x100, 0x100)];
    assert_eq!(fix_addr(&phdrs, Some(0x4010)), Some(0x1010));
    assert_eq!(fix_addr(&phdrs, Some(0x5000)), Some(0x5000));
    assert_eq!(fix_addr(&phdrs, None), None);
}

#[test]
fn relocations() {
    let rela = ElfRela { r_offset: 0x10, r_info: (5u64 << 32) | 8, r_addend: 0x20 };
    assert_eq!(rela_symbol(&rela), 5);
    assert_eq!(rela_type(&rela), 8);
    let local = ElfSym { st_name: 0, st_info: 0, st_other: 0, st_shndx: 1, st_value: 0x300, st_size: 0 };
    let external = ElfSym { st_shndx: 0, ..local };
    assert_eq!(relocation_value(R_COMMON_RELATIVE, &local, 0x1000, 0x20, None), Ok(Some(0x1020)));
    assert_eq!(relocation_value(R_COMMON_64, &local, 0x1000, 0x20, None), Ok(Some(0x1320)));
    assert_eq!(relocation_value(R_COMMON_64, &external, 0x1000, 0x20, Some(0x9000)), Ok(Some(0x9020)));
    assert_eq!(relocation_value(R_COMMON_64, &external, 0x1000, 0x20, None), Err(Errno::EINVAL));
    assert_eq!(relocation_value(R_COMMON_NONE, &local, 0x1000, 0, None), Ok(None));
    assert_eq!(relocation_value(99, &local, 0x1000, 0, None), Err(Errno::EINVAL));
    // A negative addend subtracts.
    assert_eq!(relocation_value(R_COMMON_RELATIVE, &local, 0x1000, -8, None), Ok(Some(0xff8)));
    assert_eq!(relocation_value(R_COMMON_64, &local, 0x1000, -0x20, None), Ok(Some(0x12e0)));
}

fn word(v: u64) -> Vec<u8> {
    v.to_le_bytes().to_vec()
}

#[test]
fn the_initial_stack_layout() {
    let info = ElfInfo { at_phdr: 0x10040, at_phnum: 3, at_phent: 56, at_entry: 0x11040 };
    let argv = vec![b"ab".to_vec()];
    let envp = vec![b"x=1".to_vec()];
    let (writes, sp) = build_stack(4096, &argv, &envp, &info);
    assert_eq!(sp, 3936);
    assert_eq!(sp % 16, 0);
    let expected: Vec<(usize, Vec<u8>)> = vec![
        (4095, vec![0]),
        (4092, b"x=1".to_vec()),
        (4091, vec![0]),
        (4089, b"ab".to_vec()),
        (4072, word(0)),
        (4064, word(0)),
        (4056, word(0)),
        (4048, word(0)),
        (4040, word(23)),
        (4032, word(0x10040)),
        (4024, word(3)),
        (4016, word(3)),
        (4008, word(5)),
        (4000, word(56)),
        (3992, word(4)),
        (3984, word(0x11040)),
        (3976, word(9)),
        (3968, word(0)),
        (3960, word(4092)),
        (3952, word(0)),
        (3944, word(4089)),
        (3936, word(1)),
    ];
    let got: Vec<(usize, Vec<u8>)> = writes.into_iter().map(|w| (w.offset, w.bytes)).collect();
    assert_eq!(got, expected);
}

#[test]
fn programs_are_laid_out_in_the_user_half() {
    let l = menix::exec::exec_layout(48, 0x1000);
    assert_eq!(l.exec_base, 0x10000);
    assert_eq!(l.interp_base, 1 << 46);
    assert_eq!(l.stack_size, 0x200000);
    assert_eq!(l.stack_base, (1usize << 47) - 0x1000 - 0x200000);
    let exe = menix::elf::ElfInfo { at_phdr: 0x10040, at_phnum: 3, at_phent: 56, at_entry: 0x11000 };
    let interp = menix::elf::ElfInfo { at_phdr: 0, at_phnum: 2, at_phent: 56, at_entry: (1 << 46) + 0x100 };
    assert_eq!(menix::exec::thread_start(&exe, None, &l, 0x1ff000), (0x11000, l.stack_base + 0x1ff000));
    assert_eq!(menix::exec::thread_start(&exe, Some(interp), &l, 16).0, (1 << 46) + 0x100);
}
