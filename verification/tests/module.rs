use menix::elf::{ElfPhdr, ElfRela, ElfSym, PF_READ, PF_WRITE, PT_LOAD, R_COMMON_64, R_COMMON_RELATIVE};
use menix::errno::Errno;
use menix::module::{
    bytes_eq, c_str_at, module_dependencies, module_segment, module_text, plan_relocations, KernelSymbols, ModuleSegment,
    RelocWrite,
};
use menix::syscall::memory::{VM_READ, VM_WRITE};

fn seg(p_offset: u64, p_vaddr: u64, p_filesz: u64, p_memsz: u64) -> ElfPhdr {
    ElfPhdr { p_type: PT_LOAD, p_flags: PF_READ | PF_WRITE, p_offset, p_vaddr, p_paddr: 0, p_filesz, p_memsz, p_align: 0 }
}

fn sym(name: u32, shndx: u16, value: u64) -> ElfSym {
    ElfSym { st_name: name, st_info: 0, st_other: 0, st_shndx: shndx, st_value: value, st_size: 0 }
}

#[test]
fn module_segments_cover_whole_pages() {
    assert_eq!(
        module_segment(&seg(0x100, 0x1010, 0x20, 0x30), 0x4000_0000, 0x1000),
        ModuleSegment {
            virt: 0x4000_1000,
            size: 0x1000,
            copy_to: 0x4000_1010,
            file_offset: 0x100,
            file_size: 0x20,
            zero_size: 0x10,
            prot: VM_READ | VM_WRITE,
        }
    );
    // An aligned segment keeps its size.
    assert_eq!(module_segment(&seg(0, 0x2000, 0x10, 0x1800), 0, 0x1000).size, 0x1800);
}

#[test]
fn module_texts_must_be_utf8() {
    let data = b"..1.2.3\xff\xfe";
    let p = ElfPhdr { p_offset: 2, p_filesz: 5, ..seg(0, 0, 0, 0) };
    assert_eq!(module_text(data, &p), Ok(b"1.2.3".to_vec()));
    let bad = ElfPhdr { p_offset: 7, p_filesz: 2, ..p };
    assert_eq!(module_text(data, &bad), Err(Errno::EBADMSG));
}

#[test]
fn strings_of_a_string_table() {
    let table = b"\0menix.kso\0foo\0bar";
    assert_eq!(c_str_at(table, 1), Some(b"menix.kso".to_vec()));
    assert_eq!(c_str_at(table, 0), Some(vec![]));
    assert_eq!(c_str_at(table, 15), None);
    assert!(bytes_eq(b"abc", b"abc"));
    assert!(!bytes_eq(b"abc", b"abd"));
    assert!(!bytes_eq(b"ab", b"abc"));
}

#[test]
fn dependencies_skip_the_kernel_and_must_be_loaded() {
    let table = b"\0menix.kso\0foo\0bar\0";
    let needed = vec![1, 11, 15];
    let loaded = vec![b"bar".to_vec(), b"foo".to_vec()];
    assert_eq!(module_dependencies(&needed, table, &loaded), Ok(vec![b"foo".to_vec(), b"bar".to_vec()]));
    assert_eq!(module_dependencies(&needed, table, &vec![b"foo".to_vec()]), Err(Errno::ENOENT));
    assert_eq!(module_dependencies(&vec![1], table, &vec![]), Ok(vec![]));
}

#[test]
fn kernel_symbols_are_found_by_name() {
    let mut k = KernelSymbols::new();
    k.register(b"printk".to_vec(), sym(0, 1, 0xffff_8000));
    k.register(b"panic".to_vec(), sym(0, 1, 0xffff_9000));
    assert_eq!(k.lookup(b"panic").map(|s| s.st_value), Some(0xffff_9000));
    assert_eq!(k.lookup(b"nothing"), None);
}

#[test]
fn relocations_are_planned_in_order_and_stop_at_a_failure() {
    let strtab = b"\0printk\0missing\0";
    let symtab = vec![sym(0, 1, 0), sym(1, 0, 0), sym(8, 0, 0), sym(0, 2, 0x40)];
    let mut k = KernelSymbols::new();
    k.register(b"printk".to_vec(), sym(0, 1, 0x9000));
    let relas = vec![
        ElfRela { r_offset: 0x10, r_info: R_COMMON_RELATIVE as u64, r_addend: 0x8 },
        ElfRela { r_offset: 0x18, r_info: (1u64 << 32) | R_COMMON_64 as u64, r_addend: 0x4 },
        ElfRela { r_offset: 0x20, r_info: (3u64 << 32) | R_COMMON_64 as u64, r_addend: 0 },
        ElfRela { r_offset: 0x28, r_info: (2u64 << 32) | R_COMMON_64 as u64, r_addend: 0 },
        ElfRela { r_offset: 0x30, r_info: R_COMMON_RELATIVE as u64, r_addend: 0 },
    ];
    let (writes, result) = plan_relocations(&relas, &symtab, strtab, 0x1000, &k);
    assert_eq!(
        writes,
        vec![
            RelocWrite { location: 0x1010, value: 0x1008 },
            RelocWrite { location: 0x1018, value: 0x9004 },
            RelocWrite { location: 0x1020, value: 0x1040 },
        ]
    );
    assert_eq!(result, Err(Errno::EINVAL));
}

#[test]
fn kernel_symbols_are_registered_with_moved_addresses() {
    let strings = b"\0printk\0panic\0\xff\0";
    let mut syms = vec![sym(1, 1, 0x100), sym(0, 1, 0x200), sym(8, 1, 0x300), sym(14, 1, 0x400)];
    let mut k = KernelSymbols::new();
    let n = k.register_kernel(&mut syms, strings, 0xffff_0000);
    // The empty name and the name that is no UTF-8 are skipped.
    assert_eq!(n, 2);
    assert_eq!(syms[1].st_value, 0xffff_0200);
    assert_eq!(k.lookup(b"printk").map(|s| s.st_value), Some(0xffff_0100));
    assert_eq!(k.lookup(b"panic").map(|s| s.st_value), Some(0xffff_0300));
}
