//! ELF executables and kernel modules: headers, program headers and the
//! layout that loading them produces.
use vstd::prelude::*;
use vstd::wrapping::usize_specs::wrapping_add;
use crate::errno::{Errno, EResult};
use crate::view::{decode, le_value};
use crate::util::{align_up, is_pow2, mask_down, round_up};
use crate::syscall::memory::{VM_READ, VM_WRITE, VM_EXEC};

verus! {

// ELF header identification.
pub const EI_CLASS: usize = 4;
pub const EI_DATA: usize = 5;
pub const EI_VERSION: usize = 6;
pub const EI_OSABI: usize = 7;
pub const EI_NIDENT: usize = 16;

pub const ELFCLASS32: u8 = 1;
pub const ELFCLASS64: u8 = 2;
pub const ELFDATA2LSB: u8 = 1;
pub const ELFDATA2MSB: u8 = 2;
pub const EV_CURRENT: u8 = 1;

// Object file types.
pub const ET_NONE: u16 = 0;
pub const ET_REL: u16 = 1;
pub const ET_EXEC: u16 = 2;
pub const ET_DYN: u16 = 3;
pub const ET_CORE: u16 = 4;

// Program header types.
pub const PT_NULL: u32 = 0x00000000;
pub const PT_LOAD: u32 = 0x00000001;
pub const PT_DYNAMIC: u32 = 0x00000002;
pub const PT_INTERP: u32 = 0x00000003;
pub const PT_NOTE: u32 = 0x00000004;
pub const PT_PHDR: u32 = 0x00000006;
pub const PT_TLS: u32 = 0x00000007;
pub const PT_MODVERSION: u32 = 0x60000001;
pub const PT_MODAUTHOR: u32 = 0x60000002;
pub const PT_MODDESC: u32 = 0x60000003;

// Program header flags.
pub const PF_EXECUTE: u32 = 0x01;
pub const PF_WRITE: u32 = 0x02;
pub const PF_READ: u32 = 0x04;

/// Size of the ELF header and of one program header.
pub const ELF_HDR_SIZE: usize = 64;
pub const ELF_PHDR_SIZE: usize = 56;
pub const ELF_SYM_SIZE: usize = 24;
pub const ELF_DYN_SIZE: usize = 16;
pub const ELF_RELA_SIZE: usize = 24;

/// The little-endian number in `width` bytes of `s` at `start`.
pub open spec fn le_at(s: Seq<u8>, start: int, width: int) -> nat {
    le_value(s.subrange(start, start + width))
}

/// ELF header.
#[derive(Clone, Copy, Debug)]
pub struct ElfHdr {
    pub e_ident: [u8; 16],
    pub e_type: u16,
    pub e_machine: u16,
    pub e_version: u32,
    pub e_entry: u64,
    pub e_phoff: u64,
    pub e_shoff: u64,
    pub e_flags: u32,
    pub e_ehsize: u16,
    pub e_phentsize: u16,
    pub e_phnum: u16,
    pub e_shentsize: u16,
    pub e_shnum: u16,
    pub e_shstrndx: u16,
}

/// Program header.
#[derive(Clone, Copy, Debug, PartialEq, Eq, Structural)]
pub struct ElfPhdr {
    pub p_type: u32,
    pub p_flags: u32,
    pub p_offset: u64,
    pub p_vaddr: u64,
    pub p_paddr: u64,
    pub p_filesz: u64,
    pub p_memsz: u64,
    pub p_align: u64,
}

/// Symbol table entry.
#[derive(Clone, Copy, Debug, PartialEq, Eq, Structural)]
pub struct ElfSym {
    pub st_name: u32,
    pub st_info: u8,
    pub st_other: u8,
    pub st_shndx: u16,
    pub st_value: u64,
    pub st_size: u64,
}

/// Dynamic table entry.
#[derive(Clone, Copy, Debug, PartialEq, Eq, Structural)]
pub struct ElfDyn {
    pub d_tag: i64,
    pub d_val: u64,
}

/// Relocation with addend.
#[derive(Clone, Copy, Debug, PartialEq, Eq, Structural)]
pub struct ElfRela {
    pub r_offset: u64,
    pub r_info: u64,
    pub r_addend: i64,
}

/// Header of a symbol hash table.
#[derive(Clone, Copy, Debug, PartialEq, Eq, Structural)]
pub struct ElfHashTable {
    pub nbucket: u32,
    pub nchain: u32,
}

/// The first four bytes are the ELF magic.
pub open spec fn has_elf_magic(s: Seq<u8>) -> bool {
    s[0] == 0x7F && s[1] == 69 && s[2] == 76 && s[3] == 70
}

/// The header that 64 bytes at `start` hold.
pub open spec fn hdr_at(s: Seq<u8>, start: int) -> ElfHdr {
    ElfHdr {
        e_ident: arbitrary(),
        e_type: le_at(s, start + 16, 2) as u16,
        e_machine: le_at(s, start + 18, 2) as u16,
        e_version: le_at(s, start + 20, 4) as u32,
        e_entry: le_at(s, start + 24, 8) as u64,
        e_phoff: le_at(s, start + 32, 8) as u64,
        e_shoff: le_at(s, start + 40, 8) as u64,
        e_flags: le_at(s, start + 48, 4) as u32,
        e_ehsize: le_at(s, start + 52, 2) as u16,
        e_phentsize: le_at(s, start + 54, 2) as u16,
        e_phnum: le_at(s, start + 56, 2) as u16,
        e_shentsize: le_at(s, start + 58, 2) as u16,
        e_shnum: le_at(s, start + 60, 2) as u16,
        e_shstrndx: le_at(s, start + 62, 2) as u16,
    }
}

/// The header fields read from bytes agree with `hdr_at`, and the
/// identification bytes are the first sixteen bytes.
pub open spec fn hdr_matches(h: ElfHdr, s: Seq<u8>, start: int) -> bool {
    &&& h.e_ident@ == s.subrange(start, start + 16)
    &&& h == (ElfHdr { e_ident: h.e_ident, ..hdr_at(s, start) })
}

/// The program header that 56 bytes at `start` hold.
pub open spec fn phdr_at(s: Seq<u8>, start: int) -> ElfPhdr {
    ElfPhdr {
        p_type: le_at(s, start, 4) as u32,
        p_flags: le_at(s, start + 4, 4) as u32,
        p_offset: le_at(s, start + 8, 8) as u64,
        p_vaddr: le_at(s, start + 16, 8) as u64,
        p_paddr: le_at(s, start + 24, 8) as u64,
        p_filesz: le_at(s, start + 32, 8) as u64,
        p_memsz: le_at(s, start + 40, 8) as u64,
        p_align: le_at(s, start + 48, 8) as u64,
    }
}

fn read_u16(b: &[u8], at: usize) -> (r: u16)
    requires
        at + 2 <= b@.len(),
    ensures
        r == le_at(b@, at as int, 2),
{
    proof { crate::view::lemma_le_bound(b@.subrange(at as int, at + 2)); }
    reveal_with_fuel(crate::view::width_limit, 3);
    decode(b, at, 2, true) as u16
}

fn read_u32(b: &[u8], at: usize) -> (r: u32)
    requires
        at + 4 <= b@.len(),
    ensures
        r == le_at(b@, at as int, 4),
{
    proof { crate::view::lemma_le_bound(b@.subrange(at as int, at + 4)); }
    reveal_with_fuel(crate::view::width_limit, 5);
    decode(b, at, 4, true) as u32
}

fn read_u64(b: &[u8], at: usize) -> (r: u64)
    requires
        at + 8 <= b@.len(),
    ensures
        r == le_at(b@, at as int, 8),
{
    decode(b, at, 8, true)
}

impl ElfHdr {
    /// Reads an ELF header from the first 64 bytes of `bytes`.
    pub fn parse(bytes: &[u8]) -> (r: ElfHdr)
        requires
            bytes@.len() >= ELF_HDR_SIZE,
        ensures
            hdr_matches(r, bytes@, 0),
    {
        let mut ident = [0u8; 16];
        let mut i: usize = 0;
        while i < 16
            invariant
                i <= 16,
                bytes@.len() >= 64,
                forall|k: int| 0 <= k < i ==> ident@[k] == bytes@[k],
            decreases 16 - i,
        {
            ident[i] = bytes[i];
            i = i + 1;
        }
        assert(ident@ =~= bytes@.subrange(0, 16));
        ElfHdr {
            e_ident: ident,
            e_type: read_u16(bytes, 16),
            e_machine: read_u16(bytes, 18),
            e_version: read_u32(bytes, 20),
            e_entry: read_u64(bytes, 24),
            e_phoff: read_u64(bytes, 32),
            e_shoff: read_u64(bytes, 40),
            e_flags: read_u32(bytes, 48),
            e_ehsize: read_u16(bytes, 52),
            e_phentsize: read_u16(bytes, 54),
            e_phnum: read_u16(bytes, 56),
            e_shentsize: read_u16(bytes, 58),
            e_shnum: read_u16(bytes, 60),
            e_shstrndx: read_u16(bytes, 62),
        }
    }
}

impl ElfPhdr {
    /// Reads a program header from 56 bytes of `bytes` at `at`.
    pub fn parse(bytes: &[u8], at: usize) -> (r: ElfPhdr)
        requires
            at + ELF_PHDR_SIZE <= bytes@.len(),
        ensures
            r == phdr_at(bytes@, at as int),
    {
        let total = bytes.len();
        assert(at + ELF_PHDR_SIZE <= total);
        ElfPhdr {
            p_type: read_u32(bytes, at),
            p_flags: read_u32(bytes, at + 4),
            p_offset: read_u64(bytes, at + 8),
            p_vaddr: read_u64(bytes, at + 16),
            p_paddr: read_u64(bytes, at + 24),
            p_filesz: read_u64(bytes, at + 32),
            p_memsz: read_u64(bytes, at + 40),
            p_align: read_u64(bytes, at + 48),
        }
    }
}

/// The dynamic table entry that 16 bytes at `start` hold.
pub open spec fn dyn_at(s: Seq<u8>, start: int) -> ElfDyn {
    ElfDyn { d_tag: le_at(s, start, 8) as u64 as i64, d_val: le_at(s, start + 8, 8) as u64 }
}

/// The symbol that 24 bytes at `start` hold.
pub open spec fn sym_at(s: Seq<u8>, start: int) -> ElfSym {
    ElfSym {
        st_name: le_at(s, start, 4) as u32,
        st_info: s[start + 4],
        st_other: s[start + 5],
        st_shndx: le_at(s, start + 6, 2) as u16,
        st_value: le_at(s, start + 8, 8) as u64,
        st_size: le_at(s, start + 16, 8) as u64,
    }
}

/// The relocation that 24 bytes at `start` hold.
pub open spec fn rela_at(s: Seq<u8>, start: int) -> ElfRela {
    ElfRela {
        r_offset: le_at(s, start, 8) as u64,
        r_info: le_at(s, start + 8, 8) as u64,
        r_addend: le_at(s, start + 16, 8) as u64 as i64,
    }
}

impl ElfDyn {
    /// Reads a dynamic table entry from 16 bytes of `bytes` at `at`.
    pub fn parse(bytes: &[u8], at: usize) -> (r: ElfDyn)
        requires
            at + ELF_DYN_SIZE <= bytes@.len(),
        ensures
            r == dyn_at(bytes@, at as int),
    {
        let total = bytes.len();
        assert(at + ELF_DYN_SIZE <= total);
        ElfDyn { d_tag: read_u64(bytes, at) as i64, d_val: read_u64(bytes, at + 8) }
    }
}

impl ElfSym {
    /// Reads a symbol from 24 bytes of `bytes` at `at`.
    pub fn parse(bytes: &[u8], at: usize) -> (r: ElfSym)
        requires
            at + ELF_SYM_SIZE <= bytes@.len(),
        ensures
            r == sym_at(bytes@, at as int),
    {
        let total = bytes.len();
        assert(at + ELF_SYM_SIZE <= total);
        ElfSym {
            st_name: read_u32(bytes, at),
            st_info: bytes[at + 4],
            st_other: bytes[at + 5],
            st_shndx: read_u16(bytes, at + 6),
            st_value: read_u64(bytes, at + 8),
            st_size: read_u64(bytes, at + 16),
        }
    }
}

impl ElfRela {
    /// Reads a relocation from 24 bytes of `bytes` at `at`.
    pub fn parse(bytes: &[u8], at: usize) -> (r: ElfRela)
        requires
            at + ELF_RELA_SIZE <= bytes@.len(),
        ensures
            r == rela_at(bytes@, at as int),
    {
        let total = bytes.len();
        assert(at + ELF_RELA_SIZE <= total);
        ElfRela { r_offset: read_u64(bytes, at), r_info: read_u64(bytes, at + 8), r_addend: read_u64(bytes, at + 16) as i64 }
    }
}

/// The number of symbols a hash table at `start` counts: its `nchain`.
pub open spec fn nchain_at(s: Seq<u8>, start: int) -> u32 {
    le_at(s, start + 4, 4) as u32
}

/// Reads the `nchain` field of the hash table at `at`.
pub fn hash_nchain(bytes: &[u8], at: usize) -> (r: u32)
    requires
        at + 8 <= bytes@.len(),
    ensures
        r == nchain_at(bytes@, at as int),
{
    let total = bytes.len();
    assert(at + 8 <= total);
    read_u32(bytes, at + 4)
}

/// Whether the bytes read from the start of a file identify it as ELF:
/// a whole header was read and it starts with the ELF magic.
pub fn identify(header: &[u8]) -> (r: bool)
    ensures
        r == (header@.len() == ELF_HDR_SIZE && has_elf_magic(header@)),
{
    if header.len() != ELF_HDR_SIZE {
        return false;
    }
    header[0] == 0x7F && header[1] == 69 && header[2] == 76 && header[3] == 70
}


/// An executable's header is loadable on a machine of type `machine`: its
/// version is current and it was built for that machine.
pub fn check_exec_header(hdr: &ElfHdr, machine: u16) -> (r: EResult<()>)
    ensures
        r == (if hdr.e_ident@[EI_VERSION as int] != EV_CURRENT || hdr.e_machine != machine {
            Err::<(), Errno>(Errno::ENOEXEC)
        } else {
            Ok(())
        }),
{
    if hdr.e_ident[EI_VERSION] != EV_CURRENT {
        return Err(Errno::ENOEXEC);
    }
    if hdr.e_machine != machine {
        return Err(Errno::ENOEXEC);
    }
    Ok(())
}

/// A kernel module's header is loadable: ELF magic, current version, the
/// machine type, 64-bit class and little-endian data.
pub open spec fn module_header_ok(hdr: ElfHdr, machine: u16) -> bool {
    &&& has_elf_magic(hdr.e_ident@)
    &&& hdr.e_ident@[EI_VERSION as int] == EV_CURRENT
    &&& hdr.e_machine == machine
    &&& hdr.e_ident@[EI_CLASS as int] == ELFCLASS64
    &&& hdr.e_ident@[EI_DATA as int] == ELFDATA2LSB
}

/// Checks a module's header: `ENOEXEC` unless `module_header_ok`.
pub fn check_module_header(hdr: &ElfHdr, machine: u16) -> (r: EResult<()>)
    ensures
        r == (if module_header_ok(*hdr, machine) {
            Ok::<(), Errno>(())
        } else {
            Err(Errno::ENOEXEC)
        }),
{
    let id = &hdr.e_ident;
    if !(id[0] == 0x7F && id[1] == 69 && id[2] == 76 && id[3] == 70) || id[EI_VERSION] != EV_CURRENT
        || hdr.e_machine != machine {
        return Err(Errno::ENOEXEC);
    }
    if id[EI_CLASS] != ELFCLASS64 {
        return Err(Errno::ENOEXEC);
    }
    if id[EI_DATA] != ELFDATA2LSB {
        return Err(Errno::ENOEXEC);
    }
    Ok(())
}

/// A relocatable (`ET_DYN`) object is loaded at `base`, anything else at
/// its own addresses.
pub fn load_base(hdr: &ElfHdr, base: usize) -> (r: usize)
    ensures
        r == (if hdr.e_type == ET_DYN { base } else { 0 }),
{
    if hdr.e_type == ET_DYN {
        base
    } else {
        0
    }
}

/// File offset of program header `i`.
pub fn phdr_offset(hdr: &ElfHdr, i: u16) -> (r: u64)
    requires
        hdr.e_phoff + hdr.e_phentsize * i <= u64::MAX,
    ensures
        r == hdr.e_phoff + hdr.e_phentsize * i,
{
    assert(hdr.e_phentsize as u64 * i as u64 <= 0xffff * 0xffff) by (nonlinear_arith)
        requires hdr.e_phentsize <= 0xffff, i <= 0xffff;
    hdr.e_phoff + hdr.e_phentsize as u64 * i as u64
}

/// The page flags for a segment's flags.
pub open spec fn spec_segment_prot(p_flags: u32) -> u32 {
    (if p_flags & PF_READ != 0 { VM_READ } else { 0u32 }) | (if p_flags & PF_WRITE != 0 {
        VM_WRITE
    } else {
        0u32
    }) | (if p_flags & PF_EXECUTE != 0 { VM_EXEC } else { 0u32 })
}

/// The page flags for a segment's flags.
pub fn segment_prot(p_flags: u32) -> (r: u32)
    ensures
        r == spec_segment_prot(p_flags),
{
    let a: u32 = if p_flags & PF_READ != 0 { VM_READ } else { 0 };
    let b: u32 = if p_flags & PF_WRITE != 0 { VM_WRITE } else { 0 };
    let c: u32 = if p_flags & PF_EXECUTE != 0 { VM_EXEC } else { 0 };
    a | b | c
}

/// A segment's pages are readable, writable and executable exactly as its
/// flags say, and carry no other page flag.
pub proof fn lemma_segment_prot_follows_flags(p_flags: u32)
    ensures
        (spec_segment_prot(p_flags) & VM_READ != 0) == (p_flags & PF_READ != 0),
        (spec_segment_prot(p_flags) & VM_WRITE != 0) == (p_flags & PF_WRITE != 0),
        (spec_segment_prot(p_flags) & VM_EXEC != 0) == (p_flags & PF_EXECUTE != 0),
        spec_segment_prot(p_flags) & !(VM_READ | VM_WRITE | VM_EXEC) == 0,
{
    let r = p_flags & PF_READ != 0;
    let w = p_flags & PF_WRITE != 0;
    let x = p_flags & PF_EXECUTE != 0;
    let v = spec_segment_prot(p_flags);
    assert(v == (if r { 1u32 } else { 0u32 }) | (if w { 2u32 } else { 0u32 }) | (if x { 4u32 } else { 0u32 }));
    assert(VM_READ | VM_WRITE | VM_EXEC == 7u32) by (bit_vector);
    assert(((v & 1u32) != 0) == r && ((v & 2u32) != 0) == w && ((v & 4u32) != 0) == x && (v & !7u32) == 0)
        by (bit_vector)
        requires
            v == (if r { 1u32 } else { 0u32 }) | (if w { 2u32 } else { 0u32 }) | (if x { 4u32 } else { 0u32 }),
    ;
}

/// How a loadable segment is mapped: the file contents go to
/// `map_address` in `backed_size` bytes taken from `file_offset`; where
/// the segment is larger in memory, `zero_size` bytes of fresh memory
/// follow at `map_address + backed_size`.
#[derive(Clone, Copy, Debug, PartialEq, Eq, Structural)]
pub struct SegmentPlan {
    pub map_address: usize,
    pub backed_size: usize,
    pub file_offset: u64,
    pub file_size: usize,
    pub zero_size: usize,
    pub prot: u32,
}

/// The arithmetic of mapping the segment does not overflow.
pub open spec fn segment_plannable(p: ElfPhdr, base: usize, page_size: usize) -> bool {
    let misalign = p.p_vaddr as usize & ((page_size - 1) as usize);
    &&& p.p_filesz != 0
    &&& base + p.p_vaddr <= usize::MAX
    &&& p.p_filesz + misalign + page_size - 1 <= usize::MAX
    &&& p.p_memsz + misalign + page_size - 1 <= usize::MAX
    &&& p.p_offset >= misalign
}

/// The mapping of a `PT_LOAD` segment for a load base `base`.
pub open spec fn spec_plan_segment(p: ElfPhdr, base: usize, page_size: usize) -> SegmentPlan {
    let misalign = p.p_vaddr as usize & ((page_size - 1) as usize);
    let backed = round_up(p.p_filesz + misalign, page_size as int);
    let total = round_up(p.p_memsz + misalign, page_size as int);
    SegmentPlan {
        map_address: (base + p.p_vaddr - misalign) as usize,
        backed_size: backed as usize,
        file_offset: (p.p_offset - misalign) as u64,
        file_size: p.p_filesz as usize,
        zero_size: (if total > backed { total - backed } else { 0 }) as usize,
        prot: spec_segment_prot(p.p_flags),
    }
}

/// Plans the mapping of a `PT_LOAD` segment for a load base `base`: the
/// start is rounded down to a page, and both the file-backed and the
/// whole memory size are rounded up to pages from there.
pub fn plan_segment(p: &ElfPhdr, base: usize, page_size: usize) -> (r: SegmentPlan)
    requires
        is_pow2(page_size),
        segment_plannable(*p, base, page_size),
    ensures
        ({
            let misalign = p.p_vaddr as usize & ((page_size - 1) as usize);
            let backed = round_up(p.p_filesz + misalign, page_size as int);
            let total = round_up(p.p_memsz + misalign, page_size as int);
            &&& misalign < page_size
            &&& misalign == (p.p_vaddr as usize) % page_size
            &&& r.map_address == base + p.p_vaddr - misalign
            &&& r.backed_size == backed
            &&& r.file_offset == p.p_offset - misalign
            &&& r.file_size == p.p_filesz
            &&& r.zero_size == if total > backed { total - backed } else { 0 }
            &&& r.prot == spec_segment_prot(p.p_flags)
            &&& r.backed_size > 0
        }),
        r == spec_plan_segment(*p, base, page_size),
{
    proof { crate::util::lemma_pow2_positive(page_size); }
    let mask = page_size - 1;
    let misalign = p.p_vaddr as usize & mask;
    proof {
        let vaddr = p.p_vaddr as usize;
        crate::util::lemma_mask_low(vaddr, page_size);
    }
    let map_address = base + p.p_vaddr as usize - misalign;
    let backed = align_up(p.p_filesz as usize + misalign, page_size);
    let total = align_up(p.p_memsz as usize + misalign, page_size);
    let zero = if total > backed { total - backed } else { 0 };
    SegmentPlan {
        map_address,
        backed_size: backed,
        file_offset: p.p_offset - misalign as u64,
        file_size: p.p_filesz as usize,
        zero_size: zero,
        prot: segment_prot(p.p_flags),
    }
}

/// The values an executable hands to its program through the auxiliary vector.
#[derive(Clone, Copy, Debug, PartialEq, Eq, Structural)]
pub struct ElfInfo {
    pub at_phdr: usize,
    pub at_phnum: usize,
    pub at_phent: usize,
    pub at_entry: usize,
}

/// The auxiliary values of an executable loaded at `base` whose program
/// headers are mapped at `phdr_addr`.
pub fn elf_info(hdr: &ElfHdr, phdr_addr: usize, base: usize) -> (r: ElfInfo)
    requires
        phdr_addr + base <= usize::MAX,
        hdr.e_entry + base <= usize::MAX,
    ensures
        r.at_phdr == phdr_addr + base,
        r.at_phnum == hdr.e_phnum,
        r.at_phent == hdr.e_phentsize,
        r.at_entry == hdr.e_entry + base,
{
    ElfInfo {
        at_phdr: phdr_addr + base,
        at_phnum: hdr.e_phnum as usize,
        at_phent: hdr.e_phentsize as usize,
        at_entry: hdr.e_entry as usize + base,
    }
}


// Dynamic table tags.
pub const DT_NULL: u32 = 0;
pub const DT_NEEDED: u32 = 1;
pub const DT_PLTRELSZ: u32 = 2;
pub const DT_HASH: u32 = 4;
pub const DT_STRTAB: u32 = 5;
pub const DT_SYMTAB: u32 = 6;
pub const DT_RELA: u32 = 7;
pub const DT_RELASZ: u32 = 8;
pub const DT_STRSZ: u32 = 10;
pub const DT_SONAME: u32 = 14;
pub const DT_JMPREL: u32 = 23;
pub const DT_INIT_ARRAY: u32 = 25;

/// What a module's dynamic table says.
#[derive(Clone, Debug)]
pub struct DynamicInfo {
    pub strtab: Option<u64>,
    pub strsz: Option<u64>,
    pub symtab: Option<u64>,
    pub rela: Option<u64>,
    pub relasz: Option<u64>,
    pub pltrelsz: Option<u64>,
    pub jmprel: Option<u64>,
    pub init_array: Option<u64>,
    pub hash: Option<u64>,
    pub soname: Option<u64>,
    pub needed: Vec<u64>,
}

/// Number of entries before the first `DT_NULL` entry (all if none).
pub open spec fn dyn_len(entries: Seq<ElfDyn>, n: int) -> int
    decreases n,
{
    if n <= 0 {
        0
    } else if dyn_len(entries, n - 1) < n - 1 {
        dyn_len(entries, n - 1)
    } else if entries[n - 1].d_tag as u32 == DT_NULL {
        n - 1
    } else {
        n
    }
}

/// The value of the last entry with `tag` among the first `n` entries.
pub open spec fn dyn_last(entries: Seq<ElfDyn>, n: int, tag: u32) -> Option<u64>
    decreases n,
{
    if n <= 0 {
        None
    } else if entries[n - 1].d_tag as u32 == tag {
        Some(entries[n - 1].d_val)
    } else {
        dyn_last(entries, n - 1, tag)
    }
}

/// The values of all entries with `tag` among the first `n`, in order.
pub open spec fn dyn_all(entries: Seq<ElfDyn>, n: int, tag: u32) -> Seq<u64>
    decreases n,
{
    if n <= 0 {
        Seq::empty()
    } else if entries[n - 1].d_tag as u32 == tag {
        dyn_all(entries, n - 1, tag).push(entries[n - 1].d_val)
    } else {
        dyn_all(entries, n - 1, tag)
    }
}

proof fn lemma_dyn_len_stops(entries: Seq<ElfDyn>, i: int, k: int)
    requires
        0 <= i < k,
        dyn_len(entries, i + 1) == i,
    ensures
        dyn_len(entries, k) == i,
    decreases k - i,
{
    if k > i + 1 {
        lemma_dyn_len_stops(entries, i, k - 1);
    }
}

/// Reads the dynamic table of a module up to its `DT_NULL` entry. Where a
/// tag occurs more than once, its last value counts; `DT_NEEDED` entries
/// are all collected. Tags are compared in their low 32 bits.
pub fn scan_dynamic(entries: &Vec<ElfDyn>) -> (r: DynamicInfo)
    ensures
        ({
            let n = dyn_len(entries@, entries@.len() as int);
            &&& r.strtab == dyn_last(entries@, n, DT_STRTAB)
            &&& r.symtab == dyn_last(entries@, n, DT_SYMTAB)
            &&& r.strsz == dyn_last(entries@, n, DT_STRSZ)
            &&& r.rela == dyn_last(entries@, n, DT_RELA)
            &&& r.relasz == dyn_last(entries@, n, DT_RELASZ)
            &&& r.pltrelsz == dyn_last(entries@, n, DT_PLTRELSZ)
            &&& r.jmprel == dyn_last(entries@, n, DT_JMPREL)
            &&& r.init_array == dyn_last(entries@, n, DT_INIT_ARRAY)
            &&& r.hash == dyn_last(entries@, n, DT_HASH)
            &&& r.soname == dyn_last(entries@, n, DT_SONAME)
            &&& r.needed@ == dyn_all(entries@, n, DT_NEEDED)
        }),
{
    let mut info = DynamicInfo {
        strtab: None,
        strsz: None,
        symtab: None,
        rela: None,
        relasz: None,
        pltrelsz: None,
        jmprel: None,
        init_array: None,
        hash: None,
        soname: None,
        needed: Vec::new(),
    };
    let mut i: usize = 0;
    while i < entries.len()
        invariant
            i <= entries@.len(),
            dyn_len(entries@, i as int) == i,
            info.strtab == dyn_last(entries@, i as int, DT_STRTAB),
            info.symtab == dyn_last(entries@, i as int, DT_SYMTAB),
            info.strsz == dyn_last(entries@, i as int, DT_STRSZ),
            info.rela == dyn_last(entries@, i as int, DT_RELA),
            info.relasz == dyn_last(entries@, i as int, DT_RELASZ),
            info.pltrelsz == dyn_last(entries@, i as int, DT_PLTRELSZ),
            info.jmprel == dyn_last(entries@, i as int, DT_JMPREL),
            info.init_array == dyn_last(entries@, i as int, DT_INIT_ARRAY),
            info.hash == dyn_last(entries@, i as int, DT_HASH),
            info.soname == dyn_last(entries@, i as int, DT_SONAME),
            info.needed@ == dyn_all(entries@, i as int, DT_NEEDED),
        ensures
            ({
                let n = dyn_len(entries@, entries@.len() as int);
                &&& info.strtab == dyn_last(entries@, n, DT_STRTAB)
                &&& info.symtab == dyn_last(entries@, n, DT_SYMTAB)
                &&& info.strsz == dyn_last(entries@, n, DT_STRSZ)
                &&& info.rela == dyn_last(entries@, n, DT_RELA)
                &&& info.relasz == dyn_last(entries@, n, DT_RELASZ)
                &&& info.pltrelsz == dyn_last(entries@, n, DT_PLTRELSZ)
                &&& info.jmprel == dyn_last(entries@, n, DT_JMPREL)
                &&& info.init_array == dyn_last(entries@, n, DT_INIT_ARRAY)
                &&& info.hash == dyn_last(entries@, n, DT_HASH)
                &&& info.soname == dyn_last(entries@, n, DT_SONAME)
                &&& info.needed@ == dyn_all(entries@, n, DT_NEEDED)
            }),
        decreases entries.len() - i,
    {
        let e = entries[i];
        let tag = e.d_tag as u32;
        if tag == DT_NULL {
            proof {
                assert(dyn_len(entries@, i + 1) == i);
                lemma_dyn_len_stops(entries@, i as int, entries@.len() as int);
            }
            break;
        }
        if tag == DT_STRTAB {
            info.strtab = Some(e.d_val);
        } else if tag == DT_SYMTAB {
            info.symtab = Some(e.d_val);
        } else if tag == DT_STRSZ {
            info.strsz = Some(e.d_val);
        } else if tag == DT_RELA {
            info.rela = Some(e.d_val);
        } else if tag == DT_RELASZ {
            info.relasz = Some(e.d_val);
        } else if tag == DT_PLTRELSZ {
            info.pltrelsz = Some(e.d_val);
        } else if tag == DT_JMPREL {
            info.jmprel = Some(e.d_val);
        } else if tag == DT_INIT_ARRAY {
            info.init_array = Some(e.d_val);
        } else if tag == DT_HASH {
            info.hash = Some(e.d_val);
        } else if tag == DT_NEEDED {
            info.needed.push(e.d_val);
        } else if tag == DT_SONAME {
            info.soname = Some(e.d_val);
        }
        i = i + 1;
    }
    info
}

/// The segment whose file-backed part holds the virtual address `x`.
pub open spec fn covers(p: ElfPhdr, x: u64) -> bool {
    p.p_vaddr <= x && x < p.p_vaddr + p.p_filesz
}

/// Index of the first program header among the first `n` that covers `x`.
pub open spec fn first_cover(phdrs: Seq<ElfPhdr>, n: int, x: u64) -> Option<int>
    decreases n,
{
    if n <= 0 {
        None
    } else {
        match first_cover(phdrs, n - 1, x) {
            Some(i) => Some(i),
            None => if covers(phdrs[n - 1], x) {
                Some(n - 1)
            } else {
                None
            },
        }
    }
}

/// The program headers can be searched without an overflow fault.
pub open spec fn phdrs_searchable(phdrs: Seq<ElfPhdr>) -> bool {
    forall|i: int| 0 <= i < phdrs.len() ==> #[trigger] phdrs[i].p_vaddr + phdrs[i].p_filesz <= u64::MAX
}

/// Converts a virtual address of a module into an offset in its file,
/// through the first segment that covers it; addresses no segment covers
/// are left as they are.
pub fn fix_addr(phdrs: &Vec<ElfPhdr>, addr: Option<u64>) -> (r: Option<u64>)
    requires
        phdrs_searchable(phdrs@),
        addr matches Some(x) ==> (first_cover(phdrs@, phdrs@.len() as int, x) matches Some(i)
            ==> x - phdrs@[i].p_vaddr + phdrs@[i].p_offset <= u64::MAX),
    ensures
        r == match addr {
            None => None,
            Some(x) => match first_cover(phdrs@, phdrs@.len() as int, x) {
                None => Some(x),
                Some(i) => Some((x - phdrs@[i].p_vaddr + phdrs@[i].p_offset) as u64),
            },
        },
{
    let x = match addr {
        None => return None,
        Some(x) => x,
    };
    let ghost bound = first_cover(phdrs@, phdrs@.len() as int, x) matches Some(i)
        ==> x - phdrs@[i].p_vaddr + phdrs@[i].p_offset <= u64::MAX;
    let mut i: usize = 0;
    while i < phdrs.len()
        invariant
            i <= phdrs@.len(),
            addr == Some(x),
            bound,
            bound == (first_cover(phdrs@, phdrs@.len() as int, x) matches Some(i)
                ==> x - phdrs@[i].p_vaddr + phdrs@[i].p_offset <= u64::MAX),
            phdrs_searchable(phdrs@),
            first_cover(phdrs@, i as int, x) is None,
        decreases phdrs.len() - i,
    {
        let p = phdrs[i];
        assert(p.p_vaddr + p.p_filesz <= u64::MAX);
        if x >= p.p_vaddr && x < p.p_vaddr + p.p_filesz {
            proof {
                assert(first_cover(phdrs@, i + 1, x) == Some(i as int));
                lemma_first_cover_stable(phdrs@, i + 1, phdrs@.len() as int, x);
                assert(phdrs@[i as int] == p);
            }
            return Some(x - p.p_vaddr + p.p_offset);
        }
        i = i + 1;
    }
    Some(x)
}

proof fn lemma_first_cover_stable(phdrs: Seq<ElfPhdr>, n: int, m: int, x: u64)
    requires
        0 <= n <= m,
        first_cover(phdrs, n, x) is Some,
    ensures
        first_cover(phdrs, m, x) == first_cover(phdrs, n, x),
    decreases m - n,
{
    if n < m {
        lemma_first_cover_stable(phdrs, n, m - 1, x);
    }
}

// Relocation types of x86_64.
pub const R_COMMON_NONE: u32 = 0;
pub const R_COMMON_64: u32 = 1;
pub const R_COMMON_GLOB_DAT: u32 = 6;
pub const R_COMMON_JUMP_SLOT: u32 = 7;
pub const R_COMMON_RELATIVE: u32 = 8;

/// The symbol index of a relocation: the upper 32 bits of its info.
pub fn rela_symbol(rela: &ElfRela) -> (r: u32)
    ensures
        r == rela.r_info / 0x1_0000_0000,
{
    let info = rela.r_info;
    let s = info >> 32u64;
    assert(info >> 32u64 == info / 0x1_0000_0000) by (bit_vector);
    s as u32
}

/// The type of a relocation: the lower 32 bits of its info.
pub fn rela_type(rela: &ElfRela) -> (r: u32)
    ensures
        r == rela.r_info % 0x1_0000_0000,
{
    let info = rela.r_info;
    let t = info & 0xFFFF_FFFFu64;
    assert(info & 0xFFFF_FFFFu64 == info % 0x1_0000_0000) by (bit_vector);
    t as u32
}

/// What a relocation writes at its location, if anything: absolute and
/// symbol relocations write the symbol's address plus the addend, where a
/// symbol without a section is looked up among the kernel's symbols
/// (`kernel_value`); relative relocations write the load base plus the
/// addend. Addresses wrap around, so a negative addend subtracts. Other
/// types are refused.
pub open spec fn spec_relocation(
    typ: u32,
    sym: ElfSym,
    load_base: usize,
    addend: i64,
    kernel_value: Option<u64>,
) -> EResult<Option<usize>> {
    if typ == R_COMMON_NONE {
        Ok(None)
    } else if typ == R_COMMON_64 || typ == R_COMMON_GLOB_DAT || typ == R_COMMON_JUMP_SLOT {
        if sym.st_shndx == 0 {
            match kernel_value {
                None => Err(Errno::EINVAL),
                Some(v) => Ok(Some(wrapping_add(v as usize, addend as usize))),
            }
        } else {
            Ok(Some(wrapping_add(wrapping_add(load_base, sym.st_value as usize), addend as usize)))
        }
    } else if typ == R_COMMON_RELATIVE {
        Ok(Some(wrapping_add(load_base, addend as usize)))
    } else {
        Err(Errno::EINVAL)
    }
}

/// What a relocation writes, by type. The absolute, global-data and
/// jump-slot types all write the same: the symbol's address plus the
/// addend, where the symbol's address is the load base plus its value for
/// a symbol of the module and the kernel's value for one without a
/// section (which fails where the kernel has none); never nothing. A
/// relative relocation writes the load base plus the addend; the type
/// "none" writes nothing; other types fail. (Addresses wrap around; the
/// sums are given here where they fit.)
pub proof fn lemma_relocation_values(typ: u32, sym: ElfSym, load_base: usize, addend: i64, kernel_value: Option<u64>)
    ensures
        typ == R_COMMON_GLOB_DAT || typ == R_COMMON_JUMP_SLOT ==> spec_relocation(
            typ,
            sym,
            load_base,
            addend,
            kernel_value,
        ) == spec_relocation(R_COMMON_64, sym, load_base, addend, kernel_value),
        typ == R_COMMON_GLOB_DAT || typ == R_COMMON_JUMP_SLOT || typ == R_COMMON_64 ==> !(spec_relocation(
            typ,
            sym,
            load_base,
            addend,
            kernel_value,
        ) matches Ok(None)),
        typ == R_COMMON_GLOB_DAT || typ == R_COMMON_JUMP_SLOT || typ == R_COMMON_64 ==> (sym.st_shndx == 0
            && kernel_value is None <==> spec_relocation(typ, sym, load_base, addend, kernel_value) is Err),
        (typ == R_COMMON_GLOB_DAT || typ == R_COMMON_JUMP_SLOT || typ == R_COMMON_64) && sym.st_shndx == 0
            && kernel_value is Some && 0 <= addend && kernel_value->0 + addend <= usize::MAX
            ==> spec_relocation(typ, sym, load_base, addend, kernel_value) == Ok::<Option<usize>, Errno>(
            Some((kernel_value->0 + addend) as usize),
        ),
        (typ == R_COMMON_GLOB_DAT || typ == R_COMMON_JUMP_SLOT || typ == R_COMMON_64) && sym.st_shndx != 0
            && 0 <= addend && load_base + sym.st_value + addend <= usize::MAX ==> spec_relocation(
            typ,
            sym,
            load_base,
            addend,
            kernel_value,
        ) == Ok::<Option<usize>, Errno>(Some((load_base + sym.st_value + addend) as usize)),
        typ == R_COMMON_RELATIVE && 0 <= addend && load_base + addend <= usize::MAX ==> spec_relocation(
            typ,
            sym,
            load_base,
            addend,
            kernel_value,
        ) == Ok::<Option<usize>, Errno>(Some((load_base + addend) as usize)),
        typ == R_COMMON_NONE ==> spec_relocation(typ, sym, load_base, addend, kernel_value) == Ok::<
            Option<usize>,
            Errno,
        >(None),
        typ != R_COMMON_NONE && typ != R_COMMON_64 && typ != R_COMMON_GLOB_DAT && typ != R_COMMON_JUMP_SLOT
            && typ != R_COMMON_RELATIVE ==> spec_relocation(typ, sym, load_base, addend, kernel_value) == Err::<
            Option<usize>,
            Errno,
        >(Errno::EINVAL),
{
}

/// The value a relocation of type `typ` writes: see `spec_relocation`.
pub fn relocation_value(
    typ: u32,
    sym: &ElfSym,
    load_base: usize,
    addend: i64,
    kernel_value: Option<u64>,
) -> (r: EResult<Option<usize>>)
    ensures
        r == spec_relocation(typ, *sym, load_base, addend, kernel_value),
{
    if typ == R_COMMON_NONE {
        Ok(None)
    } else if typ == R_COMMON_64 || typ == R_COMMON_GLOB_DAT || typ == R_COMMON_JUMP_SLOT {
        let resolved = if sym.st_shndx == 0 {
            match kernel_value {
                None => return Err(Errno::EINVAL),
                Some(v) => v as usize,
            }
        } else {
            load_base.wrapping_add(sym.st_value as usize)
        };
        Ok(Some(resolved.wrapping_add(addend as usize)))
    } else if typ == R_COMMON_RELATIVE {
        Ok(Some(load_base.wrapping_add(addend as usize)))
    } else {
        Err(Errno::EINVAL)
    }
}


/// The mappings of the loadable segments, in the order of the headers.
pub open spec fn load_plans(phdrs: Seq<ElfPhdr>, base: usize, page_size: usize) -> Seq<SegmentPlan>
    decreases phdrs.len(),
{
    if phdrs.len() == 0 {
        Seq::empty()
    } else {
        let rest = load_plans(phdrs.drop_last(), base, page_size);
        if phdrs.last().p_type == PT_LOAD {
            rest.push(spec_plan_segment(phdrs.last(), base, page_size))
        } else {
            rest
        }
    }
}

/// The address of the program headers: that of the last `PT_PHDR`, or 0.
pub open spec fn last_phdr_addr(phdrs: Seq<ElfPhdr>) -> u64
    decreases phdrs.len(),
{
    if phdrs.len() == 0 {
        0
    } else if phdrs.last().p_type == PT_PHDR {
        phdrs.last().p_vaddr
    } else {
        last_phdr_addr(phdrs.drop_last())
    }
}

/// Where the interpreter's path is read from: the file offset and length
/// (without the trailing NUL) of the last `PT_INTERP`.
pub open spec fn last_interp(phdrs: Seq<ElfPhdr>) -> Option<(u64, u64)>
    decreases phdrs.len(),
{
    if phdrs.len() == 0 {
        None
    } else if phdrs.last().p_type == PT_INTERP {
        Some((phdrs.last().p_offset, (phdrs.last().p_filesz - 1) as u64))
    } else {
        last_interp(phdrs.drop_last())
    }
}

/// What loading an executable image does: the segments to map, the
/// interpreter to open, and the auxiliary values.
pub struct ImagePlan {
    pub segments: Vec<SegmentPlan>,
    pub interp: Option<(u64, u64)>,
    pub info: ElfInfo,
}

/// The header and program headers can be loaded at `base` without
/// overflow, and every interpreter path has its NUL.
pub open spec fn image_loadable(hdr: ElfHdr, phdrs: Seq<ElfPhdr>, base: usize, page_size: usize) -> bool {
    let lb = if hdr.e_type == ET_DYN { base } else { 0usize };
    &&& forall|i: int| 0 <= i < phdrs.len() && (#[trigger] phdrs[i]).p_type == PT_LOAD ==> segment_plannable(phdrs[i], lb, page_size)
    &&& forall|i: int| 0 <= i < phdrs.len() && (#[trigger] phdrs[i]).p_type == PT_INTERP ==> phdrs[i].p_filesz >= 1
    &&& forall|i: int| 0 <= i < phdrs.len() && (#[trigger] phdrs[i]).p_type == PT_PHDR ==> phdrs[i].p_vaddr + lb <= usize::MAX
    &&& hdr.e_entry + lb <= usize::MAX
}

/// Plans loading an executable image with header `hdr` and program headers
/// `phdrs` (read from the file in order) for a machine of type `machine`,
/// placing a relocatable image at `base`.
pub fn plan_image(hdr: &ElfHdr, phdrs: &Vec<ElfPhdr>, base: usize, page_size: usize, machine: u16) -> (r: EResult<ImagePlan>)
    requires
        is_pow2(page_size),
        image_loadable(*hdr, phdrs@, base, page_size),
    ensures
        ({
            let lb = if hdr.e_type == ET_DYN { base } else { 0usize };
            match r {
                Err(e) => e == Errno::ENOEXEC && (hdr.e_ident@[EI_VERSION as int] != EV_CURRENT || hdr.e_machine != machine),
                Ok(plan) => {
                    &&& hdr.e_ident@[EI_VERSION as int] == EV_CURRENT && hdr.e_machine == machine
                    &&& plan.segments@ == load_plans(phdrs@, lb, page_size)
                    &&& plan.interp == last_interp(phdrs@)
                    &&& plan.info.at_phdr == last_phdr_addr(phdrs@) + lb
                    &&& plan.info.at_phnum == hdr.e_phnum
                    &&& plan.info.at_phent == hdr.e_phentsize
                    &&& plan.info.at_entry == hdr.e_entry + lb
                },
            }
        }),
{
    check_exec_header(hdr, machine)?;
    let lb = load_base(hdr, base);
    let mut segments: Vec<SegmentPlan> = Vec::new();
    let mut interp: Option<(u64, u64)> = None;
    let mut phdr_addr: u64 = 0;
    let mut i: usize = 0;
    assert(phdrs@.take(0) =~= Seq::<ElfPhdr>::empty());
    while i < phdrs.len()
        invariant
            i <= phdrs@.len(),
            is_pow2(page_size),
            lb == (if hdr.e_type == ET_DYN { base } else { 0usize }),
            image_loadable(*hdr, phdrs@, base, page_size),
            segments@ == load_plans(phdrs@.take(i as int), lb, page_size),
            interp == last_interp(phdrs@.take(i as int)),
            phdr_addr == last_phdr_addr(phdrs@.take(i as int)),
            phdr_addr == 0 || exists|k: int| 0 <= k < phdrs@.len() && phdrs@[k].p_type == PT_PHDR && phdrs@[k].p_vaddr == phdr_addr,
        decreases phdrs.len() - i,
    {
        let p = phdrs[i];
        assert(phdrs@.take(i + 1).drop_last() =~= phdrs@.take(i as int));
        assert(phdrs@.take(i + 1).last() == p);
        if p.p_type == PT_LOAD {
            assert(segment_plannable(phdrs@[i as int], lb, page_size));
            let plan = plan_segment(&p, lb, page_size);
            segments.push(plan);
        } else if p.p_type == PT_PHDR {
            phdr_addr = p.p_vaddr;
        } else if p.p_type == PT_INTERP {
            assert(phdrs@[i as int].p_filesz >= 1);
            interp = Some((p.p_offset, p.p_filesz - 1));
        }
        i = i + 1;
    }
    assert(phdrs@.take(phdrs@.len() as int) =~= phdrs@);
    proof {
        if phdr_addr != 0 {
            let k = choose|k: int| 0 <= k < phdrs@.len() && phdrs@[k].p_type == PT_PHDR && phdrs@[k].p_vaddr == phdr_addr;
            assert(phdrs@[k].p_vaddr + lb <= usize::MAX);
        }
    }
    let info = ElfInfo {
        at_phdr: phdr_addr as usize + lb,
        at_phnum: hdr.e_phnum as usize,
        at_phent: hdr.e_phentsize as usize,
        at_entry: hdr.e_entry as usize + lb,
    };
    Ok(ImagePlan { segments, interp, info })
}

} // verus!
