//! The plan of loading a kernel module from its ELF image: which memory
//! its segments take, what it is called and needs, and which words of it
//! are patched by its relocations. Allocating, copying and mapping the
//! memory, and calling the module's entry, follow the plan.
use vstd::prelude::*;
use crate::elf::{
    DynamicInfo, ElfDyn, ElfHdr, ElfPhdr, ElfRela, ElfSym, PT_DYNAMIC, PT_LOAD, PT_MODAUTHOR, PT_MODDESC,
    PT_MODVERSION, DT_HASH, DT_INIT_ARRAY, DT_JMPREL, DT_NEEDED, DT_PLTRELSZ, DT_RELA, DT_RELASZ, DT_SONAME,
    DT_STRSZ, DT_STRTAB, DT_SYMTAB, ELF_DYN_SIZE, ELF_PHDR_SIZE, ELF_RELA_SIZE, ELF_SYM_SIZE, dyn_all,
    dyn_at, dyn_last, dyn_len, first_cover, phdr_at, phdrs_searchable, rela_at, scan_dynamic, sym_at,
};
use crate::errno::{Errno, EResult};
use crate::module::{ModuleSegment, module_segment, module_segment_ok, module_segment_size, module_text, is_utf8};
use crate::util::{align_up, is_pow2, mask_down, round_up};

verus! {

/// What the dynamic tables of a module say.
pub struct DynV {
    pub strtab: Option<u64>,
    pub strsz: Option<u64>,
    pub symtab: Option<u64>,
    pub rela: Option<u64>,
    pub relasz: Option<u64>,
    pub pltrelsz: Option<u64>,
    pub jmprel: Option<u64>,
    pub init_array: Option<u64>,
    pub hash: Option<u64>,
    pub soname: Option<u64>,
    pub needed: Seq<u64>,
}

pub open spec fn dyn_view(d: DynamicInfo) -> DynV {
    DynV {
        strtab: d.strtab,
        strsz: d.strsz,
        symtab: d.symtab,
        rela: d.rela,
        relasz: d.relasz,
        pltrelsz: d.pltrelsz,
        jmprel: d.jmprel,
        init_array: d.init_array,
        hash: d.hash,
        soname: d.soname,
        needed: d.needed@,
    }
}

/// Nothing read yet.
pub open spec fn dyn_empty() -> DynV {
    DynV {
        strtab: None,
        strsz: None,
        symtab: None,
        rela: None,
        relasz: None,
        pltrelsz: None,
        jmprel: None,
        init_array: None,
        hash: None,
        soname: None,
        needed: Seq::empty(),
    }
}

/// What one dynamic table says, up to its `DT_NULL` entry.
pub open spec fn table_dyn(entries: Seq<ElfDyn>) -> DynV {
    let n = dyn_len(entries, entries.len() as int);
    DynV {
        strtab: dyn_last(entries, n, DT_STRTAB),
        strsz: dyn_last(entries, n, DT_STRSZ),
        symtab: dyn_last(entries, n, DT_SYMTAB),
        rela: dyn_last(entries, n, DT_RELA),
        relasz: dyn_last(entries, n, DT_RELASZ),
        pltrelsz: dyn_last(entries, n, DT_PLTRELSZ),
        jmprel: dyn_last(entries, n, DT_JMPREL),
        init_array: dyn_last(entries, n, DT_INIT_ARRAY),
        hash: dyn_last(entries, n, DT_HASH),
        soname: dyn_last(entries, n, DT_SONAME),
        needed: dyn_all(entries, n, DT_NEEDED),
    }
}

pub open spec fn later(a: Option<u64>, b: Option<u64>) -> Option<u64> {
    if b is Some {
        b
    } else {
        a
    }
}

/// Reading a further table: its values replace those read before, its
/// needed modules are added to them.
pub open spec fn dyn_merge(a: DynV, b: DynV) -> DynV {
    DynV {
        strtab: later(a.strtab, b.strtab),
        strsz: later(a.strsz, b.strsz),
        symtab: later(a.symtab, b.symtab),
        rela: later(a.rela, b.rela),
        relasz: later(a.relasz, b.relasz),
        pltrelsz: later(a.pltrelsz, b.pltrelsz),
        jmprel: later(a.jmprel, b.jmprel),
        init_array: later(a.init_array, b.init_array),
        hash: later(a.hash, b.hash),
        soname: later(a.soname, b.soname),
        needed: a.needed + b.needed,
    }
}

/// `count` consecutive entries of `size` bytes from `start`.
pub open spec fn dyn_table(s: Seq<u8>, start: int, count: int) -> Seq<ElfDyn> {
    Seq::new(count as nat, |i: int| dyn_at(s, start + ELF_DYN_SIZE * i))
}

pub open spec fn sym_table(s: Seq<u8>, start: int, count: int) -> Seq<ElfSym> {
    Seq::new(count as nat, |i: int| sym_at(s, start + ELF_SYM_SIZE * i))
}

pub open spec fn rela_table(s: Seq<u8>, start: int, count: int) -> Seq<ElfRela> {
    Seq::new(count as nat, |i: int| rela_at(s, start + ELF_RELA_SIZE * i))
}

pub open spec fn phdr_table(s: Seq<u8>, start: int, count: int) -> Seq<ElfPhdr> {
    Seq::new(count as nat, |i: int| phdr_at(s, start + ELF_PHDR_SIZE * i))
}

/// The segment plan `module_segment` makes.
pub open spec fn spec_module_segment(p: ElfPhdr, load_base: usize, page_size: usize) -> ModuleSegment {
    ModuleSegment {
        virt: (load_base + mask_down(p.p_vaddr as usize, page_size)) as usize,
        size: module_segment_size(p, page_size) as usize,
        copy_to: (load_base + p.p_vaddr) as usize,
        file_offset: p.p_offset,
        file_size: p.p_filesz,
        zero_size: (p.p_memsz - p.p_filesz) as u64,
        prot: crate::elf::spec_segment_prot(p.p_flags),
    }
}

/// What the program headers said so far: where the module is loaded
/// (0 before its first loadable segment), its segments, where the next
/// kernel mapping goes, its texts and its dynamic values.
pub struct ScanV {
    pub load_base: usize,
    pub segments: Seq<ModuleSegment>,
    pub mmap: usize,
    pub version: Seq<u8>,
    pub author: Seq<u8>,
    pub description: Seq<u8>,
    pub dynamic: DynV,
}

/// The bytes of a segment in the file.
pub open spec fn segment_bytes(data: Seq<u8>, p: ElfPhdr) -> Seq<u8> {
    data.subrange(p.p_offset as int, p.p_offset + p.p_filesz)
}

/// Taking one program header into account. A loadable segment is placed
/// after the load base, which is where the next kernel mapping goes at the
/// first one; every page it takes moves the next mapping on. A dynamic
/// segment must hold whole entries. A text must be UTF-8.
pub open spec fn scan_step(data: Seq<u8>, p: ElfPhdr, s: ScanV, page_size: usize) -> EResult<ScanV> {
    if p.p_type == PT_LOAD {
        let base = if s.load_base == 0 { s.mmap } else { s.load_base };
        let seg = spec_module_segment(p, base, page_size);
        Ok(
            ScanV {
                load_base: base,
                segments: s.segments.push(seg),
                mmap: (s.mmap + round_up(seg.size as int, page_size as int)) as usize,
                ..s
            },
        )
    } else if p.p_type == PT_DYNAMIC {
        if p.p_filesz % (ELF_DYN_SIZE as u64) != 0 {
            Err(Errno::EINVAL)
        } else {
            let t = dyn_table(data, p.p_offset as int, (p.p_filesz / (ELF_DYN_SIZE as u64)) as int);
            Ok(ScanV { dynamic: dyn_merge(s.dynamic, table_dyn(t)), ..s })
        }
    } else if p.p_type == PT_MODVERSION || p.p_type == PT_MODAUTHOR || p.p_type == PT_MODDESC {
        let b = segment_bytes(data, p);
        if !is_utf8(b) {
            Err(Errno::EBADMSG)
        } else if p.p_type == PT_MODVERSION {
            Ok(ScanV { version: b, ..s })
        } else if p.p_type == PT_MODAUTHOR {
            Ok(ScanV { author: b, ..s })
        } else {
            Ok(ScanV { description: b, ..s })
        }
    } else {
        Ok(s)
    }
}

/// The header can be taken into account without a fault: a segment lies
/// within the file and its pages fit in the address space.
pub open spec fn scan_step_ok(data: Seq<u8>, p: ElfPhdr, s: ScanV, page_size: usize) -> bool {
    if p.p_type == PT_LOAD {
        let base = if s.load_base == 0 { s.mmap } else { s.load_base };
        &&& module_segment_ok(p, base, page_size)
        &&& p.p_offset + p.p_filesz <= data.len()
        &&& module_segment_size(p, page_size) + page_size <= usize::MAX
        &&& s.mmap + round_up(module_segment_size(p, page_size), page_size as int) <= usize::MAX
    } else if p.p_type == PT_DYNAMIC || p.p_type == PT_MODVERSION || p.p_type == PT_MODAUTHOR || p.p_type
        == PT_MODDESC {
        p.p_offset + p.p_filesz <= data.len()
    } else {
        true
    }
}

pub open spec fn scan_start(mmap_base: usize) -> ScanV {
    ScanV {
        load_base: 0,
        segments: Seq::empty(),
        mmap: mmap_base,
        version: Seq::empty(),
        author: Seq::empty(),
        description: Seq::empty(),
        dynamic: dyn_empty(),
    }
}

/// The program headers taken into account in order, up to the first
/// failure.
pub open spec fn spec_scan(data: Seq<u8>, phdrs: Seq<ElfPhdr>, mmap_base: usize, page_size: usize) -> EResult<ScanV>
    decreases phdrs.len(),
{
    if phdrs.len() == 0 {
        Ok(scan_start(mmap_base))
    } else {
        match spec_scan(data, phdrs.drop_last(), mmap_base, page_size) {
            Err(e) => Err(e),
            Ok(s) => scan_step(data, phdrs.last(), s, page_size),
        }
    }
}

/// Every header that is reached can be taken into account.
pub open spec fn scan_ok(data: Seq<u8>, phdrs: Seq<ElfPhdr>, mmap_base: usize, page_size: usize) -> bool
    decreases phdrs.len(),
{
    if phdrs.len() == 0 {
        true
    } else {
        &&& scan_ok(data, phdrs.drop_last(), mmap_base, page_size)
        &&& spec_scan(data, phdrs.drop_last(), mmap_base, page_size) matches Ok(s) ==> scan_step_ok(
            data,
            phdrs.last(),
            s,
            page_size,
        )
    }
}

/// The scan as it goes: the values gathered so far.
pub struct Scan {
    pub load_base: usize,
    pub segments: Vec<ModuleSegment>,
    pub mmap: usize,
    pub version: Vec<u8>,
    pub author: Vec<u8>,
    pub description: Vec<u8>,
    pub dynamic: DynamicInfo,
}

pub open spec fn scan_view(s: Scan) -> ScanV {
    ScanV {
        load_base: s.load_base,
        segments: s.segments@,
        mmap: s.mmap,
        version: s.version@,
        author: s.author@,
        description: s.description@,
        dynamic: dyn_view(s.dynamic),
    }
}

fn later_of(a: Option<u64>, b: Option<u64>) -> (r: Option<u64>)
    ensures
        r == later(a, b),
{
    if b.is_some() {
        b
    } else {
        a
    }
}

/// Adds what a further dynamic table says.
fn merge_dynamic(a: DynamicInfo, b: DynamicInfo) -> (r: DynamicInfo)
    ensures
        dyn_view(r) == dyn_merge(dyn_view(a), dyn_view(b)),
{
    let mut needed = a.needed;
    let mut i: usize = 0;
    let ghost n0 = needed@;
    while i < b.needed.len()
        invariant
            i <= b.needed@.len(),
            needed@ == n0 + b.needed@.take(i as int),
        decreases b.needed.len() - i,
    {
        needed.push(b.needed[i]);
        i = i + 1;
        assert(n0 + b.needed@.take(i as int) =~= (n0 + b.needed@.take(i - 1)).push(b.needed@[i - 1]));
    }
    assert(b.needed@.take(b.needed@.len() as int) =~= b.needed@);
    DynamicInfo {
        strtab: later_of(a.strtab, b.strtab),
        strsz: later_of(a.strsz, b.strsz),
        symtab: later_of(a.symtab, b.symtab),
        rela: later_of(a.rela, b.rela),
        relasz: later_of(a.relasz, b.relasz),
        pltrelsz: later_of(a.pltrelsz, b.pltrelsz),
        jmprel: later_of(a.jmprel, b.jmprel),
        init_array: later_of(a.init_array, b.init_array),
        hash: later_of(a.hash, b.hash),
        soname: later_of(a.soname, b.soname),
        needed,
    }
}

/// Reads `count` dynamic entries from `start`.
fn read_dyns(data: &[u8], start: usize, count: usize) -> (r: Vec<ElfDyn>)
    requires
        start + ELF_DYN_SIZE * count <= data@.len(),
    ensures
        r@ == dyn_table(data@, start as int, count as int),
{
    let total = data.len();
    let mut v: Vec<ElfDyn> = Vec::new();
    let mut i: usize = 0;
    while i < count
        invariant
            i <= count,
            total == data@.len(),
            start + ELF_DYN_SIZE * count <= data@.len(),
            v@ == dyn_table(data@, start as int, i as int),
        decreases count - i,
    {
        assert(start + ELF_DYN_SIZE * i + ELF_DYN_SIZE <= start + ELF_DYN_SIZE * count) by (nonlinear_arith)
            requires
                i < count,
        ;
        let e = ElfDyn::parse(data, start + ELF_DYN_SIZE * i);
        v.push(e);
        i = i + 1;
        assert(v@ =~= dyn_table(data@, start as int, i as int));
    }
    v
}

/// Takes the program headers of a module into account, in order, up to
/// the first failure.
pub fn scan_module(data: &[u8], phdrs: &Vec<ElfPhdr>, mmap_base: usize, page_size: usize) -> (r: EResult<Scan>)
    requires
        is_pow2(page_size),
        scan_ok(data@, phdrs@, mmap_base, page_size),
    ensures
        match (r, spec_scan(data@, phdrs@, mmap_base, page_size)) {
            (Ok(s), Ok(t)) => scan_view(s) == t,
            (Err(a), Err(b)) => a == b,
            _ => false,
        },
{
    proof { crate::util::lemma_pow2_positive(page_size); }
    let mut s = Scan {
        load_base: 0,
        segments: Vec::new(),
        mmap: mmap_base,
        version: Vec::new(),
        author: Vec::new(),
        description: Vec::new(),
        dynamic: DynamicInfo {
            strtab: None,
            strsz: None,
            symtab: None,
            rela: None,
            relasz: None,
            pltrelsz: None,
            jmprel: None,
            init_array: None,
            hash: None,
            soname: None,
            needed: Vec::new(),
        },
    };
    assert(scan_view(s) =~~= scan_start(mmap_base));
    let mut i: usize = 0;
    assert(phdrs@.take(0) =~= Seq::<ElfPhdr>::empty());
    while i < phdrs.len()
        invariant
            is_pow2(page_size),
            page_size >= 1,
            i <= phdrs@.len(),
            scan_ok(data@, phdrs@, mmap_base, page_size),
            spec_scan(data@, phdrs@.take(i as int), mmap_base, page_size) == Ok::<ScanV, Errno>(scan_view(s)),
        decreases phdrs.len() - i,
    {
        let p = phdrs[i];
        let ghost pre = phdrs@.take(i as int);
        let ghost cur = phdrs@.take(i + 1);
        let ghost old_s = scan_view(s);
        let total = data.len();
        proof {
            assert(cur.drop_last() =~= pre);
            assert(cur.last() == p);
            lemma_scan_ok_prefix(data@, phdrs@, mmap_base, page_size, i + 1);
            assert(spec_scan(data@, cur, mmap_base, page_size) == scan_step(data@, p, old_s, page_size));
            lemma_scan_err_prefix(data@, phdrs@, mmap_base, page_size, i + 1);
        }
        if p.p_type == PT_LOAD {
            let base = if s.load_base == 0 { s.mmap } else { s.load_base };
            let seg = module_segment(&p, base, page_size);
            let pages = align_up(seg.size, page_size);
            s.load_base = base;
            s.segments.push(seg);
            s.mmap = s.mmap + pages;
            assert(seg == spec_module_segment(p, base, page_size));
        } else if p.p_type == PT_DYNAMIC {
            if p.p_filesz % (ELF_DYN_SIZE as u64) != 0 {
                return Err(Errno::EINVAL);
            }
            let count = (p.p_filesz / (ELF_DYN_SIZE as u64)) as usize;
            assert(p.p_offset + ELF_DYN_SIZE * count <= data@.len()) by (nonlinear_arith)
                requires
                    p.p_offset + p.p_filesz <= data@.len(),
                    count == p.p_filesz / 16,
                    ELF_DYN_SIZE == 16,
            ;
            let table = read_dyns(data, p.p_offset as usize, count);
            let d = scan_dynamic(&table);
            let prev = s.dynamic;
            s.dynamic = merge_dynamic(prev, d);
        } else if p.p_type == PT_MODVERSION || p.p_type == PT_MODAUTHOR || p.p_type == PT_MODDESC {
            let text = module_text(data, &p)?;
            if p.p_type == PT_MODVERSION {
                s.version = text;
            } else if p.p_type == PT_MODAUTHOR {
                s.author = text;
            } else {
                s.description = text;
            }
        }
        i = i + 1;
        proof {
            let t = scan_step(data@, p, old_s, page_size)->Ok_0;
            assert(scan_view(s).segments =~= t.segments);
            assert(scan_view(s).dynamic =~= t.dynamic);
            assert(scan_view(s) =~= t);
        }
    }
    assert(phdrs@.take(phdrs@.len() as int) =~= phdrs@);
    Ok(s)
}

/// A failure among the first headers is the failure of all.
proof fn lemma_scan_err_prefix(data: Seq<u8>, phdrs: Seq<ElfPhdr>, mmap_base: usize, page_size: usize, n: int)
    requires
        0 <= n <= phdrs.len(),
    ensures
        spec_scan(data, phdrs.take(n), mmap_base, page_size) is Err ==> spec_scan(data, phdrs, mmap_base, page_size)
            == spec_scan(data, phdrs.take(n), mmap_base, page_size),
    decreases phdrs.len() - n,
{
    if n < phdrs.len() {
        lemma_scan_err_prefix(data, phdrs, mmap_base, page_size, n + 1);
        assert(phdrs.take(n + 1).drop_last() =~= phdrs.take(n));
    } else {
        assert(phdrs.take(n) =~= phdrs);
    }
}

/// A prefix of headers that can all be taken into account.
proof fn lemma_scan_ok_prefix(data: Seq<u8>, phdrs: Seq<ElfPhdr>, mmap_base: usize, page_size: usize, n: int)
    requires
        scan_ok(data, phdrs, mmap_base, page_size),
        0 <= n <= phdrs.len(),
    ensures
        scan_ok(data, phdrs.take(n), mmap_base, page_size),
    decreases phdrs.len() - n,
{
    if n < phdrs.len() {
        lemma_scan_ok_prefix(data, phdrs, mmap_base, page_size, n + 1);
        assert(phdrs.take(n + 1).drop_last() =~= phdrs.take(n));
    } else {
        assert(phdrs.take(n) =~= phdrs);
    }
}

} // verus!

verus! {

/// The header of a module, read from its first bytes: ELF magic, current
/// version, the machine, 64-bit class and little-endian data.
pub open spec fn module_bytes_ok(data: Seq<u8>, machine: u16) -> bool {
    &&& crate::elf::has_elf_magic(data)
    &&& data[crate::elf::EI_VERSION as int] == crate::elf::EV_CURRENT
    &&& crate::elf::hdr_at(data, 0).e_machine == machine
    &&& data[crate::elf::EI_CLASS as int] == crate::elf::ELFCLASS64
    &&& data[crate::elf::EI_DATA as int] == crate::elf::ELFDATA2LSB
}

/// The program headers of a module.
pub open spec fn module_phdrs(data: Seq<u8>) -> Seq<ElfPhdr> {
    let h = crate::elf::hdr_at(data, 0);
    phdr_table(data, h.e_phoff as int, h.e_phnum as int)
}

/// An address of the module turned into a file offset, as `fix_addr` does.
pub open spec fn fixed(phdrs: Seq<ElfPhdr>, addr: Option<u64>) -> Option<u64> {
    match addr {
        None => None,
        Some(x) => match first_cover(phdrs, phdrs.len() as int, x) {
            None => Some(x),
            Some(i) => Some((x - phdrs[i].p_vaddr + phdrs[i].p_offset) as u64),
        },
    }
}

/// Turning the address into an offset stays in range.
pub open spec fn fix_ok(phdrs: Seq<ElfPhdr>, addr: Option<u64>) -> bool {
    addr matches Some(x) ==> (first_cover(phdrs, phdrs.len() as int, x) matches Some(i) ==> x - phdrs[i].p_vaddr
        + phdrs[i].p_offset <= u64::MAX)
}

/// The string table of a module.
pub open spec fn strtab_of(data: Seq<u8>, phdrs: Seq<ElfPhdr>, d: DynV) -> Seq<u8> {
    let o = fixed(phdrs, d.strtab)->0;
    data.subrange(o as int, o + d.strsz->0)
}

/// The symbol table of a module: as many symbols as its hash table has
/// chains.
pub open spec fn symtab_of(data: Seq<u8>, phdrs: Seq<ElfPhdr>, d: DynV) -> Seq<ElfSym> {
    let h = fixed(phdrs, d.hash)->0;
    sym_table(data, fixed(phdrs, d.symtab)->0 as int, crate::elf::nchain_at(data, h as int) as int)
}

/// A relocation table of a module: none without its address; `EINVAL`
/// without its size or for a size that is no whole number of entries.
pub open spec fn spec_reloc_table(data: Seq<u8>, phdrs: Seq<ElfPhdr>, addr: Option<u64>, size: Option<u64>) -> EResult<
    Option<Seq<ElfRela>>,
> {
    match fixed(phdrs, addr) {
        None => Ok(None),
        Some(a) => match size {
            None => Err(Errno::EINVAL),
            Some(z) => if z % (ELF_RELA_SIZE as u64) != 0 {
                Err(Errno::EINVAL)
            } else {
                Ok(Some(rela_table(data, a as int, (z / (ELF_RELA_SIZE as u64)) as int)))
            },
        },
    }
}

/// The words a relocation table patches, and whether it failed.
pub open spec fn table_writes(
    t: Option<Seq<ElfRela>>,
    syms: Seq<ElfSym>,
    strtab: Seq<u8>,
    load_base: usize,
    kernel: Seq<(Seq<u8>, ElfSym)>,
) -> (Seq<crate::module::RelocWrite>, EResult<()>) {
    match t {
        None => (Seq::empty(), Ok(())),
        Some(rs) => crate::module::reloc_writes(rs, syms, strtab, load_base, kernel),
    }
}

/// The plan as the contracts see it.
pub struct PlanV {
    pub name: Seq<u8>,
    pub version: Seq<u8>,
    pub author: Seq<u8>,
    pub description: Seq<u8>,
    pub load_base: usize,
    pub segments: Seq<ModuleSegment>,
    pub mmap_end: usize,
    pub writes: Seq<crate::module::RelocWrite>,
    pub entry: usize,
}

/// What follows the program headers: the module's name, the check that
/// the modules it needs are loaded, then its relocation tables in turn.
pub open spec fn spec_finish(
    data: Seq<u8>,
    phdrs: Seq<ElfPhdr>,
    e_entry: u64,
    s: ScanV,
    loaded: Seq<Seq<u8>>,
    kernel: Seq<(Seq<u8>, ElfSym)>,
) -> EResult<PlanV> {
    let d = s.dynamic;
    let strtab = strtab_of(data, phdrs, d);
    let syms = symtab_of(data, phdrs, d);
    let name = crate::module::spec_c_str_at(strtab, d.soname->0 as int)->0;
    if !crate::module::all_loaded(crate::module::needed_names(d.needed, strtab), loaded) {
        Err(Errno::ENOENT)
    } else {
        match spec_reloc_table(data, phdrs, d.rela, d.relasz) {
            Err(e) => Err(e),
            Ok(t1) => {
                let (w1, r1) = table_writes(t1, syms, strtab, s.load_base, kernel);
                match r1 {
                    Err(e) => Err(e),
                    Ok(_) => match spec_reloc_table(data, phdrs, d.jmprel, d.pltrelsz) {
                        Err(e) => Err(e),
                        Ok(t2) => {
                            let (w2, r2) = table_writes(t2, syms, strtab, s.load_base, kernel);
                            match r2 {
                                Err(e) => Err(e),
                                Ok(_) => Ok(
                                    PlanV {
                                        name,
                                        version: s.version,
                                        author: s.author,
                                        description: s.description,
                                        load_base: s.load_base,
                                        segments: s.segments,
                                        mmap_end: s.mmap,
                                        writes: w1 + w2,
                                        entry: (s.load_base + e_entry) as usize,
                                    },
                                ),
                            }
                        },
                    },
                }
            },
        }
    }
}

/// Loading a module: its header is checked, its program headers are
/// taken into account, and the rest follows.
pub open spec fn spec_plan_module(
    data: Seq<u8>,
    mmap_base: usize,
    page_size: usize,
    machine: u16,
    loaded: Seq<Seq<u8>>,
    kernel: Seq<(Seq<u8>, ElfSym)>,
) -> EResult<PlanV> {
    if !module_bytes_ok(data, machine) {
        Err(Errno::ENOEXEC)
    } else {
        let phdrs = module_phdrs(data);
        match spec_scan(data, phdrs, mmap_base, page_size) {
            Err(e) => Err(e),
            Ok(s) => spec_finish(data, phdrs, crate::elf::hdr_at(data, 0).e_entry, s, loaded, kernel),
        }
    }
}

/// A relocation table lies within the file.
pub open spec fn reloc_table_ok(data: Seq<u8>, phdrs: Seq<ElfPhdr>, addr: Option<u64>, size: Option<u64>) -> bool {
    &&& fix_ok(phdrs, addr)
    &&& fixed(phdrs, addr) matches Some(a) ==> (size matches Some(z) ==> a + z <= data.len())
}

/// Every step after the program headers that is reached can be taken
/// without a fault: the tables the module names exist and lie within it,
/// its names are terminated, and the arithmetic of its relocations and of
/// its entry stays in range.
pub open spec fn finish_ok(
    data: Seq<u8>,
    phdrs: Seq<ElfPhdr>,
    e_entry: u64,
    s: ScanV,
    loaded: Seq<Seq<u8>>,
    kernel: Seq<(Seq<u8>, ElfSym)>,
) -> bool {
    let d = s.dynamic;
    let strtab = strtab_of(data, phdrs, d);
    let syms = symtab_of(data, phdrs, d);
    let deps_ok = crate::module::all_loaded(crate::module::needed_names(d.needed, strtab), loaded);
    let t1 = spec_reloc_table(data, phdrs, d.rela, d.relasz);
    let w1_ok = t1 matches Ok(t) && table_writes(t, syms, strtab, s.load_base, kernel).1 is Ok;
    let t2 = spec_reloc_table(data, phdrs, d.jmprel, d.pltrelsz);
    let w2_ok = t2 matches Ok(t) && table_writes(t, syms, strtab, s.load_base, kernel).1 is Ok;
    &&& d.strtab is Some && d.strsz is Some && d.hash is Some && d.symtab is Some && d.soname is Some
    &&& fix_ok(phdrs, d.strtab) && fix_ok(phdrs, d.hash) && fix_ok(phdrs, d.symtab)
    &&& fixed(phdrs, d.strtab)->0 + d.strsz->0 <= data.len()
    &&& fixed(phdrs, d.hash)->0 + 8 <= data.len()
    &&& fixed(phdrs, d.symtab)->0 + ELF_SYM_SIZE * crate::elf::nchain_at(data, fixed(phdrs, d.hash)->0 as int)
        <= data.len()
    &&& d.soname->0 <= strtab.len()
    &&& crate::module::spec_c_str_at(strtab, d.soname->0 as int) is Some
    &&& forall|i: int|
        0 <= i < d.needed.len() ==> (#[trigger] d.needed[i]) <= strtab.len() && crate::module::spec_c_str_at(
            strtab,
            d.needed[i] as int,
        ) is Some
    &&& deps_ok ==> reloc_table_ok(data, phdrs, d.rela, d.relasz)
    &&& deps_ok ==> (t1 matches Ok(Some(t)) ==> crate::module::relocations_fit(t, syms, s.load_base, kernel, strtab))
    &&& deps_ok && w1_ok ==> reloc_table_ok(data, phdrs, d.jmprel, d.pltrelsz)
    &&& deps_ok && w1_ok ==> (t2 matches Ok(Some(t)) ==> crate::module::relocations_fit(
        t,
        syms,
        s.load_base,
        kernel,
        strtab,
    ))
    &&& deps_ok && w1_ok && w2_ok ==> s.load_base + e_entry <= usize::MAX
}

/// Planning the load of `data` goes without a fault.
pub open spec fn plan_ok(
    data: Seq<u8>,
    mmap_base: usize,
    page_size: usize,
    machine: u16,
    loaded: Seq<Seq<u8>>,
    kernel: Seq<(Seq<u8>, ElfSym)>,
) -> bool {
    &&& data.len() >= crate::elf::ELF_HDR_SIZE
    &&& module_bytes_ok(data, machine) ==> {
        let h = crate::elf::hdr_at(data, 0);
        let phdrs = module_phdrs(data);
        &&& h.e_phoff + ELF_PHDR_SIZE * h.e_phnum <= data.len()
        &&& phdrs_searchable(phdrs)
        &&& scan_ok(data, phdrs, mmap_base, page_size)
        &&& spec_scan(data, phdrs, mmap_base, page_size) matches Ok(s) ==> finish_ok(
            data,
            phdrs,
            h.e_entry,
            s,
            loaded,
            kernel,
        )
    }
}

} // verus!

verus! {

/// The plan of loading a module: its name and texts, where it is loaded,
/// its segments, where the next kernel mapping goes after them, the words
/// its relocations patch, and its entry.
pub struct ModulePlan {
    pub name: Vec<u8>,
    pub version: Vec<u8>,
    pub author: Vec<u8>,
    pub description: Vec<u8>,
    pub load_base: usize,
    pub segments: Vec<ModuleSegment>,
    pub mmap_end: usize,
    pub writes: Vec<crate::module::RelocWrite>,
    pub entry: usize,
}

pub open spec fn plan_view(p: ModulePlan) -> PlanV {
    PlanV {
        name: p.name@,
        version: p.version@,
        author: p.author@,
        description: p.description@,
        load_base: p.load_base,
        segments: p.segments@,
        mmap_end: p.mmap_end,
        writes: p.writes@,
        entry: p.entry,
    }
}

fn read_phdrs(data: &[u8], start: usize, count: usize) -> (r: Vec<ElfPhdr>)
    requires
        start + ELF_PHDR_SIZE * count <= data@.len(),
    ensures
        r@ == phdr_table(data@, start as int, count as int),
{
    let total = data.len();
    let mut v: Vec<ElfPhdr> = Vec::new();
    let mut i: usize = 0;
    while i < count
        invariant
            i <= count,
            total == data@.len(),
            start + ELF_PHDR_SIZE * count <= data@.len(),
            v@ == phdr_table(data@, start as int, i as int),
        decreases count - i,
    {
        assert(start + ELF_PHDR_SIZE * i + ELF_PHDR_SIZE <= start + ELF_PHDR_SIZE * count) by (nonlinear_arith)
            requires
                i < count,
        ;
        v.push(ElfPhdr::parse(data, start + ELF_PHDR_SIZE * i));
        i = i + 1;
        assert(v@ =~= phdr_table(data@, start as int, i as int));
    }
    v
}

fn read_syms(data: &[u8], start: usize, count: usize) -> (r: Vec<ElfSym>)
    requires
        start + ELF_SYM_SIZE * count <= data@.len(),
    ensures
        r@ == sym_table(data@, start as int, count as int),
{
    let total = data.len();
    let mut v: Vec<ElfSym> = Vec::new();
    let mut i: usize = 0;
    while i < count
        invariant
            i <= count,
            total == data@.len(),
            start + ELF_SYM_SIZE * count <= data@.len(),
            v@ == sym_table(data@, start as int, i as int),
        decreases count - i,
    {
        assert(start + ELF_SYM_SIZE * i + ELF_SYM_SIZE <= start + ELF_SYM_SIZE * count) by (nonlinear_arith)
            requires
                i < count,
        ;
        v.push(ElfSym::parse(data, start + ELF_SYM_SIZE * i));
        i = i + 1;
        assert(v@ =~= sym_table(data@, start as int, i as int));
    }
    v
}

fn read_relas(data: &[u8], start: usize, count: usize) -> (r: Vec<ElfRela>)
    requires
        start + ELF_RELA_SIZE * count <= data@.len(),
    ensures
        r@ == rela_table(data@, start as int, count as int),
{
    let total = data.len();
    let mut v: Vec<ElfRela> = Vec::new();
    let mut i: usize = 0;
    while i < count
        invariant
            i <= count,
            total == data@.len(),
            start + ELF_RELA_SIZE * count <= data@.len(),
            v@ == rela_table(data@, start as int, i as int),
        decreases count - i,
    {
        assert(start + ELF_RELA_SIZE * i + ELF_RELA_SIZE <= start + ELF_RELA_SIZE * count) by (nonlinear_arith)
            requires
                i < count,
        ;
        v.push(ElfRela::parse(data, start + ELF_RELA_SIZE * i));
        i = i + 1;
        assert(v@ =~= rela_table(data@, start as int, i as int));
    }
    v
}

/// Reads a relocation table of a module.
fn reloc_table(data: &[u8], phdrs: &Vec<ElfPhdr>, addr: Option<u64>, size: Option<u64>) -> (r: EResult<Option<Vec<ElfRela>>>)
    requires
        phdrs_searchable(phdrs@),
        reloc_table_ok(data@, phdrs@, addr, size),
    ensures
        match (r, spec_reloc_table(data@, phdrs@, addr, size)) {
            (Ok(None), Ok(None)) => true,
            (Ok(Some(v)), Ok(Some(t))) => v@ == t,
            (Err(a), Err(b)) => a == b,
            _ => false,
        },
{
    let total = data.len();
    let a = match crate::elf::fix_addr(phdrs, addr) {
        None => return Ok(None),
        Some(a) => a,
    };
    let z = match size {
        None => return Err(Errno::EINVAL),
        Some(z) => z,
    };
    if z % (ELF_RELA_SIZE as u64) != 0 {
        return Err(Errno::EINVAL);
    }
    let count = (z / (ELF_RELA_SIZE as u64)) as usize;
    assert(a + ELF_RELA_SIZE * count <= data@.len()) by (nonlinear_arith)
        requires
            a + z <= data@.len(),
            count == z / 24,
            ELF_RELA_SIZE == 24,
    ;
    Ok(Some(read_relas(data, a as usize, count)))
}

/// Plans loading the module `data` while the next kernel mapping goes to
/// `mmap_base`, with pages of `page_size` bytes on a machine of type
/// `machine`, where the modules named in `loaded` are loaded and the
/// kernel has the symbols `kernel`. A bad header fails with `ENOEXEC`; the
/// program headers are taken into account in order (`EINVAL` for a
/// dynamic table of partial entries, `EBADMSG` for a text that is not
/// UTF-8); a missing dependency fails with `ENOENT`; then the relocation
/// tables are worked out in turn.
pub fn plan_module(
    data: &[u8],
    mmap_base: usize,
    page_size: usize,
    machine: u16,
    loaded: &Vec<Vec<u8>>,
    kernel: &crate::module::KernelSymbols,
) -> (r: EResult<ModulePlan>)
    requires
        is_pow2(page_size),
        plan_ok(data@, mmap_base, page_size, machine, loaded@.map_values(|v: Vec<u8>| v@), kernel.table()),
    ensures
        match (r, spec_plan_module(data@, mmap_base, page_size, machine, loaded@.map_values(|v: Vec<u8>| v@), kernel.table())) {
            (Ok(p), Ok(q)) => plan_view(p) == q,
            (Err(a), Err(b)) => a == b,
            _ => false,
        },
{
    let ghost lv = loaded@.map_values(|v: Vec<u8>| v@);
    let total = data.len();
    let hdr = ElfHdr::parse(data);
    proof {
        assert(hdr.e_ident@[0] == data@[0] && hdr.e_ident@[1] == data@[1] && hdr.e_ident@[2] == data@[2]
            && hdr.e_ident@[3] == data@[3]);
        assert(hdr.e_ident@[4] == data@[4] && hdr.e_ident@[5] == data@[5] && hdr.e_ident@[6] == data@[6]);
    }
    if crate::elf::check_module_header(&hdr, machine).is_err() {
        return Err(Errno::ENOEXEC);
    }
    let ghost h = crate::elf::hdr_at(data@, 0);
    assert(hdr.e_phoff == h.e_phoff && hdr.e_phnum == h.e_phnum && hdr.e_entry == h.e_entry);
    let phdrs = read_phdrs(data, hdr.e_phoff as usize, hdr.e_phnum as usize);
    let s = match scan_module(data, &phdrs, mmap_base, page_size) {
        Ok(s) => s,
        Err(e) => return Err(e),
    };
    let ghost sv = scan_view(s);
    let d = &s.dynamic;
    let stroff = match crate::elf::fix_addr(&phdrs, d.strtab) {
        Some(o) => o,
        None => return Err(Errno::EINVAL),
    };
    let strsz = match d.strsz {
        Some(z) => z,
        None => return Err(Errno::EINVAL),
    };
    let strtab = vstd::slice::slice_subrange(data, stroff as usize, (stroff + strsz) as usize);
    let hoff = match crate::elf::fix_addr(&phdrs, d.hash) {
        Some(o) => o,
        None => return Err(Errno::EINVAL),
    };
    let nchain = crate::elf::hash_nchain(data, hoff as usize);
    let symoff = match crate::elf::fix_addr(&phdrs, d.symtab) {
        Some(o) => o,
        None => return Err(Errno::EINVAL),
    };
    let syms = read_syms(data, symoff as usize, nchain as usize);
    let soname = match d.soname {
        Some(n) => n,
        None => return Err(Errno::EINVAL),
    };
    let name = match crate::module::c_str_at(strtab, soname as usize) {
        Some(n) => n,
        None => return Err(Errno::EINVAL),
    };
    match crate::module::module_dependencies(&d.needed, strtab, loaded) {
        Ok(_) => {},
        Err(e) => return Err(e),
    }
    let mut writes: Vec<crate::module::RelocWrite> = Vec::new();
    let t1 = reloc_table(data, &phdrs, d.rela, d.relasz)?;
    match t1 {
        Some(t) => {
            let (w, res) = crate::module::plan_relocations(&t, &syms, strtab, s.load_base, kernel);
            if let Err(e) = res {
                return Err(e);
            }
            writes = w;
        },
        None => {},
    }
    let ghost w1 = writes@;
    let t2 = reloc_table(data, &phdrs, d.jmprel, d.pltrelsz)?;
    match t2 {
        Some(t) => {
            let (mut w, res) = crate::module::plan_relocations(&t, &syms, strtab, s.load_base, kernel);
            if let Err(e) = res {
                return Err(e);
            }
            writes.append(&mut w);
        },
        None => {},
    }
    let entry = s.load_base + hdr.e_entry as usize;
    Ok(ModulePlan {
        name,
        version: s.version,
        author: s.author,
        description: s.description,
        load_base: s.load_base,
        segments: s.segments,
        mmap_end: s.mmap,
        writes,
        entry,
    })
}

} // verus!
