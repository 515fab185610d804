//! Loading kernel modules: where their segments go, their texts, the
//! modules they need, the kernel's symbols and the relocations to apply.
use vstd::prelude::*;
use crate::elf::{
    ElfPhdr, ElfRela, ElfSym, rela_symbol, rela_type, relocation_value, spec_relocation,
    spec_segment_prot, segment_prot,
};
use crate::errno::{Errno, EResult};
use crate::initramfs::{lemma_nul_end_bounds, nul_end};
use crate::util::{align_down, is_pow2, mask_down};

verus! {

/// Whether bytes are valid UTF-8.
pub uninterp spec fn is_utf8(bytes: Seq<u8>) -> bool;

/// Checks `bytes` with `core::str::from_utf8`; the result is whether it
/// accepted them, a function of the bytes alone.
#[verifier::external_body]
fn utf8_ok(bytes: &[u8]) -> (r: bool)
    ensures
        r == is_utf8(bytes@),
{
    core::str::from_utf8(bytes).is_ok()
}

/// Where a loadable segment of a module goes: `size` bytes of memory at
/// `virt` (the segment's address rounded down to a page, after the load
/// base), into which the file's bytes are copied at `copy_to` and the
/// rest of the segment is zeroed.
#[derive(Clone, Copy, Debug, PartialEq, Eq, Structural)]
pub struct ModuleSegment {
    pub virt: usize,
    pub size: usize,
    pub copy_to: usize,
    pub file_offset: u64,
    pub file_size: u64,
    pub zero_size: u64,
    pub prot: u32,
}

/// The memory a segment takes: its size in memory, grown by what the
/// size lacks to a whole page when its address is not page aligned.
pub open spec fn module_segment_size(p: ElfPhdr, page_size: usize) -> int {
    let aligned = mask_down(p.p_vaddr as usize, page_size);
    if aligned < p.p_vaddr {
        p.p_memsz + (page_size - (p.p_memsz as int) % (page_size as int))
    } else {
        p.p_memsz as int
    }
}

pub open spec fn module_segment_ok(p: ElfPhdr, load_base: usize, page_size: usize) -> bool {
    &&& p.p_vaddr <= usize::MAX
    &&& load_base + p.p_vaddr <= usize::MAX
    &&& p.p_memsz + page_size <= usize::MAX
    &&& p.p_filesz <= p.p_memsz
}

/// Plans a loadable segment of a module loaded at `load_base`.
pub fn module_segment(p: &ElfPhdr, load_base: usize, page_size: usize) -> (r: ModuleSegment)
    requires
        is_pow2(page_size),
        module_segment_ok(*p, load_base, page_size),
    ensures
        r.virt == load_base + mask_down(p.p_vaddr as usize, page_size),
        r.size == module_segment_size(*p, page_size),
        r.copy_to == load_base + p.p_vaddr,
        r.file_offset == p.p_offset,
        r.file_size == p.p_filesz,
        r.zero_size == p.p_memsz - p.p_filesz,
        r.prot == spec_segment_prot(p.p_flags),
{
    proof { crate::util::lemma_pow2_positive(page_size); }
    let vaddr = p.p_vaddr as usize;
    let aligned = align_down(vaddr, page_size);
    let memsz = p.p_memsz as usize;
    let size = if aligned < vaddr {
        memsz + (page_size - memsz % page_size)
    } else {
        memsz
    };
    ModuleSegment {
        virt: load_base + aligned,
        size,
        copy_to: load_base + vaddr,
        file_offset: p.p_offset,
        file_size: p.p_filesz,
        zero_size: p.p_memsz - p.p_filesz,
        prot: segment_prot(p.p_flags),
    }
}

/// A text of a module (its version, author or description): the bytes of
/// the segment, which must be UTF-8, or else `EBADMSG`.
pub fn module_text(data: &[u8], p: &ElfPhdr) -> (r: EResult<Vec<u8>>)
    requires
        p.p_offset + p.p_filesz <= data@.len(),
    ensures
        ({
            let bytes = data@.subrange(p.p_offset as int, p.p_offset + p.p_filesz);
            &&& is_utf8(bytes) ==> r is Ok && r->Ok_0@ == bytes
            &&& !is_utf8(bytes) ==> r == Err::<Vec<u8>, Errno>(Errno::EBADMSG)
        }),
{
    let total = data.len();
    assert(p.p_offset + p.p_filesz <= total);
    let start = p.p_offset as usize;
    let end = start + p.p_filesz as usize;
    let bytes = vstd::slice::slice_subrange(data, start, end);
    if utf8_ok(bytes) {
        Ok(vstd::slice::slice_to_vec(bytes))
    } else {
        Err(Errno::EBADMSG)
    }
}

/// The NUL-terminated string at `off` in a string table, or `None` where no
/// NUL ends it.
pub open spec fn spec_c_str_at(table: Seq<u8>, off: int) -> Option<Seq<u8>> {
    if nul_end(table, off) < table.len() {
        Some(table.subrange(off, nul_end(table, off)))
    } else {
        None
    }
}

/// The NUL-terminated string at `off` in a string table, if a NUL ends it.
pub fn c_str_at(table: &[u8], off: usize) -> (r: Option<Vec<u8>>)
    requires
        off <= table@.len(),
    ensures
        r matches Some(v) ==> spec_c_str_at(table@, off as int) == Some(v@),
        r is None ==> spec_c_str_at(table@, off as int) is None,
{
    proof { lemma_nul_end_bounds(table@, off as int); }
    let mut i = off;
    while i < table.len() && table[i] != 0
        invariant
            off <= i <= nul_end(table@, off as int) <= table@.len(),
            forall|j: int| off <= j < nul_end(table@, off as int) ==> table@[j] != 0,
            nul_end(table@, off as int) < table@.len() ==> table@[nul_end(table@, off as int)] == 0,
        decreases table.len() - i,
    {
        i = i + 1;
    }
    if i < table.len() {
        Some(vstd::slice::slice_to_vec(vstd::slice::slice_subrange(table, off, i)))
    } else {
        None
    }
}

/// Whether two byte strings are equal.
pub fn bytes_eq(a: &[u8], b: &[u8]) -> (r: bool)
    ensures
        r == (a@ == b@),
{
    if a.len() != b.len() {
        return false;
    }
    let mut i: usize = 0;
    while i < a.len()
        invariant
            a@.len() == b@.len(),
            i <= a@.len(),
            forall|k: int| 0 <= k < i ==> a@[k] == b@[k],
        decreases a.len() - i,
    {
        if a[i] != b[i] {
            return false;
        }
        i = i + 1;
    }
    assert(a@ =~= b@);
    true
}

/// The kernel's symbols by name, for linking modules against.
pub struct KernelSymbols {
    entries: Vec<(Vec<u8>, ElfSym)>,
}

/// The first entry of `entries` named `name`.
pub open spec fn find_symbol(entries: Seq<(Seq<u8>, ElfSym)>, name: Seq<u8>) -> Option<ElfSym>
    decreases entries.len(),
{
    if entries.len() == 0 {
        None
    } else if entries[0].0 == name {
        Some(entries[0].1)
    } else {
        find_symbol(entries.drop_first(), name)
    }
}

impl KernelSymbols {
    pub closed spec fn table(&self) -> Seq<(Seq<u8>, ElfSym)> {
        self.entries@.map_values(|e: (Vec<u8>, ElfSym)| (e.0@, e.1))
    }

    pub fn new() -> (r: Self)
        ensures
            r.table() == Seq::<(Seq<u8>, ElfSym)>::empty(),
    {
        let r = KernelSymbols { entries: Vec::new() };
        assert(r.table() =~= Seq::<(Seq<u8>, ElfSym)>::empty());
        r
    }

    /// The symbol named `name`, if the kernel has one.
    pub fn lookup(&self, name: &[u8]) -> (r: Option<ElfSym>)
        ensures
            r == find_symbol(self.table(), name@),
    {
        let mut i: usize = 0;
        let ghost t = self.table();
        assert(t.skip(0) =~= t);
        while i < self.entries.len()
            invariant
                t == self.table(),
                i <= self.entries@.len(),
                find_symbol(t, name@) == find_symbol(t.skip(i as int), name@),
            decreases self.entries.len() - i,
        {
            assert(t.skip(i as int)[0] == t[i as int]);
            assert(t.skip(i as int).drop_first() =~= t.skip(i + 1));
            if bytes_eq(self.entries[i].0.as_slice(), name) {
                return Some(self.entries[i].1);
            }
            i = i + 1;
        }
        assert(t.skip(i as int) =~= Seq::<(Seq<u8>, ElfSym)>::empty());
        None
    }

    /// Adds a symbol under a name that the table does not hold yet.
    pub fn register(&mut self, name: Vec<u8>, sym: ElfSym)
        requires
            find_symbol(old(self).table(), name@) is None,
        ensures
            final(self).table() == old(self).table().push((name@, sym)),
    {
        let ghost n = name@;
        self.entries.push((name, sym));
        assert(self.table() =~= old(self).table().push((n, sym)));
    }
}

/// The name a symbol registers under: the NUL-terminated string at its
/// name offset, if it is valid UTF-8 and not empty.
pub open spec fn symbol_name(sym: ElfSym, strings: Seq<u8>) -> Option<Seq<u8>> {
    match spec_c_str_at(strings, sym.st_name as int) {
        Some(s) => if is_utf8(s) && s.len() > 0 {
            Some(s)
        } else {
            None
        },
        None => None,
    }
}

/// A kernel symbol with its address moved by `base`.
pub open spec fn moved(sym: ElfSym, base: u64) -> ElfSym {
    ElfSym { st_value: (sym.st_value + base) as u64, ..sym }
}

/// The entries the kernel's symbols add to the table, in order.
pub open spec fn kernel_entries(syms: Seq<ElfSym>, strings: Seq<u8>, base: u64) -> Seq<(Seq<u8>, ElfSym)>
    decreases syms.len(),
{
    if syms.len() == 0 {
        Seq::empty()
    } else {
        let front = kernel_entries(syms.drop_last(), strings, base);
        match symbol_name(syms.last(), strings) {
            Some(n) => front.push((n, moved(syms.last(), base))),
            None => front,
        }
    }
}

/// No name occurs twice.
pub open spec fn names_unique(t: Seq<(Seq<u8>, ElfSym)>) -> bool {
    forall|i: int, j: int| 0 <= i < j < t.len() ==> #[trigger] t[i].0 != #[trigger] t[j].0
}

proof fn lemma_find_symbol_in(t: Seq<(Seq<u8>, ElfSym)>, name: Seq<u8>)
    ensures
        find_symbol(t, name) is Some ==> exists|i: int| 0 <= i < t.len() && #[trigger] t[i].0 == name,
    decreases t.len(),
{
    if t.len() > 0 && t[0].0 != name {
        lemma_find_symbol_in(t.drop_first(), name);
        if find_symbol(t, name) is Some {
            let i = choose|i: int| 0 <= i < t.drop_first().len() && #[trigger] t.drop_first()[i].0 == name;
            assert(t[i + 1].0 == name);
        }
    }
}

impl KernelSymbols {
    /// Registers the kernel's own symbols: each symbol's address is moved
    /// by `base` (where the kernel was loaded), and every symbol with a
    /// name is added under it. Gives the number of symbols the table then
    /// holds.
    pub fn register_kernel(&mut self, syms: &mut Vec<ElfSym>, strings: &[u8], base: u64) -> (r: usize)
        requires
            forall|i: int| 0 <= i < old(syms)@.len() ==> (#[trigger] old(syms)@[i]).st_name <= strings@.len(),
            forall|i: int| 0 <= i < old(syms)@.len() ==> (#[trigger] old(syms)@[i]).st_value + base <= u64::MAX,
            names_unique(old(self).table() + kernel_entries(old(syms)@, strings@, base)),
        ensures
            final(syms)@ == old(syms)@.map_values(|s: ElfSym| moved(s, base)),
            final(self).table() == old(self).table() + kernel_entries(old(syms)@, strings@, base),
            r == final(self).table().len(),
    {
        let ghost s0 = syms@;
        let ghost t0 = self.table();
        let mut i: usize = 0;
        while i < syms.len()
            invariant
                syms@.len() == s0.len(),
                i <= s0.len(),
                forall|k: int| 0 <= k < i ==> #[trigger] syms@[k] == moved(s0[k], base),
                forall|k: int| i <= k < s0.len() ==> #[trigger] syms@[k] == s0[k],
                forall|k: int| 0 <= k < s0.len() ==> (#[trigger] s0[k]).st_name <= strings@.len(),
                forall|k: int| 0 <= k < s0.len() ==> (#[trigger] s0[k]).st_value + base <= u64::MAX,
                names_unique(t0 + kernel_entries(s0, strings@, base)),
                self.table() == t0 + kernel_entries(s0.take(i as int), strings@, base),
            decreases syms.len() - i,
        {
            let mut sym = syms[i];
            assert(sym == s0[i as int]);
            sym.st_value = sym.st_value + base;
            syms.set(i, sym);
            let ghost before = self.table();
            proof {
                assert(s0.take(i + 1).drop_last() =~= s0.take(i as int));
                assert(s0.take(i + 1).last() == s0[i as int]);
                lemma_entries_prefix(s0, strings@, base, i + 1);
            }
            match c_str_at(strings, sym.st_name as usize) {
                Some(name) => {
                    if name.len() > 0 && utf8_ok(name.as_slice()) {
                        proof {
                            let ke = kernel_entries(s0, strings@, base);
                            let kt = kernel_entries(s0.take(i + 1), strings@, base);
                            let all = t0 + ke;
                            let n = before.len() as int;
                            let tl = t0.len() as int;
                            assert(before.push((name@, sym)) =~= t0 + kt);
                            assert(ke[n - tl] == kt[n - tl]);
                            assert(all[n].0 == name@);
                            assert forall|j: int| 0 <= j < before.len() implies #[trigger] before[j].0 != name@ by {
                                if j < tl {
                                    assert(all[j] == t0[j]);
                                    assert(before[j] == t0[j]);
                                } else {
                                    assert(ke[j - tl] == kt[j - tl]);
                                    assert(all[j] == ke[j - tl]);
                                    assert((t0 + kt)[j] == kt[j - tl]);
                                    assert(before[j] == (t0 + kt)[j]);
                                }
                                assert(all[j].0 != all[n].0);
                            }
                            lemma_find_symbol_in(before, name@);
                        }
                        self.register(name, sym);
                    }
                },
                None => {},
            }
            i = i + 1;
        }
        proof {
            assert(s0.take(s0.len() as int) =~= s0);
            assert(syms@ =~= s0.map_values(|s: ElfSym| moved(s, base)));
        }
        self.entries.len()
    }
}

/// The entries of a prefix of the symbols come first among those of all.
proof fn lemma_entries_prefix(syms: Seq<ElfSym>, strings: Seq<u8>, base: u64, n: int)
    requires
        0 <= n <= syms.len(),
    ensures
        kernel_entries(syms.take(n), strings, base).len() <= kernel_entries(syms, strings, base).len(),
        forall|j: int|
            0 <= j < kernel_entries(syms.take(n), strings, base).len() ==> #[trigger] kernel_entries(syms, strings, base)[j]
                == kernel_entries(syms.take(n), strings, base)[j],
    decreases syms.len() - n,
{
    if n < syms.len() {
        lemma_entries_prefix(syms, strings, base, n + 1);
        assert(syms.take(n + 1).drop_last() =~= syms.take(n));
    } else {
        assert(syms.take(n) =~= syms);
    }
}

/// The module dependency that names the kernel itself.
pub open spec fn kernel_module_name() -> Seq<u8> {
    seq![0x6du8, 0x65, 0x6e, 0x69, 0x78, 0x2e, 0x6b, 0x73, 0x6f]
}

/// The modules a module needs (the names at the `DT_NEEDED` offsets of its
/// string table, without the kernel itself), each of which must be
/// loaded, or else `ENOENT`.
pub open spec fn needed_names(needed: Seq<u64>, strtab: Seq<u8>) -> Seq<Seq<u8>>
    decreases needed.len(),
{
    if needed.len() == 0 {
        Seq::empty()
    } else {
        let rest = needed_names(needed.drop_last(), strtab);
        let name = spec_c_str_at(strtab, needed.last() as int).unwrap();
        if name == kernel_module_name() { rest } else { rest.push(name) }
    }
}

pub open spec fn all_loaded(names: Seq<Seq<u8>>, loaded: Seq<Seq<u8>>) -> bool {
    forall|i: int| 0 <= i < names.len() ==> loaded.contains(#[trigger] names[i])
}

/// The modules a module needs, each of which must be loaded (`ENOENT`
/// otherwise).
pub fn module_dependencies(needed: &Vec<u64>, strtab: &[u8], loaded: &Vec<Vec<u8>>) -> (r: EResult<Vec<Vec<u8>>>)
    requires
        forall|i: int| 0 <= i < needed@.len() ==> (#[trigger] needed@[i]) <= strtab@.len()
            && spec_c_str_at(strtab@, needed@[i] as int) is Some,
    ensures
        ({
            let names = needed_names(needed@, strtab@);
            let lv = loaded@.map_values(|v: Vec<u8>| v@);
            match r {
                Ok(v) => all_loaded(names, lv) && v@.map_values(|x: Vec<u8>| x@) == names,
                Err(e) => e == Errno::ENOENT && !all_loaded(names, lv),
            }
        }),
{
    let ghost lv = loaded@.map_values(|v: Vec<u8>| v@);
    let kernel: [u8; 9] = [0x6d, 0x65, 0x6e, 0x69, 0x78, 0x2e, 0x6b, 0x73, 0x6f];
    assert(kernel@ =~= kernel_module_name());
    let mut names: Vec<Vec<u8>> = Vec::new();
    let mut i: usize = 0;
    assert(needed@.take(0) =~= Seq::<u64>::empty());
    while i < needed.len()
        invariant
            i <= needed@.len(),
            kernel@ == kernel_module_name(),
            forall|k: int| 0 <= k < needed@.len() ==> (#[trigger] needed@[k]) <= strtab@.len()
                && spec_c_str_at(strtab@, needed@[k] as int) is Some,
            names@.map_values(|x: Vec<u8>| x@) == needed_names(needed@.take(i as int), strtab@),
        decreases needed.len() - i,
    {
        assert(needed@.take(i + 1).drop_last() =~= needed@.take(i as int));
        assert(needed@.take(i + 1).last() == needed@[i as int]);
        let off = needed[i];
        let tl = strtab.len();
        assert(needed@[i as int] <= tl);
        assert(off as usize as int == off as int);
        let name = c_str_at(strtab, off as usize);
        match name {
            Some(n) => {
                if !bytes_eq(n.as_slice(), &kernel) {
                    let ghost before = names@.map_values(|x: Vec<u8>| x@);
                    let ghost nv = n@;
                    names.push(n);
                    assert(names@.map_values(|x: Vec<u8>| x@) =~= before.push(nv));
                }
            },
            None => {
                proof { assert(false); }
            },
        }
        i = i + 1;
    }
    assert(needed@.take(needed@.len() as int) =~= needed@);
    let mut j: usize = 0;
    let ghost nm = names@.map_values(|x: Vec<u8>| x@);
    while j < names.len()
        invariant
            j <= names@.len(),
            lv == loaded@.map_values(|v: Vec<u8>| v@),
            nm == names@.map_values(|x: Vec<u8>| x@),
            nm == needed_names(needed@, strtab@),
            forall|k: int| 0 <= k < j ==> lv.contains(#[trigger] nm[k]),
        decreases names.len() - j,
    {
        let mut found = false;
        let mut k: usize = 0;
        while k < loaded.len()
            invariant
                k <= loaded@.len(),
                j < names@.len(),
                lv == loaded@.map_values(|v: Vec<u8>| v@),
                found ==> lv.contains(names@[j as int]@),
                !found ==> forall|m: int| 0 <= m < k ==> lv[m] != names@[j as int]@,
            decreases loaded.len() - k,
        {
            if !found && bytes_eq(loaded[k].as_slice(), names[j].as_slice()) {
                found = true;
                assert(lv[k as int] == names@[j as int]@);
            }
            k = k + 1;
        }
        if !found {
            proof {
                assert(nm[j as int] == names@[j as int]@);
                if lv.contains(nm[j as int]) {
                    let m = choose|m: int| 0 <= m < lv.len() && lv[m] == nm[j as int];
                    assert(lv[m] != names@[j as int]@);
                }
                assert(!all_loaded(nm, lv));
            }
            return Err(Errno::ENOENT);
        }
        assert(nm[j as int] == names@[j as int]@);
        j = j + 1;
    }
    Ok(names)
}

/// A write that a relocation makes: `value` at `location`.
#[derive(Clone, Copy, Debug, PartialEq, Eq, Structural)]
pub struct RelocWrite {
    pub location: usize,
    pub value: usize,
}

/// Every relocation names a symbol of the table, its location is an
/// address, and its symbol's name starts inside the string table.
pub open spec fn relocations_fit(relas: Seq<ElfRela>, symtab: Seq<ElfSym>, load_base: usize, kernel: Seq<(Seq<u8>, ElfSym)>, strtab: Seq<u8>) -> bool {
    forall|i: int| 0 <= i < relas.len() ==> {
        let r = #[trigger] relas[i];
        let s = (r.r_info / 0x1_0000_0000) as int;
        &&& s < symtab.len()
        &&& load_base + r.r_offset <= usize::MAX
        &&& symtab[s].st_name <= strtab.len()
    }
}

/// The kernel's value for the symbol of a relocation, looked up by name.
pub open spec fn kernel_value_of(sym: ElfSym, strtab: Seq<u8>, kernel: Seq<(Seq<u8>, ElfSym)>) -> Option<u64> {
    match spec_c_str_at(strtab, sym.st_name as int) {
        Some(n) => match find_symbol(kernel, n) {
            Some(k) => Some(k.st_value),
            None => None,
        },
        None => None,
    }
}

/// The writes of the first `n` relocations, and whether one of them failed
/// (then the writes stop before it).
pub open spec fn reloc_writes(
    relas: Seq<ElfRela>,
    symtab: Seq<ElfSym>,
    strtab: Seq<u8>,
    load_base: usize,
    kernel: Seq<(Seq<u8>, ElfSym)>,
) -> (Seq<RelocWrite>, EResult<()>)
    decreases relas.len(),
{
    if relas.len() == 0 {
        (Seq::empty(), Ok(()))
    } else {
        let prev = reloc_writes(relas.drop_last(), symtab, strtab, load_base, kernel);
        if prev.1 is Err {
            prev
        } else {
            let r = relas.last();
            let sym = symtab[(r.r_info / 0x1_0000_0000) as int];
            let typ = (r.r_info % 0x1_0000_0000) as u32;
            match spec_relocation(typ, sym, load_base, r.r_addend, kernel_value_of(sym, strtab, kernel)) {
                Err(e) => (prev.0, Err(e)),
                Ok(None) => prev,
                Ok(Some(v)) => (prev.0.push(RelocWrite { location: (load_base + r.r_offset) as usize, value: v }), Ok(())),
            }
        }
    }
}

/// Works out the relocations of a module loaded at `load_base`, in order:
/// the writes they make, up to the first one that fails, and that failure.
pub fn plan_relocations(
    relas: &Vec<ElfRela>,
    symtab: &Vec<ElfSym>,
    strtab: &[u8],
    load_base: usize,
    kernel: &KernelSymbols,
) -> (r: (Vec<RelocWrite>, EResult<()>))
    requires
        relocations_fit(relas@, symtab@, load_base, kernel.table(), strtab@),
    ensures
        (r.0@, r.1) == reloc_writes(relas@, symtab@, strtab@, load_base, kernel.table()),
{
    let mut writes: Vec<RelocWrite> = Vec::new();
    let mut i: usize = 0;
    assert(relas@.take(0) =~= Seq::<ElfRela>::empty());
    while i < relas.len()
        invariant
            i <= relas@.len(),
            relocations_fit(relas@, symtab@, load_base, kernel.table(), strtab@),
            (writes@, Ok::<(), Errno>(())) == reloc_writes(relas@.take(i as int), symtab@, strtab@, load_base, kernel.table()),
        decreases relas.len() - i,
    {
        let rela = relas[i];
        assert(relas@.take(i + 1).drop_last() =~= relas@.take(i as int));
        assert(relas@.take(i + 1).last() == rela);
        let s = rela_symbol(&rela);
        let typ = rela_type(&rela);
        assert(relas@[i as int] == rela);
        let sym = symtab[s as usize];
        let kv = match c_str_at(strtab, sym.st_name as usize) {
            Some(n) => match kernel.lookup(n.as_slice()) {
                Some(k) => Some(k.st_value),
                None => None,
            },
            None => None,
        };
        assert(kv == kernel_value_of(sym, strtab@, kernel.table()));
        match relocation_value(typ, &sym, load_base, rela.r_addend, kv) {
            Err(e) => {
                assert(relas@.take(i + 1) =~= relas@.take(i + 1));
                proof {
                    lemma_reloc_writes_stop(relas@, symtab@, strtab@, load_base, kernel.table(), i as int + 1);
                }
                assert(relas@.take(relas@.len() as int) =~= relas@);
                return (writes, Err(e));
            },
            Ok(None) => {},
            Ok(Some(v)) => {
                writes.push(RelocWrite { location: load_base + rela.r_offset as usize, value: v });
            },
        }
        i = i + 1;
    }
    assert(relas@.take(relas@.len() as int) =~= relas@);
    (writes, Ok(()))
}

/// Once a relocation fails, later ones change nothing.
proof fn lemma_reloc_writes_stop(
    relas: Seq<ElfRela>,
    symtab: Seq<ElfSym>,
    strtab: Seq<u8>,
    load_base: usize,
    kernel: Seq<(Seq<u8>, ElfSym)>,
    n: int,
)
    requires
        0 <= n <= relas.len(),
        reloc_writes(relas.take(n), symtab, strtab, load_base, kernel).1 is Err,
    ensures
        reloc_writes(relas, symtab, strtab, load_base, kernel) == reloc_writes(relas.take(n), symtab, strtab, load_base, kernel),
    decreases relas.len() - n,
{
    if n < relas.len() {
        assert(relas.take(n + 1).drop_last() =~= relas.take(n));
        lemma_reloc_writes_stop(relas, symtab, strtab, load_base, kernel, n + 1);
    } else {
        assert(relas.take(n) =~= relas);
    }
}

} // verus!
