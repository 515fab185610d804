//! Multi-level page tables. The tables live in physical memory, which is
//! held here as an arena: a table's physical address is its index in the
//! arena, and allocating a zeroed page appends an empty table.
use vstd::prelude::*;
use crate::errno::Errno;

verus! {

/// Bits of the offset within a page.
pub const PAGE_BITS: u64 = 12;
/// Bits of the index into one table.
pub const LEVEL_BITS: u64 = 9;
/// Entries in one table.
pub const ENTRIES: usize = 512;
/// The mask of one table index.
pub const INDEX_MASK: u64 = 0x1ff;

/// Page protection flags.
pub const PTE_READ: usize = 0x01;
pub const PTE_WRITE: usize = 0x02;
pub const PTE_EXEC: usize = 0x04;
pub const PTE_USER: usize = 0x08;
pub const PTE_LARGE: usize = 0x10;

/// One entry of a page table.
#[derive(Clone, Copy, Debug, PartialEq, Eq, Structural)]
pub struct PageTableEntry {
    pub present: bool,
    pub large: bool,
    /// The next table, or the mapped physical page.
    pub address: u64,
    pub flags: usize,
}

impl PageTableEntry {
    pub open spec fn spec_new(address: u64, flags: usize) -> PageTableEntry {
        PageTableEntry { present: true, large: flags & PTE_LARGE != 0, address, flags }
    }

    /// A present entry for `address` with protection `flags`.
    pub fn new(address: u64, flags: usize) -> (r: PageTableEntry)
        ensures
            r == PageTableEntry::spec_new(address, flags),
    {
        PageTableEntry { present: true, large: flags & PTE_LARGE != 0, address, flags }
    }

    pub open spec fn spec_empty() -> PageTableEntry {
        PageTableEntry { present: false, large: false, address: 0, flags: 0 }
    }

    /// The entry of a zeroed page.
    pub fn empty() -> (r: PageTableEntry)
        ensures
            r == PageTableEntry::spec_empty(),
    {
        PageTableEntry { present: false, large: false, address: 0, flags: 0 }
    }
}

/// A virtual address space: a tree of tables `levels` deep whose root is
/// the table at `head`. `kernel` tables map no user pages.
pub struct PageTable {
    kernel: bool,
    levels: usize,
    head: usize,
    tables: Vec<Vec<PageTableEntry>>,
    /// The level each table serves at (the root's is `levels - 1`).
    depth: Ghost<Seq<int>>,
}

/// A page table as the contracts see it.
pub struct PageTableV {
    pub tables: Seq<Seq<PageTableEntry>>,
    pub head: int,
    pub levels: int,
    pub kernel: bool,
}

impl View for PageTable {
    type V = PageTableV;

    closed spec fn view(&self) -> PageTableV {
        PageTableV {
            tables: self.tables@.map_values(|t: Vec<PageTableEntry>| t@),
            head: self.head as int,
            levels: self.levels as int,
            kernel: self.kernel,
        }
    }
}

/// The index into the table of `level` that `virt` selects.
pub open spec fn index_at(virt: u64, level: int) -> int {
    ((virt >> ((PAGE_BITS + LEVEL_BITS * level) as u64)) & INDEX_MASK) as int
}

/// The entry the walk for `virt` ends at, from table `cur` of `level`:
/// `None` where an intermediate entry is missing; a large entry ends the
/// walk early.
pub open spec fn walk(t: Seq<Seq<PageTableEntry>>, cur: int, virt: u64, level: int) -> Option<(int, int)>
    decreases level,
{
    let i = index_at(virt, level);
    if level <= 0 {
        Some((cur, i))
    } else {
        let e = t[cur][i];
        if !e.present {
            None
        } else if e.large {
            Some((cur, i))
        } else {
            walk(t, e.address as int, virt, level - 1)
        }
    }
}

/// Where the entry for `virt` lies: a table and an index.
pub open spec fn locate(v: PageTableV, virt: u64) -> Option<(int, int)> {
    walk(v.tables, v.head, virt, v.levels - 1)
}

/// The entry for `virt`, if the walk reaches one.
pub open spec fn lookup(v: PageTableV, virt: u64) -> Option<PageTableEntry> {
    match locate(v, virt) {
        Some((t, i)) => Some(v.tables[t][i]),
        None => None,
    }
}

/// `virt` is mapped: its entry is present.
pub open spec fn mapped(v: PageTableV, virt: u64) -> bool {
    lookup(v, virt) matches Some(e) && e.present
}

/// The flags of the intermediate entries a walk allocates.
pub open spec fn dir_flags(kernel: bool) -> usize {
    if kernel {
        PTE_READ | PTE_WRITE | PTE_EXEC
    } else {
        PTE_READ | PTE_WRITE | PTE_EXEC | PTE_USER
    }
}

/// `b` is `a` with tables added: every located entry stays where it was
/// with the same contents, and the only entries that changed were missing
/// ones that now lead to new tables.
pub open spec fn grows(a: PageTableV, b: PageTableV) -> bool {
    &&& b.head == a.head
    &&& b.levels == a.levels
    &&& b.kernel == a.kernel
    &&& b.tables.len() >= a.tables.len()
    &&& forall|k: int| 0 <= k < a.tables.len() ==> (#[trigger] b.tables[k]).len() == a.tables[k].len()
    &&& forall|v2: u64| #[trigger] locate(a, v2) matches Some(l) ==> locate(b, v2) == Some(l) && b.tables[l.0][l.1] == a.tables[l.0][l.1]
    &&& forall|v2: u64| #[trigger] locate(b, v2) is Some && locate(a, v2) is None ==> {
        let l = locate(b, v2)->0;
        !b.tables[l.0][l.1].present
    }
    &&& forall|k: int, i: int|
        0 <= k < a.tables.len() && 0 <= i < a.tables[k].len() && #[trigger] b.tables[k][i] != a.tables[k][i] ==> {
            &&& !a.tables[k][i].present
            &&& b.tables[k][i].address >= a.tables.len()
            &&& b.tables[k][i] == PageTableEntry::spec_new(b.tables[k][i].address, dir_flags(a.kernel))
        }
}

/// `v1` and `v2` select the same entry at every level: they lie in the
/// same page.
pub open spec fn same_page(v1: u64, v2: u64, levels: int) -> bool {
    forall|j: int| 0 <= j < levels ==> #[trigger] index_at(v1, j) == index_at(v2, j)
}

pub open spec fn loc_view(r: Option<(usize, usize)>) -> Option<(int, int)> {
    match r {
        Some((a, b)) => Some((a as int, b as int)),
        None => None,
    }
}

/// The shape of the tables: each has `ENTRIES` entries and a level below
/// the root's; a present entry of a table above the last level is no large
/// page and leads to a table one level lower.
spec fn tables_ok(t: Seq<Seq<PageTableEntry>>, depth: Seq<int>, head: int, levels: int) -> bool {
    &&& 1 <= levels <= 5
    &&& t.len() == depth.len()
    &&& 0 <= head < t.len()
    &&& depth[head] == levels - 1
    &&& forall|k: int| 0 <= k < t.len() ==> (#[trigger] t[k]).len() == ENTRIES
    &&& forall|k: int| 0 <= k < t.len() ==> 0 <= #[trigger] depth[k] < levels
    &&& forall|k: int, i: int|
        0 <= k < t.len() && 0 <= i < ENTRIES && depth[k] >= 1 && (#[trigger] t[k][i]).present ==> {
            &&& !t[k][i].large
            &&& t[k][i].address < t.len()
            &&& depth[t[k][i].address as int] == depth[k] - 1
        }
    &&& forall|k1: int, i1: int, k2: int, i2: int|
        0 <= k1 < t.len() && 0 <= i1 < ENTRIES && 0 <= k2 < t.len() && 0 <= i2 < ENTRIES && depth[k1] >= 1
            && depth[k2] >= 1 && (#[trigger] t[k1][i1]).present && (#[trigger] t[k2][i2]).present
            && t[k1][i1].address == t[k2][i2].address ==> k1 == k2 && i1 == i2
}

/// The tables from `n0` on are new: their present entries lie above the
/// last level and lead to new tables.
spec fn fresh_ok(n0: int, t: Seq<Seq<PageTableEntry>>, d: Seq<int>) -> bool {
    forall|k: int, i: int| n0 <= k < t.len() && 0 <= i < t[k].len() && (#[trigger] t[k][i]).present ==> d[k] >= 1 && t[k][i].address >= n0
}

/// The walk from `c` at level `l` passes through table `target` at level
/// `tl`.
spec fn reaches(t: Seq<Seq<PageTableEntry>>, c: int, virt: u64, l: int, target: int, tl: int) -> bool
    decreases l - tl,
{
    if l <= tl {
        l == tl && c == target
    } else {
        let e = t[c][index_at(virt, l)];
        e.present && !e.large && reaches(t, e.address as int, virt, l - 1, target, tl)
    }
}

/// `b` keeps every present entry of `a`.
spec fn keeps_present(a: Seq<Seq<PageTableEntry>>, b: Seq<Seq<PageTableEntry>>) -> bool {
    &&& b.len() >= a.len()
    &&& forall|k: int| 0 <= k < a.len() ==> (#[trigger] b[k]).len() == a[k].len()
    &&& forall|k: int, i: int| 0 <= k < a.len() && 0 <= i < a[k].len() && (#[trigger] a[k][i]).present ==> b[k][i] == a[k][i]
}

/// What allocation did to the tables of `a`: only missing entries of
/// tables above the last level changed, into entries for new tables.
spec fn changed_ok(a: Seq<Seq<PageTableEntry>>, da: Seq<int>, b: Seq<Seq<PageTableEntry>>, db: Seq<int>, flags: usize) -> bool {
    &&& b.len() >= a.len()
    &&& db.len() == b.len()
    &&& da.len() == a.len()
    &&& forall|k: int| 0 <= k < a.len() ==> #[trigger] db[k] == da[k]
    &&& forall|k: int| 0 <= k < a.len() ==> (#[trigger] b[k]).len() == a[k].len()
    &&& forall|k: int, i: int| 0 <= k < a.len() && 0 <= i < a[k].len() && #[trigger] b[k][i] != a[k][i] ==> {
        &&& !a[k][i].present
        &&& da[k] >= 1
        &&& b[k][i].address >= a.len()
        &&& b[k][i] == PageTableEntry::spec_new(b[k][i].address, flags)
    }
}

proof fn lemma_index_bound(virt: u64, level: int)
    ensures
        0 <= index_at(virt, level) < ENTRIES,
{
    let y = virt >> ((PAGE_BITS + LEVEL_BITS * level) as u64);
    assert(y & 0x1ffu64 <= 0x1ffu64) by (bit_vector);
}

proof fn lemma_reaches_walk(t: Seq<Seq<PageTableEntry>>, c: int, virt: u64, l: int, target: int, tl: int)
    requires
        reaches(t, c, virt, l, target, tl),
        tl >= 0,
    ensures
        walk(t, c, virt, l) == walk(t, target, virt, tl),
    decreases l - tl,
{
    if l > tl {
        let e = t[c][index_at(virt, l)];
        lemma_reaches_walk(t, e.address as int, virt, l - 1, target, tl);
    }
}

proof fn lemma_reaches_step(t: Seq<Seq<PageTableEntry>>, c: int, virt: u64, l: int, target: int, tl: int)
    requires
        reaches(t, c, virt, l, target, tl),
        tl >= 1,
        t[target][index_at(virt, tl)].present,
        !t[target][index_at(virt, tl)].large,
    ensures
        reaches(t, c, virt, l, t[target][index_at(virt, tl)].address as int, tl - 1),
    decreases l - tl,
{
    if l > tl {
        let e = t[c][index_at(virt, l)];
        lemma_reaches_step(t, e.address as int, virt, l - 1, target, tl);
    } else {
        let n = t[target][index_at(virt, tl)].address as int;
        assert(reaches(t, n, virt, tl - 1, n, tl - 1));
    }
}

proof fn lemma_reaches_kept(
    a: Seq<Seq<PageTableEntry>>,
    da: Seq<int>,
    head: int,
    levels: int,
    b: Seq<Seq<PageTableEntry>>,
    c: int,
    virt: u64,
    l: int,
    target: int,
    tl: int,
)
    requires
        tables_ok(a, da, head, levels),
        keeps_present(a, b),
        0 <= c < a.len(),
        da[c] == l,
        tl >= 0,
        reaches(a, c, virt, l, target, tl),
    ensures
        reaches(b, c, virt, l, target, tl),
    decreases l - tl,
{
    if l > tl {
        lemma_index_bound(virt, l);
        let i = index_at(virt, l);
        let e = a[c][i];
        assert(b[c][i] == e);
        lemma_reaches_kept(a, da, head, levels, b, e.address as int, virt, l - 1, target, tl);
    }
}

proof fn lemma_walk_kept(
    a: Seq<Seq<PageTableEntry>>,
    da: Seq<int>,
    head: int,
    levels: int,
    b: Seq<Seq<PageTableEntry>>,
    c: int,
    virt: u64,
    l: int,
)
    requires
        tables_ok(a, da, head, levels),
        keeps_present(a, b),
        0 <= c < a.len(),
        da[c] == l,
        walk(a, c, virt, l) is Some,
    ensures
        walk(b, c, virt, l) == walk(a, c, virt, l),
        walk(a, c, virt, l) matches Some(loc) && 0 <= loc.0 < a.len() && da[loc.0] == 0 && 0 <= loc.1 < ENTRIES,
    decreases l,
{
    lemma_index_bound(virt, l);
    if l > 0 {
        let i = index_at(virt, l);
        let e = a[c][i];
        assert(b[c][i] == e);
        lemma_walk_kept(a, da, head, levels, b, e.address as int, virt, l - 1);
    }
}

proof fn lemma_walk_bounds(t: Seq<Seq<PageTableEntry>>, d: Seq<int>, head: int, levels: int, c: int, virt: u64, l: int)
    requires
        tables_ok(t, d, head, levels),
        0 <= c < t.len(),
        d[c] == l,
    ensures
        walk(t, c, virt, l) matches Some(loc) ==> 0 <= loc.0 < t.len() && d[loc.0] == 0 && 0 <= loc.1 < ENTRIES,
    decreases l,
{
    lemma_index_bound(virt, l);
    if l > 0 {
        let e = t[c][index_at(virt, l)];
        if e.present {
            lemma_walk_bounds(t, d, head, levels, e.address as int, virt, l - 1);
        }
    }
}

/// Changing an entry of a last-level table changes no walk.
proof fn lemma_walk_leaf_update(
    t: Seq<Seq<PageTableEntry>>,
    d: Seq<int>,
    head: int,
    levels: int,
    a: int,
    i: int,
    e: PageTableEntry,
    c: int,
    virt: u64,
    l: int,
)
    requires
        tables_ok(t, d, head, levels),
        0 <= a < t.len(),
        d[a] == 0,
        0 <= c < t.len(),
        d[c] == l,
    ensures
        walk(t.update(a, t[a].update(i, e)), c, virt, l) == walk(t, c, virt, l),
    decreases l,
{
    lemma_index_bound(virt, l);
    if l > 0 {
        let u = t.update(a, t[a].update(i, e));
        assert(u[c] == t[c]);
        let x = t[c][index_at(virt, l)];
        if x.present && !x.large {
            lemma_walk_leaf_update(t, d, head, levels, a, i, e, x.address as int, virt, l - 1);
        }
    }
}

/// A walk through new tables ends at an entry that is not present.
proof fn lemma_fresh_walk(t: Seq<Seq<PageTableEntry>>, d: Seq<int>, head: int, levels: int, n0: int, c: int, virt: u64, l: int)
    requires
        tables_ok(t, d, head, levels),
        fresh_ok(n0, t, d),
        0 <= n0 <= c < t.len(),
        d[c] == l,
    ensures
        walk(t, c, virt, l) matches Some(loc) ==> !t[loc.0][loc.1].present,
    decreases l,
{
    lemma_index_bound(virt, l);
    if l > 0 {
        let e = t[c][index_at(virt, l)];
        if e.present {
            lemma_fresh_walk(t, d, head, levels, n0, e.address as int, virt, l - 1);
        }
    }
}

/// A walk that failed before allocation ends, after it, at an entry that
/// is not present, if it ends at all.
proof fn lemma_walk_new(
    a: Seq<Seq<PageTableEntry>>,
    da: Seq<int>,
    b: Seq<Seq<PageTableEntry>>,
    db: Seq<int>,
    flags: usize,
    head: int,
    levels: int,
    c: int,
    virt: u64,
    l: int,
)
    requires
        tables_ok(a, da, head, levels),
        tables_ok(b, db, head, levels),
        changed_ok(a, da, b, db, flags),
        fresh_ok(a.len() as int, b, db),
        0 <= c < a.len(),
        da[c] == l,
        walk(a, c, virt, l) is None,
    ensures
        walk(b, c, virt, l) matches Some(loc) ==> !b[loc.0][loc.1].present,
    decreases l,
{
    lemma_index_bound(virt, l);
    let i = index_at(virt, l);
    let ea = a[c][i];
    let eb = b[c][i];
    if ea.present {
        assert(eb == ea);
        lemma_walk_new(a, da, b, db, flags, head, levels, ea.address as int, virt, l - 1);
    } else if eb.present {
        assert(db[c] == l);
        lemma_fresh_walk(b, db, head, levels, a.len() as int, eb.address as int, virt, l - 1);
    }
}

/// Walks that end at the same entry went through the same tables and the
/// same indices.
proof fn lemma_walk_inj(t: Seq<Seq<PageTableEntry>>, d: Seq<int>, head: int, levels: int, c1: int, c2: int, v1: u64, v2: u64, l: int)
    requires
        tables_ok(t, d, head, levels),
        0 <= c1 < t.len(),
        0 <= c2 < t.len(),
        d[c1] == l,
        d[c2] == l,
        walk(t, c1, v1, l) is Some,
        walk(t, c1, v1, l) == walk(t, c2, v2, l),
    ensures
        c1 == c2,
        forall|j: int| 0 <= j <= l ==> #[trigger] index_at(v1, j) == index_at(v2, j),
    decreases l,
{
    lemma_index_bound(v1, l);
    lemma_index_bound(v2, l);
    if l > 0 {
        let e1 = t[c1][index_at(v1, l)];
        let e2 = t[c2][index_at(v2, l)];
        lemma_walk_inj(t, d, head, levels, e1.address as int, e2.address as int, v1, v2, l - 1);
        assert forall|j: int| 0 <= j <= l implies #[trigger] index_at(v1, j) == index_at(v2, j) by {
            if j < l {
            }
        }
    }
}

/// Addresses with the same indices walk alike.
proof fn lemma_walk_same(t: Seq<Seq<PageTableEntry>>, c: int, v1: u64, v2: u64, l: int)
    requires
        0 <= l,
        forall|j: int| 0 <= j <= l ==> #[trigger] index_at(v1, j) == index_at(v2, j),
    ensures
        walk(t, c, v1, l) == walk(t, c, v2, l),
    decreases l,
{
    assert(index_at(v1, l) == index_at(v2, l));
    if l > 0 {
        let e = t[c][index_at(v1, l)];
        lemma_walk_same(t, e.address as int, v1, v2, l - 1);
    }
}

impl PageTable {
    pub closed spec fn wf(&self) -> bool {
        tables_ok(self@.tables, self.depth@, self.head as int, self.levels as int)
    }

    proof fn lemma_view(&self, k: int)
        requires
            0 <= k < self.tables@.len(),
        ensures
            self@.tables[k] == self.tables@[k]@,
            self@.tables.len() == self.tables@.len(),
    {
    }

    /// A new address space with an empty root table, `levels` levels deep.
    pub fn new(levels: usize, kernel: bool) -> (r: PageTable)
        requires
            1 <= levels <= 5,
        ensures
            r.wf(),
            r@.levels == levels,
            r@.kernel == kernel,
            r@.tables == seq![Seq::new(ENTRIES as nat, |i: int| PageTableEntry::spec_empty())],
            forall|virt: u64| !mapped(r@, virt),
    {
        let root = zeroed_table();
        let mut tables: Vec<Vec<PageTableEntry>> = Vec::new();
        tables.push(root);
        let ghost d: Seq<int> = seq![(levels - 1) as int];
        let r = PageTable { kernel, levels, head: 0, tables, depth: Ghost(d) };
        assert(r@.tables =~= seq![Seq::new(ENTRIES as nat, |i: int| PageTableEntry::spec_empty())]);
        assert forall|virt: u64| !mapped(r@, virt) by {
            lemma_index_bound(virt, r@.levels - 1);
        }
        r
    }

    /// Locates the entry for `virt` without changing the tables.
    fn find_pte(&self, virt: u64) -> (r: Option<(usize, usize)>)
        requires
            self.wf(),
        ensures
            loc_view(r) == locate(self@, virt),
    {
        let ghost t = self@.tables;
        let ghost top = self.levels - 1;
        let mut cur = self.head;
        let mut level = self.levels - 1;
        proof {
            lemma_walk_bounds(t, self.depth@, self.head as int, self.levels as int, self.head as int, virt, top);
        }
        loop
            invariant
                self.wf(),
                t == self@.tables,
                top == self.levels - 1,
                0 <= level < self.levels,
                cur < t.len(),
                self.depth@[cur as int] == level,
                reaches(t, self.head as int, virt, top, cur as int, level as int),
            decreases level,
        {
            let index = index_of(virt, level);
            proof {
                lemma_reaches_walk(t, self.head as int, virt, top, cur as int, level as int);
                self.lemma_view(cur as int);
            }
            if level == 0 {
                return Some((cur, index));
            }
            let e = self.tables[cur][index];
            if e.present {
                if e.large {
                    return Some((cur, index));
                }
                let n = self.tables.len();
                proof {
                    assert(n == t.len());
                    assert(t[cur as int][index as int] == e);
                    assert(e.address < t.len());
                    lemma_reaches_step(t, self.head as int, virt, top, cur as int, level as int);
                }
                cur = e.address as usize;
            } else {
                return None;
            }
            level = level - 1;
        }
    }

    /// Gets the entry that `virt` is translated through: the table and the
    /// index in it. Missing levels are allocated where `allocate` asks for
    /// it, else the walk ends in `None` there.
    pub fn get_pte(&mut self, virt: u64, allocate: bool) -> (r: Option<(usize, usize)>)
        requires
            old(self).wf(),
        ensures
            final(self).wf(),
            !allocate ==> final(self)@ == old(self)@ && loc_view(r) == locate(old(self)@, virt),
            allocate ==> r is Some && loc_view(r) == locate(final(self)@, virt) && grows(old(self)@, final(self)@),
            allocate && locate(old(self)@, virt) is Some ==> final(self)@ == old(self)@,
    {
        if !allocate {
            return self.find_pte(virt);
        }
        let ghost t0 = self@.tables;
        let ghost d0 = self.depth@;
        let ghost top = self.levels - 1;
        let pte_flags: usize = if self.kernel {
            PTE_READ | PTE_WRITE | PTE_EXEC
        } else {
            PTE_READ | PTE_WRITE | PTE_EXEC | PTE_USER
        };
        proof {
            assert((0x01usize | 0x02usize | 0x04usize) & 0x10usize == 0usize) by (bit_vector);
            assert((0x01usize | 0x02usize | 0x04usize | 0x08usize) & 0x10usize == 0usize) by (bit_vector);
        }
        let mut cur = self.head;
        let mut level = self.levels - 1;
        loop
            invariant
                allocate,
                self.wf(),
                self.head == old(self).head,
                self.levels == old(self).levels,
                self.kernel == old(self).kernel,
                pte_flags == dir_flags(self.kernel),
                pte_flags & PTE_LARGE == 0,
                t0 == old(self)@.tables,
                d0 == old(self).depth@,
                top == self.levels - 1,
                tables_ok(t0, d0, self.head as int, self.levels as int),
                0 <= level < self.levels,
                cur < self@.tables.len(),
                self.depth@[cur as int] == level,
                reaches(self@.tables, self.head as int, virt, top, cur as int, level as int),
                changed_ok(t0, d0, self@.tables, self.depth@, pte_flags),
                fresh_ok(t0.len() as int, self@.tables, self.depth@),
                locate(old(self)@, virt) is Some ==> self@ == old(self)@ && self.depth@ == d0,
            decreases level,
        {
            let index = index_of(virt, level);
            proof {
                lemma_reaches_walk(self@.tables, self.head as int, virt, top, cur as int, level as int);
                self.lemma_view(cur as int);
            }
            if level == 0 {
                proof {
                    self.lemma_grows(t0, d0, pte_flags);
                }
                return Some((cur, index));
            }
            let e = self.tables[cur][index];
            if e.present {
                if e.large {
                    proof {
                        self.lemma_grows(t0, d0, pte_flags);
                    }
                    return Some((cur, index));
                }
                let n = self.tables.len();
                proof {
                    assert(n == self@.tables.len());
                    assert(self@.tables[cur as int][index as int] == e);
                    assert(e.address < self@.tables.len());
                    lemma_reaches_step(self@.tables, self.head as int, virt, top, cur as int, level as int);
                }
                cur = e.address as usize;
            } else {
                let ghost t1 = self@.tables;
                let ghost d1 = self.depth@;
                let next = self.tables.len();
                self.tables.push(zeroed_table());
                let ghost d15 = d1.push(level - 1);
                self.depth = Ghost(d15);
                let ghost t15 = self@.tables;
                assert(t15 =~= t1.push(Seq::new(ENTRIES as nat, |i: int| PageTableEntry::spec_empty())));
                let entry = PageTableEntry::new(next as u64, pte_flags);
                let mut row = self.tables.remove(cur);
                row.set(index, entry);
                self.tables.insert(cur, row);
                proof {
                    let t2 = self@.tables;
                    let d2 = self.depth@;
                    assert(t2 =~= t15.update(cur as int, t15[cur as int].update(index as int, entry)));
                    assert(tables_ok(t2, d2, self.head as int, self.levels as int)) by {
                        assert forall|k: int, i: int|
                            0 <= k < t2.len() && 0 <= i < ENTRIES && d2[k] >= 1 && (#[trigger] t2[k][i]).present implies {
                                &&& !t2[k][i].large
                                &&& t2[k][i].address < t2.len()
                                &&& d2[t2[k][i].address as int] == d2[k] - 1
                            } by {
                            if k == cur as int && i == index as int {
                            } else if k < t1.len() {
                                assert(t2[k][i] == t1[k][i]);
                            } else {
                                assert(t2[k][i] == PageTableEntry::spec_empty());
                            }
                        }
                        assert forall|k: int| 0 <= k < t2.len() implies 0 <= #[trigger] d2[k] < self.levels by {
                            if k < t1.len() {
                                assert(d2[k] == d1[k]);
                            }
                        }
                        assert forall|k1: int, i1: int, k2: int, i2: int|
                            0 <= k1 < t2.len() && 0 <= i1 < ENTRIES && 0 <= k2 < t2.len() && 0 <= i2 < ENTRIES
                                && d2[k1] >= 1 && d2[k2] >= 1 && (#[trigger] t2[k1][i1]).present
                                && (#[trigger] t2[k2][i2]).present && t2[k1][i1].address == t2[k2][i2].address implies k1
                            == k2 && i1 == i2 by {
                            let new1 = k1 == cur as int && i1 == index as int;
                            let new2 = k2 == cur as int && i2 == index as int;
                            if !new1 {
                                if k1 < t1.len() {
                                    assert(t2[k1][i1] == t1[k1][i1]);
                                    assert(d1[k1] >= 1);
                                } else {
                                    assert(t2[k1][i1] == PageTableEntry::spec_empty());
                                }
                            }
                            if !new2 {
                                if k2 < t1.len() {
                                    assert(t2[k2][i2] == t1[k2][i2]);
                                    assert(d1[k2] >= 1);
                                } else {
                                    assert(t2[k2][i2] == PageTableEntry::spec_empty());
                                }
                            }
                        }
                    }
                    assert(fresh_ok(t0.len() as int, t2, d2)) by {
                        assert forall|k: int, i: int| t0.len() <= k < t2.len() && 0 <= i < t2[k].len() && (#[trigger] t2[k][i]).present implies d2[k] >= 1 && t2[k][i].address >= t0.len() by {
                            if k == cur as int && i == index as int {
                            } else if k < t1.len() {
                                assert(t2[k][i] == t1[k][i]);
                                assert(d2[k] == d1[k]);
                            } else {
                                assert(t2[k][i] == PageTableEntry::spec_empty());
                            }
                        }
                    }
                    assert(keeps_present(t1, t2)) by {
                        assert forall|k: int, i: int| 0 <= k < t1.len() && 0 <= i < t1[k].len() && (#[trigger] t1[k][i]).present implies t2[k][i] == t1[k][i] by {
                            if k == cur as int && i == index as int {
                            }
                        }
                    }
                    lemma_reaches_kept(t1, d1, self.head as int, self.levels as int, t2, self.head as int, virt, top, cur as int, level as int);
                    assert(t2[cur as int][index as int] == entry);
                    lemma_reaches_step(t2, self.head as int, virt, top, cur as int, level as int);
                    assert(changed_ok(t0, d0, t2, d2, pte_flags)) by {
                        assert forall|k: int, i: int| 0 <= k < t0.len() && 0 <= i < t0[k].len() && #[trigger] t2[k][i] != t0[k][i] implies {
                            &&& !t0[k][i].present
                            &&& d0[k] >= 1
                            &&& t2[k][i].address >= t0.len()
                            &&& t2[k][i] == PageTableEntry::spec_new(t2[k][i].address, pte_flags)
                        } by {
                            if k == cur as int && i == index as int {
                                assert(t1[k][i] == t0[k][i] || t1[k][i].present);
                            } else {
                                assert(t2[k][i] == t1[k][i]);
                            }
                        }
                        assert forall|k: int| 0 <= k < t0.len() implies #[trigger] d2[k] == d0[k] by {
                            assert(d2[k] == d1[k]);
                        }
                        assert forall|k: int| 0 <= k < t0.len() implies (#[trigger] t2[k]).len() == t0[k].len() by {
                            assert(t1[k].len() == t0[k].len());
                        }
                    }
                    if locate(old(self)@, virt) is Some {
                        assert(false);
                    }
                }
                cur = next;
            }
            level = level - 1;
        }
    }

    proof fn lemma_grows(&self, t0: Seq<Seq<PageTableEntry>>, d0: Seq<int>, flags: usize)
        requires
            tables_ok(t0, d0, self.head as int, self.levels as int),
            self.wf(),
            changed_ok(t0, d0, self@.tables, self.depth@, flags),
            fresh_ok(t0.len() as int, self@.tables, self.depth@),
            flags == dir_flags(self.kernel),
        ensures
            grows(
                PageTableV { tables: t0, head: self.head as int, levels: self.levels as int, kernel: self.kernel },
                self@,
            ),
    {
        let a = PageTableV { tables: t0, head: self.head as int, levels: self.levels as int, kernel: self.kernel };
        let b = self@;
        assert(keeps_present(t0, b.tables)) by {
            assert forall|k: int, i: int| 0 <= k < t0.len() && 0 <= i < t0[k].len() && (#[trigger] t0[k][i]).present implies b.tables[k][i] == t0[k][i] by {
                if b.tables[k][i] != t0[k][i] {
                }
            }
        }
        assert forall|v2: u64| #[trigger] locate(a, v2) is Some implies ({
            let l = locate(a, v2)->0;
            locate(b, v2) == Some(l) && b.tables[l.0][l.1] == a.tables[l.0][l.1]
        }) by {
            lemma_walk_kept(t0, d0, a.head, a.levels, b.tables, a.head, v2, a.levels - 1);
        }
        assert forall|v2: u64| #[trigger] locate(b, v2) is Some && locate(a, v2) is None implies ({
            let l = locate(b, v2)->0;
            !b.tables[l.0][l.1].present
        }) by {
            lemma_walk_new(t0, d0, b.tables, self.depth@, flags, a.head, a.levels, a.head, v2, a.levels - 1);
        }
    }

    /// Maps the page of `virt` to the physical page `phys` with protection
    /// `flags`: every address of that page then translates through the new
    /// entry, and every other address as before.
    pub fn map_single(&mut self, virt: u64, phys: u64, flags: usize) -> (r: Result<(), Errno>)
        requires
            old(self).wf(),
        ensures
            final(self).wf(),
            r is Ok,
            final(self)@.head == old(self)@.head,
            final(self)@.levels == old(self)@.levels,
            final(self)@.kernel == old(self)@.kernel,
            lookup(final(self)@, virt) == Some(PageTableEntry::spec_new(phys, flags)),
            forall|v2: u64|
                same_page(v2, virt, old(self)@.levels) ==> #[trigger] lookup(final(self)@, v2) == Some(
                    PageTableEntry::spec_new(phys, flags),
                ),
            forall|v2: u64|
                #[trigger] mapped(final(self)@, v2) == (same_page(v2, virt, old(self)@.levels) || mapped(
                    old(self)@,
                    v2,
                )),
            forall|v2: u64|
                !same_page(v2, virt, old(self)@.levels) && mapped(old(self)@, v2) ==> #[trigger] lookup(
                    final(self)@,
                    v2,
                ) == lookup(old(self)@, v2),
    {
        let ghost a = self@;
        let loc = self.get_pte(virt, true);
        let (t, i) = match loc {
            Some(l) => l,
            None => return Ok(()),
        };
        let ghost m = self@;
        let ghost md = self.depth@;
        proof {
            lemma_walk_bounds(m.tables, md, m.head, m.levels, m.head, virt, m.levels - 1);
            self.lemma_view(t as int);
        }
        let entry = PageTableEntry::new(phys, flags);
        let mut row = self.tables.remove(t);
        row.set(i, entry);
        self.tables.insert(t, row);
        proof {
            let f = self@.tables;
            let top = m.levels - 1;
            assert(f =~= m.tables.update(t as int, m.tables[t as int].update(i as int, entry)));
            assert(tables_ok(f, md, m.head, m.levels)) by {
                assert forall|k: int, j: int|
                    0 <= k < f.len() && 0 <= j < ENTRIES && md[k] >= 1 && (#[trigger] f[k][j]).present implies {
                        &&& !f[k][j].large
                        &&& f[k][j].address < f.len()
                        &&& md[f[k][j].address as int] == md[k] - 1
                    } by {
                    assert(k != t as int);
                    assert(f[k][j] == m.tables[k][j]);
                }
                assert forall|k1: int, i1: int, k2: int, i2: int|
                    0 <= k1 < f.len() && 0 <= i1 < ENTRIES && 0 <= k2 < f.len() && 0 <= i2 < ENTRIES && md[k1]
                        >= 1 && md[k2] >= 1 && (#[trigger] f[k1][i1]).present && (#[trigger] f[k2][i2]).present
                        && f[k1][i1].address == f[k2][i2].address implies k1 == k2 && i1 == i2 by {
                    assert(f[k1][i1] == m.tables[k1][i1]);
                    assert(f[k2][i2] == m.tables[k2][i2]);
                }
            }
            assert forall|v2: u64| locate(self@, v2) == locate(m, v2) by {
                lemma_walk_leaf_update(m.tables, md, m.head, m.levels, t as int, i as int, entry, m.head, v2, top);
            }
            let w = (t as int, i as int);
            assert(locate(self@, virt) == Some(w));
            assert(f[w.0][w.1] == entry);
            assert forall|v2: u64| same_page(v2, virt, a.levels) implies #[trigger] lookup(self@, v2) == Some(entry) by {
                assert(forall|j: int| 0 <= j <= top ==> #[trigger] index_at(v2, j) == index_at(virt, j));
                lemma_walk_same(f, m.head, v2, virt, top);
            }
            assert forall|v2: u64| #[trigger] mapped(self@, v2) == (same_page(v2, virt, a.levels) || mapped(a, v2)) by {
                lemma_walk_bounds(m.tables, md, m.head, m.levels, m.head, v2, top);
                if same_page(v2, virt, a.levels) {
                    assert(lookup(self@, v2) == Some(entry));
                }
                if mapped(a, v2) {
                    let l = locate(a, v2)->0;
                    assert(locate(m, v2) == Some(l));
                    if l != w {
                        assert(f[l.0][l.1] == m.tables[l.0][l.1]);
                    }
                }
                if mapped(self@, v2) {
                    let l = locate(self@, v2)->0;
                    if l == w {
                        lemma_walk_inj(f, md, m.head, m.levels, m.head, m.head, v2, virt, top);
                    } else {
                        assert(f[l.0][l.1] == m.tables[l.0][l.1]);
                        if locate(a, v2) is Some {
                            assert(locate(m, v2) == locate(a, v2));
                        }
                    }
                }
            }
            assert forall|v2: u64| !same_page(v2, virt, a.levels) && mapped(a, v2) implies #[trigger] lookup(self@, v2) == lookup(a, v2) by {
                let l = locate(a, v2)->0;
                assert(locate(m, v2) == Some(l));
                lemma_walk_bounds(m.tables, md, m.head, m.levels, m.head, v2, top);
                if l == w {
                    lemma_walk_inj(f, md, m.head, m.levels, m.head, m.head, v2, virt, top);
                } else {
                    assert(f[l.0][l.1] == m.tables[l.0][l.1]);
                }
            }
        }
        Ok(())
    }

    /// Removes the mapping of `virt`; mappings are not torn down, so the
    /// tables stay as they are.
    pub fn unmap(&mut self, virt: u64) -> (r: Result<(), Errno>)
        ensures
            r is Ok,
            final(self)@ == old(self)@,
            final(self).wf() == old(self).wf(),
    {
        Ok(())
    }

    /// Whether `virt` is mapped.
    pub fn is_mapped(&self, virt: u64) -> (r: bool)
        requires
            self.wf(),
        ensures
            r == mapped(self@, virt),
    {
        match self.find_pte(virt) {
            Some((t, i)) => {
                proof {
                    lemma_walk_bounds(self@.tables, self.depth@, self@.head, self@.levels, self@.head, virt, self@.levels - 1);
                    self.lemma_view(t as int);
                }
                self.tables[t][i].present
            },
            None => false,
        }
    }

    /// The entry at index `i` of table `t`.
    pub fn entry(&self, t: usize, i: usize) -> (r: PageTableEntry)
        requires
            self.wf(),
            t < self@.tables.len(),
            i < ENTRIES,
        ensures
            r == self@.tables[t as int][i as int],
    {
        proof {
            self.lemma_view(t as int);
        }
        self.tables[t][i]
    }
}

/// A zeroed page as a table: no entry is present.
fn zeroed_table() -> (r: Vec<PageTableEntry>)
    ensures
        r@ == Seq::new(ENTRIES as nat, |i: int| PageTableEntry::spec_empty()),
{
    let mut v: Vec<PageTableEntry> = Vec::new();
    let mut k: usize = 0;
    while k < ENTRIES
        invariant
            k <= ENTRIES,
            v@ == Seq::new(k as nat, |i: int| PageTableEntry::spec_empty()),
        decreases ENTRIES - k,
    {
        v.push(PageTableEntry::empty());
        k = k + 1;
        assert(v@ =~= Seq::new(k as nat, |i: int| PageTableEntry::spec_empty()));
    }
    v
}

/// The index into the table of `level` that `virt` selects.
fn index_of(virt: u64, level: usize) -> (r: usize)
    requires
        level < 5,
    ensures
        r == index_at(virt, level as int),
        r < ENTRIES,
{
    let shift: u64 = PAGE_BITS + LEVEL_BITS * (level as u64);
    let i = (virt >> shift) & INDEX_MASK;
    proof {
        lemma_index_bound(virt, level as int);
    }
    i as usize
}

} // verus!

verus! {

/// The size of a page.
pub const PAGE_SIZE: u64 = 4096;
/// Where the direct map of physical memory starts.
pub const HHDM_BASE: u64 = 0xffff800000000000;
/// How much physical memory the direct map covers.
pub const HHDM_SIZE: u64 = 0x10000000;

/// `w` is one of the pages of `[start, end)` stepped from `start`.
pub open spec fn in_range(start: u64, end: u64, w: u64) -> bool {
    start <= w < end && (w - start) % (PAGE_SIZE as int) == 0
}

/// The addresses mapped in `v` are exactly those in the page of some `w`
/// with `covered(w)`.
pub open spec fn maps_exactly(v: PageTableV, covered: spec_fn(u64) -> bool) -> bool {
    forall|x: u64| #[trigger] mapped(v, x) == exists|w: u64| covered(w) && same_page(x, w, v.levels)
}

proof fn lemma_cover_step(a: PageTableV, b: PageTableV, virt: u64, before: spec_fn(u64) -> bool, after: spec_fn(u64) -> bool)
    requires
        b.levels == a.levels,
        forall|x: u64| #[trigger] mapped(b, x) == (same_page(x, virt, a.levels) || mapped(a, x)),
        maps_exactly(a, before),
        forall|w: u64| #[trigger] after(w) == (before(w) || w == virt),
    ensures
        maps_exactly(b, after),
{
    assert forall|x: u64| #[trigger] mapped(b, x) == exists|w: u64| after(w) && same_page(x, w, b.levels) by {
        if mapped(b, x) {
            if same_page(x, virt, a.levels) {
                assert(after(virt) && same_page(x, virt, b.levels));
            } else {
                assert(mapped(a, x));
                let w = choose|w: u64| before(w) && same_page(x, w, a.levels);
                assert(after(w) && same_page(x, w, b.levels));
            }
        }
        if exists|w: u64| after(w) && same_page(x, w, b.levels) {
            let w = choose|w: u64| after(w) && same_page(x, w, b.levels);
            if w != virt {
                assert(before(w) && same_page(x, w, a.levels));
                assert(mapped(a, x));
            }
        }
    }
}

/// Distinct pages of `[start, end)` are distinct pages of the table.
pub open spec fn distinct_pages(start: u64, end: u64, levels: int) -> bool {
    forall|w1: u64, w2: u64| in_range(start, end, w1) && in_range(start, end, w2) && w1 != w2 ==> !same_page(w1, w2, levels)
}

/// No page of `[start, end)` is the page of `x`.
pub open spec fn apart(start: u64, end: u64, x: u64, levels: int) -> bool {
    forall|w: u64| #[trigger] in_range(start, end, w) ==> !same_page(x, w, levels)
}

/// No page of segment `a` is a page of segment `b`.
pub open spec fn segments_apart(a: (u64, u64), b: (u64, u64), levels: int) -> bool {
    forall|x: u64| #[trigger] in_range(a.0, a.1, x) ==> apart(b.0, b.1, x, levels)
}

/// Maps each page `w` of `[start, end)` to `w - start + phys`.
fn map_range(table: &mut PageTable, start: u64, end: u64, phys: u64, flags: usize, Ghost(before): Ghost<spec_fn(u64) -> bool>)
    requires
        old(table).wf(),
        start <= end,
        end + PAGE_SIZE <= u64::MAX,
        end - start + phys <= u64::MAX,
        maps_exactly(old(table)@, before),
    ensures
        final(table).wf(),
        final(table)@.head == old(table)@.head,
        final(table)@.levels == old(table)@.levels,
        final(table)@.kernel == old(table)@.kernel,
        maps_exactly(final(table)@, |w: u64| before(w) || in_range(start, end, w)),
        distinct_pages(start, end, old(table)@.levels) ==> forall|w: u64| #[trigger] in_range(start, end, w) ==> lookup(final(table)@, w) == Some(PageTableEntry::spec_new((w - start + phys) as u64, flags)),
        forall|x: u64| mapped(old(table)@, x) && apart(start, end, x, old(table)@.levels) ==> #[trigger] lookup(final(table)@, x) == lookup(old(table)@, x),
{
    let ghost levels = table@.levels;
    let mut v = start;
    while v < end
        invariant
            table.wf(),
            table@.head == old(table)@.head,
            table@.levels == levels,
            levels == old(table)@.levels,
            table@.kernel == old(table)@.kernel,
            start <= v,
            v <= end + PAGE_SIZE,
            end + PAGE_SIZE <= u64::MAX,
            end - start + phys <= u64::MAX,
            (v - start) % (PAGE_SIZE as int) == 0,
            maps_exactly(table@, |w: u64| before(w) || (in_range(start, end, w) && w < v)),
            distinct_pages(start, end, levels) ==> forall|w: u64| #[trigger] in_range(start, end, w) && w < v ==> lookup(table@, w) == Some(PageTableEntry::spec_new((w - start + phys) as u64, flags)),
            forall|x: u64| mapped(old(table)@, x) && apart(start, end, x, levels) ==> #[trigger] lookup(table@, x) == lookup(old(table)@, x),
        decreases end + PAGE_SIZE - v,
    {
        let ghost a = table@;
        let target = v - start + phys;
        table.map_single(v, target, flags);
        proof {
            let b = table@;
            let bf = |w: u64| before(w) || (in_range(start, end, w) && w < v);
            let af = |w: u64| before(w) || (in_range(start, end, w) && w < v + PAGE_SIZE);
            assert forall|w: u64| #[trigger] af(w) == (bf(w) || w == v) by {
                if in_range(start, end, w) && w < v + PAGE_SIZE && w >= v {
                    assert(w == v);
                }
            }
            lemma_cover_step(a, b, v, bf, af);
            assert forall|x: u64| mapped(old(table)@, x) && apart(start, end, x, levels) implies #[trigger] lookup(b, x) == lookup(old(table)@, x) by {
                assert(in_range(start, end, v));
                assert(!same_page(x, v, levels));
                assert(lookup(a, x) == lookup(old(table)@, x));
                assert(mapped(a, x));
            }
            if distinct_pages(start, end, levels) {
                assert forall|w: u64| #[trigger] in_range(start, end, w) && w < v + PAGE_SIZE implies lookup(b, w) == Some(PageTableEntry::spec_new((w - start + phys) as u64, flags)) by {
                    if w < v {
                        assert(!same_page(w, v, levels));
                        assert(mapped(a, w));
                    } else {
                        assert(w == v);
                    }
                }
            }
        }
        v = v + PAGE_SIZE;
    }
    proof {
        let f1 = |w: u64| before(w) || (in_range(start, end, w) && w < v);
        let f2 = |w: u64| before(w) || in_range(start, end, w);
        assert(maps_exactly(table@, f1));
        assert(f1 =~= f2);
    }
}

} // verus!

verus! {

/// A kernel segment `[start, end)` can be mapped at `offset` from the
/// kernel's physical address `phys`.
pub open spec fn segment_ok(s: (u64, u64), offset: u64, phys: u64) -> bool {
    &&& offset <= s.0 <= s.1
    &&& s.1 + PAGE_SIZE <= u64::MAX
    &&& s.1 - offset + phys <= u64::MAX
}

/// The pages the kernel's table maps: those of its text, rodata and data
/// segments, and those of the direct map.
pub open spec fn kernel_page(text: (u64, u64), rodata: (u64, u64), data: (u64, u64), w: u64) -> bool {
    ||| in_range(text.0, text.1, w)
    ||| in_range(rodata.0, rodata.1, w)
    ||| in_range(data.0, data.1, w)
    ||| in_range(HHDM_BASE, (HHDM_BASE + HHDM_SIZE) as u64, w)
}

/// The direct map's range of virtual addresses.
pub open spec fn hhdm_segment() -> (u64, u64) {
    (HHDM_BASE, (HHDM_BASE + HHDM_SIZE) as u64)
}

/// The pages of the direct map are distinct pages of a table of two or
/// more levels.
proof fn lemma_hhdm_distinct(levels: int)
    requires
        levels >= 2,
    ensures
        distinct_pages(HHDM_BASE, (HHDM_BASE + HHDM_SIZE) as u64, levels),
{
    assert forall|w1: u64, w2: u64|
        in_range(HHDM_BASE, (HHDM_BASE + HHDM_SIZE) as u64, w1) && in_range(HHDM_BASE, (HHDM_BASE + HHDM_SIZE) as u64, w2)
            && w1 != w2 implies !same_page(w1, w2, levels) by {
        assert(((w1 >> 12u64) & 0x1ffu64) != ((w2 >> 12u64) & 0x1ffu64) || ((w1 >> 21u64) & 0x1ffu64) != ((w2
            >> 21u64) & 0x1ffu64)) by (bit_vector)
            requires
                0xffff800000000000u64 <= w1 < 0xffff800010000000u64,
                0xffff800000000000u64 <= w2 < 0xffff800010000000u64,
                (w1 - 0xffff800000000000u64) % 4096 == 0,
                (w2 - 0xffff800000000000u64) % 4096 == 0,
                w1 != w2,
        ;
        assert(index_at(w1, 0) == ((w1 >> 12u64) & 0x1ffu64) as int);
        assert(index_at(w1, 1) == ((w1 >> 21u64) & 0x1ffu64) as int);
        assert(index_at(w2, 0) == ((w2 >> 12u64) & 0x1ffu64) as int);
        assert(index_at(w2, 1) == ((w2 >> 21u64) & 0x1ffu64) as int);
        if index_at(w1, 0) == index_at(w2, 0) {
            assert(index_at(w1, 1) != index_at(w2, 1));
        }
    }
}

/// Builds the kernel's page table: its text (readable, executable),
/// rodata (readable) and data (readable, writable) segments are mapped at
/// `kernel_phys + (page - offset)`, and the first `HHDM_SIZE` bytes of
/// physical memory (readable, writable) at `HHDM_BASE`. No other page is
/// mapped.
pub fn init(
    levels: usize,
    kernel_phys: u64,
    offset: u64,
    text: (u64, u64),
    rodata: (u64, u64),
    data: (u64, u64),
) -> (r: PageTable)
    requires
        1 <= levels <= 5,
        segment_ok(text, offset, kernel_phys),
        segment_ok(rodata, offset, kernel_phys),
        segment_ok(data, offset, kernel_phys),
    ensures
        r.wf(),
        r@.kernel,
        r@.levels == levels,
        maps_exactly(r@, |w: u64| kernel_page(text, rodata, data, w)),
        levels >= 2 ==> forall|w: u64|
            #[trigger] in_range(HHDM_BASE, (HHDM_BASE + HHDM_SIZE) as u64, w) ==> lookup(r@, w) == Some(
                PageTableEntry::spec_new((w - HHDM_BASE) as u64, PTE_READ | PTE_WRITE),
            ),
        distinct_pages(text.0, text.1, levels as int) && segments_apart(text, rodata, levels as int)
            && segments_apart(text, data, levels as int) && segments_apart(text, hhdm_segment(), levels as int)
            ==> forall|w: u64| #[trigger] in_range(text.0, text.1, w) ==> lookup(r@, w) == Some(
            PageTableEntry::spec_new((w - offset + kernel_phys) as u64, PTE_READ | PTE_EXEC),
        ),
        distinct_pages(rodata.0, rodata.1, levels as int) && segments_apart(rodata, data, levels as int)
            && segments_apart(rodata, hhdm_segment(), levels as int) ==> forall|w: u64| #[trigger] in_range(
            rodata.0,
            rodata.1,
            w,
        ) ==> lookup(r@, w) == Some(PageTableEntry::spec_new((w - offset + kernel_phys) as u64, PTE_READ)),
        distinct_pages(data.0, data.1, levels as int) && segments_apart(data, hhdm_segment(), levels as int)
            ==> forall|w: u64| #[trigger] in_range(data.0, data.1, w) ==> lookup(r@, w) == Some(
            PageTableEntry::spec_new((w - offset + kernel_phys) as u64, PTE_READ | PTE_WRITE),
        ),
{
    let mut table = PageTable::new(levels, true);
    let ghost f0 = |w: u64| false;
    let ghost f1 = |w: u64| f0(w) || in_range(text.0, text.1, w);
    let ghost f2 = |w: u64| f1(w) || in_range(rodata.0, rodata.1, w);
    let ghost f3 = |w: u64| f2(w) || in_range(data.0, data.1, w);
    assert(maps_exactly(table@, f0));
    map_range(&mut table, text.0, text.1, text.0 - offset + kernel_phys, PTE_READ | PTE_EXEC, Ghost(f0));
    let ghost t1 = table@;
    assert(maps_exactly(table@, f1));
    map_range(&mut table, rodata.0, rodata.1, rodata.0 - offset + kernel_phys, PTE_READ, Ghost(f1));
    let ghost t2 = table@;
    assert(maps_exactly(table@, f2));
    map_range(&mut table, data.0, data.1, data.0 - offset + kernel_phys, PTE_READ | PTE_WRITE, Ghost(f2));
    let ghost t3 = table@;
    assert(maps_exactly(table@, f3));
    map_range(&mut table, HHDM_BASE, HHDM_BASE + HHDM_SIZE, 0, PTE_READ | PTE_WRITE, Ghost(f3));
    proof {
        let lv = levels as int;
        let hh = hhdm_segment();
        if distinct_pages(text.0, text.1, lv) && segments_apart(text, rodata, lv) && segments_apart(text, data, lv)
            && segments_apart(text, hh, lv) {
            assert forall|w: u64| #[trigger] in_range(text.0, text.1, w) implies lookup(table@, w) == Some(
                PageTableEntry::spec_new((w - offset + kernel_phys) as u64, PTE_READ | PTE_EXEC),
            ) by {
                assert(lookup(t1, w) == Some(PageTableEntry::spec_new((w - text.0 + (text.0 - offset + kernel_phys)) as u64, PTE_READ | PTE_EXEC)));
                assert(apart(rodata.0, rodata.1, w, lv));
                assert(apart(data.0, data.1, w, lv));
                assert(apart(hh.0, hh.1, w, lv));
            }
        }
        if distinct_pages(rodata.0, rodata.1, lv) && segments_apart(rodata, data, lv) && segments_apart(rodata, hh, lv) {
            assert forall|w: u64| #[trigger] in_range(rodata.0, rodata.1, w) implies lookup(table@, w) == Some(
                PageTableEntry::spec_new((w - offset + kernel_phys) as u64, PTE_READ),
            ) by {
                assert(lookup(t2, w) == Some(PageTableEntry::spec_new((w - rodata.0 + (rodata.0 - offset + kernel_phys)) as u64, PTE_READ)));
                assert(apart(data.0, data.1, w, lv));
                assert(apart(hh.0, hh.1, w, lv));
            }
        }
        if distinct_pages(data.0, data.1, lv) && segments_apart(data, hh, lv) {
            assert forall|w: u64| #[trigger] in_range(data.0, data.1, w) implies lookup(table@, w) == Some(
                PageTableEntry::spec_new((w - offset + kernel_phys) as u64, PTE_READ | PTE_WRITE),
            ) by {
                assert(lookup(t3, w) == Some(PageTableEntry::spec_new((w - data.0 + (data.0 - offset + kernel_phys)) as u64, PTE_READ | PTE_WRITE)));
                assert(apart(hh.0, hh.1, w, lv));
            }
        }
        let f4 = |w: u64| f3(w) || in_range(HHDM_BASE, (HHDM_BASE + HHDM_SIZE) as u64, w);
        assert(maps_exactly(table@, f4));
        assert(f4 =~= |w: u64| kernel_page(text, rodata, data, w));
        if levels >= 2 {
            lemma_hhdm_distinct(levels as int);
        }
    }
    table
}

} // verus!
