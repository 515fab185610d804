//! Memory objects backed by pages, the physical memory map, and the
//! descriptions of user memory that system calls receive.
use vstd::prelude::*;
use core::marker::PhantomData;
use std::collections::BTreeMap;

verus! {

broadcast use vstd::std_specs::btree::group_btree_axioms;

/// Describes how a memory region is used.
#[derive(Clone, Copy, Debug, PartialEq, Eq, Structural)]
pub enum PhysMemoryUsage {
    /// Free and usable memory.
    Free,
    /// Memory reserved by the System.
    Reserved,
    /// Used by boot loader structures.
    Bootloader,
    /// Kernel and modules are loaded here.
    Kernel,
    /// Unknown memory region.
    Unknown,
}

impl Default for PhysMemoryUsage {
    fn default() -> (r: Self)
        ensures
            r == PhysMemoryUsage::Unknown,
    {
        PhysMemoryUsage::Unknown
    }
}

/// Describes a region of physical memory.
#[derive(Clone, Copy, Debug)]
pub struct PhysMemory {
    /// Start address of the memory region.
    pub address: usize,
    /// Length of the memory region in bytes.
    pub length: usize,
    /// How this memory region is used.
    pub usage: PhysMemoryUsage,
}

impl PhysMemory {
    pub fn new() -> (r: Self)
        ensures
            r.address == 0,
            r.length == 0,
            r.usage == PhysMemoryUsage::Unknown,
    {
        PhysMemory { address: 0, length: 0, usage: PhysMemoryUsage::Unknown }
    }
}

/// The page sizes a mapping can use.
#[derive(Clone, Copy, Debug, PartialEq, Eq, Structural)]
pub enum VmLevel {
    /// The smallest page size available.
    Small,
    /// A page size between `Small` and `Large`.
    Medium,
    /// The largest page size available.
    Large,
}

pub open spec fn region_end(m: PhysMemory) -> int {
    m.address + m.length
}

/// The end of the highest region of the memory map, or 0 for an empty map.
pub open spec fn highest_end(map: Seq<PhysMemory>) -> int
    decreases map.len(),
{
    if map.len() == 0 {
        0
    } else {
        let rest = highest_end(map.drop_last());
        if region_end(map.last()) > rest { region_end(map.last()) } else { rest }
    }
}

/// The highest physical address the memory map reaches: how much of
/// physical memory gets mapped.
pub fn highest_region_end(map: &Vec<PhysMemory>) -> (r: usize)
    requires
        forall|i: int| 0 <= i < map@.len() ==> region_end(#[trigger] map@[i]) <= usize::MAX,
    ensures
        r == highest_end(map@),
{
    let mut highest: usize = 0;
    let mut i: usize = 0;
    assert(map@.take(0) =~= Seq::<PhysMemory>::empty());
    while i < map.len()
        invariant
            i <= map@.len(),
            forall|k: int| 0 <= k < map@.len() ==> region_end(#[trigger] map@[k]) <= usize::MAX,
            highest == highest_end(map@.take(i as int)),
        decreases map.len() - i,
    {
        assert(region_end(map@[i as int]) <= usize::MAX);
        let end = map[i].address + map[i].length;
        assert(map@.take(i + 1).drop_last() =~= map@.take(i as int));
        if end > highest {
            highest = end;
        }
        i = i + 1;
    }
    assert(map@.take(map@.len() as int) =~= map@);
    highest
}

/// Errors that can occur when reading or writing a page.
#[derive(Clone, Copy, Debug, PartialEq, Eq, Structural)]
pub enum PagerError {
    /// The page at a given index is out of bounds.
    IndexOutOfBounds,
    /// The pager cannot allocate pages.
    OutOfMemory,
}

/// Used to get new data for a memory object.
pub trait Pager {
    /// Checks to see if the pager has data at the given offset.
    fn has_page(&self, page_index: usize) -> bool;
    /// Attempts to get a page at an index.
    fn try_get_page(&self, page_index: usize) -> Result<usize, PagerError>;
    /// Attempts to write a page at an index back to the device.
    fn try_put_page(&self, address: usize, page_index: usize) -> Result<(), PagerError>;
}

/// Memory whose pages can be found by their index.
pub trait MemoryObject {
    /// The pages asked of this object so far, each with its answer, in the
    /// order they were asked.
    spec fn requests(&self) -> Seq<(usize, Option<usize>)>;

    /// Attempts to get the physical address of a page with a relative index
    /// into this object, or `None` if the page is out of bounds.
    fn try_get_page(&mut self, page_index: usize) -> (r: Option<usize>)
        ensures
            final(self).requests() == old(self).requests().push((page_index, r)),
    ;
}

/// A memory object that asks a pager for each page once and remembers it.
pub struct PagedMemoryObject<P> {
    pages: BTreeMap<usize, usize>,
    source: P,
    asked: Ghost<Seq<(usize, Option<usize>)>>,
}

impl<P: Pager> PagedMemoryObject<P> {
    /// The pages obtained so far, by index.
    pub closed spec fn pages(&self) -> Map<usize, usize> {
        self.pages@
    }

    /// The pages asked of the object so far, with their answers.
    pub closed spec fn asked(&self) -> Seq<(usize, Option<usize>)> {
        self.asked@
    }

    /// Creates a new object, without making allocations.
    pub fn new(source: P) -> (r: Self)
        ensures
            r.pages() == Map::<usize, usize>::empty(),
            r.asked() == Seq::<(usize, Option<usize>)>::empty(),
    {
        PagedMemoryObject { pages: BTreeMap::new(), source, asked: Ghost(Seq::empty()) }
    }

    /// The page at an index: the one obtained before, or else the pager's,
    /// which is then kept. `None` where the pager has none.
    pub fn get_page(&mut self, page_index: usize) -> (r: Option<usize>)
        ensures
            old(self).pages().contains_key(page_index) ==> r == Some(old(self).pages()[page_index])
                && final(self).pages() == old(self).pages(),
            !old(self).pages().contains_key(page_index) ==> match r {
                Some(x) => final(self).pages() == old(self).pages().insert(page_index, x),
                None => final(self).pages() == old(self).pages(),
            },
            final(self).asked() == old(self).asked().push((page_index, r)),
    {
        let r = match self.pages.get(&page_index) {
            Some(page) => Some(*page),
            None => match self.source.try_get_page(page_index) {
                Ok(x) => {
                    self.pages.insert(page_index, x);
                    Some(x)
                },
                Err(_) => None,
            },
        };
        self.asked = Ghost(self.asked@.push((page_index, r)));
        r
    }
}

impl<P: Pager> MemoryObject for PagedMemoryObject<P> {
    open spec fn requests(&self) -> Seq<(usize, Option<usize>)> {
        self.asked()
    }

    /// The page obtained before, or else the pager's, which is then kept.
    fn try_get_page(&mut self, page_index: usize) -> (r: Option<usize>)
        ensures
            old(self).pages().contains_key(page_index) ==> r == Some(old(self).pages()[page_index])
                && final(self).pages() == old(self).pages(),
            !old(self).pages().contains_key(page_index) ==> match r {
                Some(x) => final(self).pages() == old(self).pages().insert(page_index, x),
                None => final(self).pages() == old(self).pages(),
            },
    {
        self.get_page(page_index)
    }
}

/// One step of a copy between a buffer and a memory object: `size` bytes
/// at `progress` in the buffer and at `misalign` in page `page_index`.
#[derive(Clone, Copy, Debug, PartialEq, Eq, Structural)]
pub struct Chunk {
    pub page_index: usize,
    pub misalign: usize,
    pub progress: usize,
    pub size: usize,
}

/// The chunk that starts at `progress`: to the end of the page or of the
/// buffer, whichever comes first.
pub open spec fn chunk_at(progress: int, len: int, offset: int, page_size: int) -> Chunk {
    let misalign = (progress + offset) % page_size;
    let size = if page_size - misalign < len - progress { page_size - misalign } else { len - progress };
    Chunk {
        page_index: ((progress + offset) / page_size) as usize,
        misalign: misalign as usize,
        progress: progress as usize,
        size: size as usize,
    }
}

/// The chunks that cover the buffer from `progress` to `len`.
pub open spec fn chunks_from(progress: int, len: int, offset: int, page_size: int) -> Seq<Chunk>
    decreases len - progress,
{
    if progress >= len || progress < 0 || offset < 0 || offset + len > usize::MAX || page_size <= 0
        || page_size > usize::MAX {
        Seq::empty()
    } else {
        let c = chunk_at(progress, len, offset, page_size);
        proof {
            lemma_chunk_size(progress, len, offset, page_size);
        }
        seq![c] + chunks_from(progress + c.size, len, offset, page_size)
    }
}

pub proof fn lemma_chunk_size(progress: int, len: int, offset: int, page_size: int)
    requires
        0 <= progress < len,
        offset >= 0,
        offset + len <= usize::MAX,
        0 < page_size <= usize::MAX,
    ensures
        1 <= chunk_at(progress, len, offset, page_size).size <= len - progress,
        chunk_at(progress, len, offset, page_size).size == (if page_size - (progress + offset) % page_size
            < len - progress {
            page_size - (progress + offset) % page_size
        } else {
            len - progress
        }),
        0 <= (progress + offset) % page_size < page_size,
        (progress + offset) / page_size <= progress + offset,
{
    vstd::arithmetic::div_mod::lemma_mod_bound(progress + offset, page_size);
    vstd::arithmetic::div_mod::lemma_div_is_ordered_by_denominator(progress + offset, 1, page_size);
    vstd::arithmetic::div_mod::lemma_div_basics(progress + offset);
}

/// A chunk together with the physical page it goes to.
#[derive(Clone, Copy, Debug)]
pub struct PageCopy {
    pub phys: usize,
    pub chunk: Chunk,
}

/// The pages a transfer asks for, with the answers: one for each copy
/// made, then the page that was missing, if the transfer stopped early.
pub open spec fn transfer_requests(cs: Seq<Chunk>, copies: Seq<PageCopy>) -> Seq<(usize, Option<usize>)> {
    let got = copies.map_values(|c: PageCopy| (c.chunk.page_index, Some(c.phys)));
    if copies.len() < cs.len() {
        got.push((cs[copies.len() as int].page_index, None))
    } else {
        got
    }
}

/// A transfer of `len` bytes at `offset`: the copies follow the chunks in
/// order, each with the page the object gave for its chunk; the object was
/// asked for exactly those pages and, where the copies stop short, for the
/// next one, which it did not have; `done` is where the copies stop.
pub open spec fn transferred(
    len: usize,
    offset: usize,
    page_size: usize,
    done: usize,
    copies: Seq<PageCopy>,
    before: Seq<(usize, Option<usize>)>,
    after: Seq<(usize, Option<usize>)>,
) -> bool {
    let cs = chunks_from(0, len as int, offset as int, page_size as int);
    &&& copies.len() <= cs.len()
    &&& forall|k: int| 0 <= k < copies.len() ==> (#[trigger] copies[k]).chunk == cs[k]
    &&& done == (if copies.len() == cs.len() { len as int } else { cs[copies.len() as int].progress as int })
    &&& after == before + transfer_requests(cs, copies)
}

/// Plans a transfer of `len` bytes at `offset` in a memory object: the
/// chunks in order, each with the page that the object gives for it,
/// stopping at the first page it does not have. Gives the number of bytes
/// transferred and the copies to make. Reading and writing transfer alike.
pub fn transfer<M: MemoryObject>(obj: &mut M, len: usize, offset: usize, page_size: usize) -> (r: (usize, Vec<PageCopy>))
    requires
        page_size > 0,
        offset + len <= usize::MAX,
    ensures
        transferred(len, offset, page_size, r.0, r.1@, old(obj).requests(), final(obj).requests()),
{
    let ghost cs = chunks_from(0, len as int, offset as int, page_size as int);
    let mut progress: usize = 0;
    let mut copies: Vec<PageCopy> = Vec::new();
    while progress < len
        invariant
            page_size > 0,
            offset + len <= usize::MAX,
            progress <= len,
            cs == chunks_from(0, len as int, offset as int, page_size as int),
            cs == copies@.map_values(|c: PageCopy| c.chunk) + chunks_from(progress as int, len as int, offset as int, page_size as int),
            obj.requests() == old(obj).requests() + copies@.map_values(
                |c: PageCopy| (c.chunk.page_index, Some(c.phys)),
            ),
        decreases len - progress,
    {
        proof {
            lemma_chunk_size(progress as int, len as int, offset as int, page_size as int);
        }
        let pos = progress + offset;
        let misalign = pos % page_size;
        let page_index = pos / page_size;
        let room = page_size - misalign;
        let copy_size = if room < len - progress { room } else { len - progress };
        let chunk = Chunk { page_index, misalign, progress, size: copy_size };
        assert(chunk == chunk_at(progress as int, len as int, offset as int, page_size as int));
        match obj.try_get_page(page_index) {
            Some(phys) => {
                let ghost before = copies@.map_values(|c: PageCopy| c.chunk);
                let ghost asked = copies@.map_values(|c: PageCopy| (c.chunk.page_index, Some(c.phys)));
                copies.push(PageCopy { phys, chunk });
                proof {
                    assert(copies@.map_values(|c: PageCopy| c.chunk) =~= before.push(chunk));
                    assert(copies@.map_values(|c: PageCopy| (c.chunk.page_index, Some(c.phys))) =~= asked.push(
                        (page_index, Some(phys)),
                    ));
                    assert(old(obj).requests() + asked.push((page_index, Some(phys))) =~= (old(obj).requests()
                        + asked).push((page_index, Some(phys))));
                    assert(before + chunks_from(progress as int, len as int, offset as int, page_size as int)
                        =~= before.push(chunk) + chunks_from(progress + copy_size, len as int, offset as int, page_size as int));
                }
                progress = progress + copy_size;
            },
            None => {
                proof {
                    let n = copies@.len() as int;
                    assert(cs[n] == (copies@.map_values(|c: PageCopy| c.chunk) + chunks_from(progress as int, len as int, offset as int, page_size as int))[n]);
                    assert(forall|k: int| 0 <= k < n ==> cs[k] == copies@.map_values(|c: PageCopy| c.chunk)[k]);
                    let asked = copies@.map_values(|c: PageCopy| (c.chunk.page_index, Some(c.phys)));
                    assert(cs[n] == chunk);
                    assert(old(obj).requests() + asked.push((page_index, None)) =~= (old(obj).requests()
                        + asked).push((page_index, None)));
                }
                return (progress, copies);
            },
        }
    }
    proof {
        assert(chunks_from(progress as int, len as int, offset as int, page_size as int) =~= Seq::<Chunk>::empty());
        assert(cs =~= copies@.map_values(|c: PageCopy| c.chunk));
        assert forall|k: int| 0 <= k < copies@.len() implies (#[trigger] copies@[k]).chunk == cs[k] by {
            assert(copies@.map_values(|c: PageCopy| c.chunk)[k] == copies@[k].chunk);
        }
    }
    (progress, copies)
}

/// Reads from a memory object into a buffer of `len` bytes: the copies to
/// make and the number of bytes read. Reading out of bounds reads nothing.
pub fn read<M: MemoryObject>(obj: &mut M, len: usize, offset: usize, page_size: usize) -> (r: (usize, Vec<PageCopy>))
    requires
        page_size > 0,
        offset + len <= usize::MAX,
    ensures
        transferred(len, offset, page_size, r.0, r.1@, old(obj).requests(), final(obj).requests()),
{
    transfer(obj, len, offset, page_size)
}

/// Writes a buffer of `len` bytes into a memory object: the copies to make
/// and the number of bytes written. Writing out of bounds writes nothing.
pub fn write<M: MemoryObject>(obj: &mut M, len: usize, offset: usize, page_size: usize) -> (r: (usize, Vec<PageCopy>))
    requires
        page_size > 0,
        offset + len <= usize::MAX,
    ensures
        transferred(len, offset, page_size, r.0, r.1@, old(obj).requests(), final(obj).requests()),
{
    transfer(obj, len, offset, page_size)
}

/// The chunks of a transfer tile the buffer: each starts where the one
/// before ended, stays within one page, and together they cover it.
pub proof fn lemma_chunks_tile(progress: int, len: int, offset: int, page_size: int)
    requires
        0 <= progress <= len,
        offset >= 0,
        offset + len <= usize::MAX,
        0 < page_size <= usize::MAX,
    ensures
        ({
            let cs = chunks_from(progress, len, offset, page_size);
            &&& cs.len() == 0 <==> progress == len
            &&& cs.len() > 0 ==> cs[0].progress == progress
            &&& forall|k: int| 0 <= k < cs.len() ==> (#[trigger] cs[k]).size >= 1
                && cs[k].misalign + cs[k].size <= page_size
                && cs[k].progress + cs[k].size <= len
                && cs[k].page_index * page_size + cs[k].misalign == cs[k].progress + offset
            &&& forall|k: int| 0 <= k < cs.len() - 1 ==> #[trigger] cs[k + 1].progress == cs[k].progress + cs[k].size
            &&& cs.len() > 0 ==> cs.last().progress + cs.last().size == len
        }),
    decreases len - progress,
{
    if progress < len {
        lemma_chunk_size(progress, len, offset, page_size);
        let c = chunk_at(progress, len, offset, page_size);
        vstd::arithmetic::div_mod::lemma_fundamental_div_mod(progress + offset, page_size);
        lemma_chunks_tile(progress + c.size, len, offset, page_size);
        let rest = chunks_from(progress + c.size, len, offset, page_size);
        let cs = chunks_from(progress, len, offset, page_size);
        assert(cs == seq![c] + rest);
        assert forall|k: int| 0 <= k < cs.len() - 1 implies #[trigger] cs[k + 1].progress == cs[k].progress + cs[k].size by {
            if k > 0 {
                assert(cs[k] == rest[k - 1]);
                assert(cs[k + 1] == rest[k]);
                let j = k - 1;
                assert(rest[j + 1].progress == rest[j].progress + rest[j].size);
            } else {
                assert(cs[1] == rest[0]);
                assert(rest[0].progress == progress + c.size);
            }
        }
        assert forall|k: int| 0 <= k < cs.len() implies (#[trigger] cs[k]).size >= 1
            && cs[k].misalign + cs[k].size <= page_size
            && cs[k].progress + cs[k].size <= len
            && cs[k].page_index * page_size + cs[k].misalign == cs[k].progress + offset by {
            if k > 0 {
                assert(cs[k] == rest[k - 1]);
            } else {
                assert(cs[0] == c);
                let x = progress + offset;
                vstd::arithmetic::mul::lemma_mul_is_commutative(x / page_size, page_size);
                assert(c.page_index == x / page_size);
                assert(c.misalign == x % page_size);
            }
        }
        if rest.len() > 0 {
            assert(cs.last() == rest.last());
        }
    }
}

/// A buffer in user memory: its start and length.
#[derive(Clone, Copy, Debug)]
pub struct IoVec {
    pub base: usize,
    pub len: usize,
}

pub open spec fn total_len(iovecs: Seq<IoVec>) -> int
    decreases iovecs.len(),
{
    if iovecs.len() == 0 {
        0
    } else {
        total_len(iovecs.drop_last()) + iovecs.last().len
    }
}

/// A list of user buffers that a vectored transfer goes through.
pub struct IoVecList {
    iovecs: Vec<IoVec>,
    total_len: usize,
    total_offset: usize,
    current_idx: usize,
    current_offset: usize,
}

impl IoVecList {
    pub closed spec fn buffers(&self) -> Seq<IoVec> {
        self.iovecs@
    }

    pub closed spec fn spec_total_len(&self) -> usize {
        self.total_len
    }

    /// How far the transfer has gone, in bytes over all buffers.
    pub closed spec fn spec_total_offset(&self) -> usize {
        self.total_offset
    }

    /// The buffer the transfer is in.
    pub closed spec fn spec_current_idx(&self) -> usize {
        self.current_idx
    }

    /// How far the transfer has gone in the current buffer.
    pub closed spec fn spec_current_offset(&self) -> usize {
        self.current_offset
    }

    /// A list of I/O buffers.
    pub fn new(iovecs: Vec<IoVec>) -> (r: Self)
        requires
            total_len(iovecs@) <= usize::MAX,
        ensures
            r.buffers() == iovecs@,
            r.spec_total_len() == total_len(iovecs@),
            r.spec_total_offset() == 0,
            r.spec_current_idx() == 0,
            r.spec_current_offset() == 0,
    {
        let mut sum: usize = 0;
        let mut i: usize = 0;
        proof {
            assert(iovecs@.take(0) =~= Seq::<IoVec>::empty());
        }
        while i < iovecs.len()
            invariant
                i <= iovecs@.len(),
                total_len(iovecs@) <= usize::MAX,
                sum == total_len(iovecs@.take(i as int)),
            decreases iovecs.len() - i,
        {
            proof {
                assert(iovecs@.take(i + 1).drop_last() =~= iovecs@.take(i as int));
                lemma_total_len_prefix(iovecs@, i + 1);
            }
            sum = sum + iovecs[i].len;
            i = i + 1;
        }
        assert(iovecs@.take(iovecs@.len() as int) =~= iovecs@);
        IoVecList { iovecs, total_len: sum, total_offset: 0, current_idx: 0, current_offset: 0 }
    }

    /// The sum of the buffers' lengths.
    pub fn total_len(&self) -> (r: usize)
        ensures
            r == self.spec_total_len(),
    {
        self.total_len
    }

    /// Whether every non-empty buffer ends at a user address, where user
    /// addresses are those below `user_limit`. The end is computed as the
    /// address arithmetic of the machine does, wrapping around.
    pub fn is_user_only(&self, user_limit: usize) -> (r: bool)
        ensures
            r == forall|i: int| 0 <= i < self.buffers().len() ==> (#[trigger] self.buffers()[i]).len != 0
                ==> (self.buffers()[i].base + self.buffers()[i].len) % (usize::MAX as int + 1) < user_limit,
    {
        let mut i: usize = 0;
        while i < self.iovecs.len()
            invariant
                i <= self.iovecs@.len(),
                forall|k: int| 0 <= k < i ==> (#[trigger] self.iovecs@[k]).len != 0
                    ==> (self.iovecs@[k].base + self.iovecs@[k].len) % (usize::MAX as int + 1) < user_limit,
            decreases self.iovecs.len() - i,
        {
            let v = self.iovecs[i];
            if v.len != 0 {
                let end = v.base.wrapping_add(v.len);
                assert(end == (v.base + v.len) % (usize::MAX as int + 1)) by {
                    if v.base + v.len > usize::MAX {
                        assert((v.base + v.len) % (usize::MAX as int + 1) == v.base + v.len - (usize::MAX as int + 1)) by (nonlinear_arith)
                            requires v.base + v.len > usize::MAX, v.base + v.len <= 2 * (usize::MAX as int);
                    } else {
                        assert((v.base + v.len) % (usize::MAX as int + 1) == v.base + v.len) by (nonlinear_arith)
                            requires v.base + v.len <= usize::MAX, v.base + v.len >= 0;
                    }
                }
                if end >= user_limit {
                    assert(self.buffers()[i as int].len != 0);
                    assert(!((self.buffers()[i as int].base + self.buffers()[i as int].len) % (usize::MAX as int + 1) < user_limit));
                    return false;
                }
            }
            i = i + 1;
        }
        true
    }
}

proof fn lemma_total_len_prefix(s: Seq<IoVec>, n: int)
    requires
        0 <= n <= s.len(),
    ensures
        total_len(s.take(n)) <= total_len(s),
    decreases s.len() - n,
{
    if n < s.len() {
        lemma_total_len_prefix(s, n + 1);
        assert(s.take(n + 1).drop_last() =~= s.take(n));
    } else {
        assert(s.take(n) =~= s);
    }
}

/// Access to a single value of type `T` in user memory.
pub struct UserPtr<T> {
    addr: usize,
    _p: PhantomData<T>,
}

impl<T> UserPtr<T> {
    pub closed spec fn spec_addr(&self) -> usize {
        self.addr
    }

    pub fn new(addr: usize) -> (r: Self)
        ensures
            r.spec_addr() == addr,
    {
        UserPtr { addr, _p: PhantomData }
    }

    pub fn addr(&self) -> (r: usize)
        ensures
            r == self.spec_addr(),
    {
        self.addr
    }

    /// The pointer `offset` values of `T` further on.
    pub fn offset(self, offset: usize) -> (r: Self)
        requires
            self.spec_addr() + offset * vstd::layout::size_of::<T>() <= usize::MAX,
        ensures
            r.spec_addr() == self.spec_addr() + offset * vstd::layout::size_of::<T>(),
    {
        let size = core::mem::size_of::<T>();
        proof {
            assert(offset * size <= self.addr + offset * size);
        }
        UserPtr { addr: self.addr + offset * size, _p: PhantomData }
    }
}

/// Access to a buffer of `len` values of type `T` in user memory.
pub struct UserSlice<T> {
    addr: usize,
    len: usize,
    _p: PhantomData<T>,
}

impl<T> UserSlice<T> {
    pub closed spec fn spec_addr(&self) -> usize {
        self.addr
    }

    pub closed spec fn spec_len(&self) -> usize {
        self.len
    }

    pub fn new(addr: usize, len: usize) -> (r: Self)
        ensures
            r.spec_addr() == addr,
            r.spec_len() == len,
    {
        UserSlice { addr, len, _p: PhantomData }
    }

    pub fn addr(&self) -> (r: usize)
        ensures
            r == self.spec_addr(),
    {
        self.addr
    }

    pub fn len(&self) -> (r: usize)
        ensures
            r == self.spec_len(),
    {
        self.len
    }

    pub fn is_empty(&self) -> (r: bool)
        ensures
            r == (self.spec_len() == 0),
    {
        self.len == 0
    }
}

} // verus!
