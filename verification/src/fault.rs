//! Page fault handling: which mapping covers a faulting address, whether
//! a copy-on-write takes place, and what page gets mapped with which flags.
use vstd::prelude::*;
use crate::syscall::memory::{VM_COPY_ON_WRITE, VM_WRITE};
use crate::memory::MemoryObject;
use crate::paging::{PageTable, PageTableEntry, lookup, mapped, same_page};

verus! {

/// Abstract information about a page fault.
pub struct PageFaultInfo {
    /// The instruction pointer address at the point of the page fault.
    pub ip: usize,
    /// The address that was attempted to access.
    pub addr: usize,
    /// If set, the fault was caused by a user access.
    pub caused_by_user: bool,
    /// If set, the fault was caused by a write.
    pub caused_by_write: bool,
    /// If set, the fault was caused by an instruction fetch.
    pub caused_by_fetch: bool,
    /// If set, the fault occured in a present page.
    pub page_was_present: bool,
}

/// A mapping of an address space: the pages `[start_page, end_page)` show
/// the object's pages starting at `offset_page`.
pub struct FaultMapping {
    pub start_page: usize,
    pub end_page: usize,
    pub offset_page: usize,
    pub flags: u32,
    /// Whether the mapped object is referenced from elsewhere as well.
    pub object_shared: bool,
}

/// The region of a mapping in bytes, as it is mapped again.
#[derive(Clone, Copy, Debug, PartialEq, Eq, Structural)]
pub struct Region {
    pub addr: usize,
    pub len: usize,
    pub offset: usize,
}

/// What a copy-on-write fault does to the mapping.
#[derive(Clone, Copy, Debug, PartialEq, Eq, Structural)]
pub enum CowAction {
    /// The mapping stays as it is.
    Keep,
    /// The object is mapped again, now writable.
    RemapSame(Region),
    /// A private copy of the object's pages is made and mapped in its place.
    CopyToPrivate(Region),
}

/// The decision of the fault handler.
#[derive(Clone, Copy, Debug, PartialEq, Eq, Structural)]
pub enum FaultPlan {
    /// Map page `object_page` of the (possibly new) object of mapping
    /// `mapping` at the faulting address with `flags`, if the object has it.
    Demand { mapping: usize, cow: CowAction, flags: u32, object_page: usize },
    /// No mapping covers the address.
    Unhandled,
}

pub open spec fn covers(m: FaultMapping, page: int) -> bool {
    m.start_page <= page < m.end_page
}

/// The first mapping that covers `page`, if any.
pub open spec fn first_covering(ms: Seq<FaultMapping>, page: int) -> Option<int> {
    if exists|i: int| 0 <= i < ms.len() && covers(#[trigger] ms[i], page) {
        Some(choose|i: int| 0 <= i < ms.len() && covers(#[trigger] ms[i], page)
            && forall|j: int| 0 <= j < i ==> !covers(#[trigger] ms[j], page))
    } else {
        None
    }
}

/// The byte sizes of a mapping fit in an address.
pub open spec fn mapping_fits(m: FaultMapping, page_size: int) -> bool {
    &&& m.end_page * page_size <= usize::MAX
    &&& (m.offset_page + (m.end_page - m.start_page)) * page_size <= usize::MAX
}

pub open spec fn region_of(m: FaultMapping, page_size: int) -> Region {
    Region {
        addr: (m.start_page * page_size) as usize,
        len: ((m.end_page - m.start_page) * page_size) as usize,
        offset: (m.offset_page * page_size) as usize,
    }
}

/// The flags the page is mapped with: a write to a copy-on-write mapping
/// drops copy-on-write; any other access to such a mapping drops write.
pub open spec fn fault_flags(flags: u32, cow: bool, write: bool) -> u32 {
    if cow && write {
        flags & !VM_COPY_ON_WRITE
    } else if cow {
        flags & !VM_WRITE
    } else {
        flags
    }
}

pub open spec fn spec_fault_plan(info: PageFaultInfo, ms: Seq<FaultMapping>, page_size: int) -> FaultPlan {
    let page = info.addr as int / page_size;
    match first_covering(ms, page) {
        None => FaultPlan::Unhandled,
        Some(i) => {
            let m = ms[i];
            let cow = m.flags & VM_COPY_ON_WRITE != 0;
            let action = if cow && info.caused_by_write {
                if m.object_shared {
                    CowAction::CopyToPrivate(region_of(m, page_size))
                } else {
                    CowAction::RemapSame(region_of(m, page_size))
                }
            } else {
                CowAction::Keep
            };
            FaultPlan::Demand {
                mapping: i as usize,
                cow: action,
                flags: fault_flags(m.flags, cow, info.caused_by_write),
                object_page: ((page - m.start_page) + m.offset_page) as usize,
            }
        },
    }
}

/// Decides how a page fault is handled: finds the first mapping that covers
/// the faulting page and says what is mapped there.
pub fn handler_inner(info: &PageFaultInfo, mappings: &Vec<FaultMapping>, page_size: usize) -> (r: FaultPlan)
    requires
        page_size > 0,
        forall|i: int| 0 <= i < mappings@.len() ==> mapping_fits(#[trigger] mappings@[i], page_size as int),
    ensures
        r == spec_fault_plan(*info, mappings@, page_size as int),
{
    let page = info.addr / page_size;
    let mut i: usize = 0;
    while i < mappings.len()
        invariant
            i <= mappings@.len(),
            page_size > 0,
            page == info.addr / page_size,
            forall|k: int| 0 <= k < mappings@.len() ==> mapping_fits(#[trigger] mappings@[k], page_size as int),
            forall|j: int| 0 <= j < i ==> !covers(#[trigger] mappings@[j], page as int),
        decreases mappings.len() - i,
    {
        let m = &mappings[i];
        if m.start_page <= page && page < m.end_page {
            let ghost ms = mappings@;
            proof {
                assert(covers(ms[i as int], page as int));
                let k = choose|k: int| 0 <= k < ms.len() && covers(#[trigger] ms[k], page as int)
                    && forall|j: int| 0 <= j < k ==> !covers(#[trigger] ms[j], page as int);
                if k < i {
                    assert(!covers(ms[k], page as int));
                }
                if k > i {
                    assert(!covers(ms[i as int], page as int));
                }
                assert(k == i);
            }
            assert(mapping_fits(mappings@[i as int], page_size as int));
            let cow = m.flags & VM_COPY_ON_WRITE != 0;
            let num_pages = m.end_page - m.start_page;
            proof {
                assert(m.start_page * page_size <= m.end_page * page_size) by (nonlinear_arith)
                    requires m.start_page <= m.end_page;
                assert(num_pages * page_size <= m.end_page * page_size) by (nonlinear_arith)
                    requires num_pages <= m.end_page;
                assert(m.offset_page * page_size <= (m.offset_page + num_pages) * page_size) by (nonlinear_arith);
            }
            let region = Region {
                addr: m.start_page * page_size,
                len: num_pages * page_size,
                offset: m.offset_page * page_size,
            };
            let action = if cow && info.caused_by_write {
                if m.object_shared {
                    CowAction::CopyToPrivate(region)
                } else {
                    CowAction::RemapSame(region)
                }
            } else {
                CowAction::Keep
            };
            let flags = if cow && info.caused_by_write {
                m.flags & !VM_COPY_ON_WRITE
            } else if cow {
                m.flags & !VM_WRITE
            } else {
                m.flags
            };
            proof {
                assert(page - m.start_page + m.offset_page <= m.offset_page + num_pages);
                assert(m.offset_page + num_pages <= (m.offset_page + num_pages) * page_size) by (nonlinear_arith)
                    requires page_size > 0;
            }
            return FaultPlan::Demand {
                mapping: i,
                cow: action,
                flags,
                object_page: (page - m.start_page) + m.offset_page,
            };
        }
        i = i + 1;
    }
    proof {
        assert(!exists|k: int| 0 <= k < mappings@.len() && covers(#[trigger] mappings@[k], page as int));
    }
    FaultPlan::Unhandled
}

/// The byte offsets of the object's pages that a private copy reads and
/// writes, one per page of the mapping.
pub fn cow_copy_offsets(m: &FaultMapping, page_size: usize) -> (r: Vec<usize>)
    requires
        page_size > 0,
        m.start_page <= m.end_page,
        mapping_fits(*m, page_size as int),
    ensures
        r@.len() == m.end_page - m.start_page,
        forall|k: int| 0 <= k < r@.len() ==> #[trigger] r@[k] == (m.offset_page + k) * page_size,
{
    let num_pages = m.end_page - m.start_page;
    let mut r: Vec<usize> = Vec::new();
    let mut page: usize = 0;
    while page < num_pages
        invariant
            num_pages == m.end_page - m.start_page,
            (m.offset_page + num_pages) * page_size <= usize::MAX,
            page_size > 0,
            page <= num_pages,
            r@.len() == page,
            forall|k: int| 0 <= k < r@.len() ==> #[trigger] r@[k] == (m.offset_page + k) * page_size,
        decreases num_pages - page,
    {
        proof {
            assert((m.offset_page + page) * page_size <= (m.offset_page + num_pages) * page_size) by (nonlinear_arith)
                requires page <= num_pages;
            assert(m.offset_page + page <= (m.offset_page + page) * page_size) by (nonlinear_arith)
                requires page_size > 0;
        }
        r.push((m.offset_page + page) * page_size);
        page = page + 1;
    }
    r
}

/// What the faulting access attempted, as the fault report words it.
pub fn access_verb(info: &PageFaultInfo) -> (r: &'static str)
    ensures
        r@ == (if info.caused_by_write {
            "write to"@
        } else if info.caused_by_fetch {
            "execute on"@
        } else {
            "read from"@
        }),
{
    if info.caused_by_write {
        "write to"
    } else if info.caused_by_fetch {
        "execute on"
    } else {
        "read from"
    }
}

/// Whether the faulting page was present, as the fault report words it.
pub fn page_state(info: &PageFaultInfo) -> (r: &'static str)
    ensures
        r@ == (if info.page_was_present { "present"@ } else { "non-present"@ }),
{
    if info.page_was_present {
        "present"
    } else {
        "non-present"
    }
}

} // verus!

verus! {

/// What carrying out `plan` at `addr` did, from table `t0` and object
/// requests `q0` to `t1` and `q1`, resolving the fault or not (`r`).
pub open spec fn fault_applied(
    plan: FaultPlan,
    addr: u64,
    t0: crate::paging::PageTableV,
    t1: crate::paging::PageTableV,
    q0: Seq<(usize, Option<usize>)>,
    q1: Seq<(usize, Option<usize>)>,
    r: bool,
) -> bool {
    match plan {
        FaultPlan::Unhandled => !r && t1 == t0 && q1 == q0,
        FaultPlan::Demand { flags, object_page, .. } => exists|answer: Option<usize>|
            {
                &&& #[trigger] q0.push((object_page, answer)) == q1
                &&& match answer {
                    Some(phys) => {
                        &&& r
                        &&& lookup(t1, addr) == Some(PageTableEntry::spec_new(phys as u64, flags as usize))
                        &&& forall|v: u64|
                            !same_page(v, addr, t0.levels) && mapped(t0, v) ==> #[trigger] lookup(t1, v)
                                == lookup(t0, v)
                    },
                    None => !r && t1 == t0,
                }
            },
    }
}

/// Carries out a fault plan for the faulting address `addr` in `table`:
/// for a demand, the object of the mapping (after its copy-on-write
/// action) is asked for the planned page, and where it has it, that page
/// is mapped at `addr` with the planned flags. Gives whether the fault was
/// resolved; where it was not, the table is unchanged.
pub fn apply_fault_plan<M: MemoryObject>(table: &mut PageTable, obj: &mut M, addr: u64, plan: FaultPlan) -> (r: bool)
    requires
        old(table).wf(),
    ensures
        final(table).wf(),
        final(table)@.levels == old(table)@.levels,
        fault_applied(plan, addr, old(table)@, final(table)@, old(obj).requests(), final(obj).requests(), r),
{
    match plan {
        FaultPlan::Unhandled => false,
        FaultPlan::Demand { flags, object_page, .. } => match obj.try_get_page(object_page) {
            Some(phys) => {
                let _ = table.map_single(addr, phys as u64, flags as usize);
                true
            },
            None => false,
        },
    }
}

/// Handles a page fault: decides by `handler_inner` and carries the plan
/// out in `table`, with `obj` the object of the covering mapping (after its
/// copy-on-write action). Gives whether the fault was resolved; where it
/// was not, the caller reports a segmentation fault.
pub fn handle_fault<M: MemoryObject>(
    info: &PageFaultInfo,
    mappings: &Vec<FaultMapping>,
    page_size: usize,
    table: &mut PageTable,
    obj: &mut M,
) -> (r: bool)
    requires
        page_size > 0,
        forall|i: int| 0 <= i < mappings@.len() ==> mapping_fits(#[trigger] mappings@[i], page_size as int),
        old(table).wf(),
    ensures
        final(table).wf(),
        final(table)@.levels == old(table)@.levels,
        fault_applied(
            spec_fault_plan(*info, mappings@, page_size as int),
            info.addr as u64,
            old(table)@,
            final(table)@,
            old(obj).requests(),
            final(obj).requests(),
            r,
        ),
{
    let plan = handler_inner(info, mappings, page_size);
    apply_fault_plan(table, obj, info.addr as u64, plan)
}

} // verus!
