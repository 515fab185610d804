use menix::fault::{
    access_verb, cow_copy_offsets, handle_fault, handler_inner, page_state, CowAction, FaultMapping, FaultPlan, PageFaultInfo, Region,
};
use menix::memory::{
    highest_region_end, read, transfer, Chunk, IoVec, IoVecList, MemoryObject, PagedMemoryObject, Pager, PagerError,
    PhysMemory, PhysMemoryUsage, UserPtr, UserSlice,
};
use menix::syscall::memory::{VM_COPY_ON_WRITE, VM_READ, VM_USER, VM_WRITE};
use std::cell::Cell;

/// A pager that has its first `pages` pages, at 0x1000 times one more
/// than their index.
struct FirstPages {
    pages: usize,
}

impl Pager for FirstPages {
    fn has_page(&self, page_index: usize) -> bool {
        page_index < self.pages
    }

    fn try_get_page(&self, page_index: usize) -> Result<usize, PagerError> {
        if page_index < self.pages { Ok((page_index + 1) * 0x1000) } else { Err(PagerError::IndexOutOfBounds) }
    }

    fn try_put_page(&self, _: usize, _: usize) -> Result<(), PagerError> {
        Ok(())
    }
}

/// A memory object over the first `pages` pages.
fn pages(pages: usize) -> PagedMemoryObject<FirstPages> {
    PagedMemoryObject::new(FirstPages { pages })
}

struct CountingPager {
    calls: Cell<usize>,
}

impl Pager for CountingPager {
    fn has_page(&self, _: usize) -> bool {
        true
    }

    fn try_get_page(&self, page_index: usize) -> Result<usize, PagerError> {
        self.calls.set(self.calls.get() + 1);
        if page_index < 2 { Ok(0x9000 + page_index) } else { Err(PagerError::IndexOutOfBounds) }
    }

    fn try_put_page(&self, _: usize, _: usize) -> Result<(), PagerError> {
        Ok(())
    }
}

#[test]
fn transfer_splits_at_page_boundaries() {
    let mut obj = pages(4);
    let (done, copies) = transfer(&mut obj, 10, 4090, 4096);
    assert_eq!(done, 10);
    assert_eq!(copies.len(), 2);
    assert_eq!(copies[0].chunk, Chunk { page_index: 0, misalign: 4090, progress: 0, size: 6 });
    assert_eq!(copies[0].phys, 0x1000);
    assert_eq!(copies[1].chunk, Chunk { page_index: 1, misalign: 0, progress: 6, size: 4 });
    assert_eq!(copies[1].phys, 0x2000);
}

#[test]
fn transfer_stops_at_a_missing_page() {
    let mut obj = pages(1);
    let (done, copies) = read(&mut obj, 5000, 100, 4096);
    assert_eq!(done, 3996);
    assert_eq!(copies.len(), 1);
    let (none, nothing) = menix::memory::write(&mut pages(0), 8, 0, 4096);
    assert_eq!(none, 0);
    assert!(nothing.is_empty());
    let (zero, empty) = transfer(&mut obj, 0, 0, 4096);
    assert_eq!(zero, 0);
    assert!(empty.is_empty());
}

#[test]
fn paged_objects_ask_the_pager_once_per_page() {
    let pager = CountingPager { calls: Cell::new(0) };
    let mut obj = PagedMemoryObject::new(pager);
    assert_eq!(obj.get_page(1), Some(0x9001));
    assert_eq!(obj.get_page(1), Some(0x9001));
    assert_eq!(obj.get_page(5), None);
    assert_eq!(obj.try_get_page(0), Some(0x9000));
}

#[test]
fn highest_region_end_of_the_memory_map() {
    let map = vec![
        PhysMemory { address: 0x1000, length: 0x1000, usage: PhysMemoryUsage::Free },
        PhysMemory { address: 0x10_0000, length: 0x20, usage: PhysMemoryUsage::Reserved },
        PhysMemory { address: 0x8000, length: 0x8000, usage: PhysMemoryUsage::Kernel },
    ];
    assert_eq!(highest_region_end(&map), 0x10_0020);
    assert_eq!(highest_region_end(&vec![]), 0);
    let p = PhysMemory::new();
    assert_eq!((p.address, p.length, p.usage), (0, 0, PhysMemoryUsage::Unknown));
    assert_eq!(PhysMemoryUsage::default(), PhysMemoryUsage::Unknown);
}

#[test]
fn iovec_lists_sum_their_lengths_and_check_user_addresses() {
    let list = IoVecList::new(vec![IoVec { base: 0x1000, len: 16 }, IoVec { base: 0, len: 0 }, IoVec { base: 0x2000, len: 4 }]);
    assert_eq!(list.total_len(), 20);
    assert!(list.is_user_only(0x3000));
    assert!(!list.is_user_only(0x2000));
    // An empty buffer's address does not matter.
    let empty = IoVecList::new(vec![IoVec { base: usize::MAX, len: 0 }]);
    assert!(empty.is_user_only(1));
}

#[test]
fn user_pointers() {
    let p: UserPtr<u64> = UserPtr::new(0x1000);
    assert_eq!(p.offset(3).addr(), 0x1018);
    let s: UserSlice<u32> = UserSlice::new(0x2000, 0);
    assert!(s.is_empty());
    assert_eq!(UserSlice::<u8>::new(0x2000, 7).len(), 7);
}

fn info(addr: usize, write: bool) -> PageFaultInfo {
    PageFaultInfo { ip: 0x400000, addr, caused_by_user: true, caused_by_write: write, caused_by_fetch: false, page_was_present: false }
}

#[test]
fn faults_map_the_page_of_the_covering_mapping() {
    let maps = vec![
        FaultMapping { start_page: 1, end_page: 3, offset_page: 10, flags: VM_READ | VM_USER, object_shared: false },
        FaultMapping { start_page: 2, end_page: 5, offset_page: 0, flags: VM_READ, object_shared: false },
    ];
    assert_eq!(
        handler_inner(&info(0x2010, false), &maps, 0x1000),
        FaultPlan::Demand { mapping: 0, cow: CowAction::Keep, flags: VM_READ | VM_USER, object_page: 11 }
    );
    assert_eq!(
        handler_inner(&info(0x4000, false), &maps, 0x1000),
        FaultPlan::Demand { mapping: 1, cow: CowAction::Keep, flags: VM_READ, object_page: 2 }
    );
    assert_eq!(handler_inner(&info(0x9000, false), &maps, 0x1000), FaultPlan::Unhandled);
}

#[test]
fn copy_on_write_faults() {
    let cow = VM_READ | VM_WRITE | VM_COPY_ON_WRITE;
    let private = vec![FaultMapping { start_page: 4, end_page: 6, offset_page: 1, flags: cow, object_shared: false }];
    let shared = vec![FaultMapping { start_page: 4, end_page: 6, offset_page: 1, flags: cow, object_shared: true }];
    let region = Region { addr: 0x4000, len: 0x2000, offset: 0x1000 };
    assert_eq!(
        handler_inner(&info(0x5000, true), &private, 0x1000),
        FaultPlan::Demand { mapping: 0, cow: CowAction::RemapSame(region), flags: VM_READ | VM_WRITE, object_page: 2 }
    );
    assert_eq!(
        handler_inner(&info(0x5000, true), &shared, 0x1000),
        FaultPlan::Demand { mapping: 0, cow: CowAction::CopyToPrivate(region), flags: VM_READ | VM_WRITE, object_page: 2 }
    );
    // A read of a copy-on-write page maps it without write access.
    assert_eq!(
        handler_inner(&info(0x4000, false), &shared, 0x1000),
        FaultPlan::Demand { mapping: 0, cow: CowAction::Keep, flags: VM_READ | VM_COPY_ON_WRITE, object_page: 1 }
    );
    assert_eq!(cow_copy_offsets(&shared[0], 0x1000), vec![0x1000, 0x2000]);
}

#[test]
fn fault_reports() {
    assert_eq!(access_verb(&info(0, true)), "write to");
    assert_eq!(access_verb(&info(0, false)), "read from");
    let fetch = PageFaultInfo { caused_by_fetch: true, ..info(0, false) };
    assert_eq!(access_verb(&fetch), "execute on");
    assert_eq!(page_state(&fetch), "non-present");
    assert_eq!(page_state(&PageFaultInfo { page_was_present: true, ..fetch }), "present");
}

#[test]
fn a_read_fault_on_copy_on_write_maps_the_page_read_only() {
    let cow = VM_READ | VM_WRITE | VM_COPY_ON_WRITE;
    let maps = vec![FaultMapping { start_page: 4, end_page: 6, offset_page: 1, flags: cow, object_shared: false }];
    let mut table = menix::paging::PageTable::new(4, false);
    let mut obj = pages(4);
    assert!(handle_fault(&info(0x5000, false), &maps, 0x1000, &mut table, &mut obj));
    let (tab, idx) = table.get_pte(0x5000, false).unwrap();
    // Page 5 of the mapping is page 2 of the object, at 0x3000.
    assert_eq!(table.entry(tab, idx), menix::paging::PageTableEntry::new(0x3000, (VM_READ | VM_COPY_ON_WRITE) as usize));
    // A page the object does not have leaves the fault unresolved.
    let mut empty = pages(0);
    let mut other = menix::paging::PageTable::new(4, false);
    assert!(!handle_fault(&info(0x4000, false), &maps, 0x1000, &mut other, &mut empty));
    assert!(!other.is_mapped(0x4000));
    // No mapping covers the address.
    assert!(!handle_fault(&info(0x9000, false), &maps, 0x1000, &mut other, &mut empty));
}
