use menix::paging::{
    init, PageTable, PageTableEntry, HHDM_BASE, HHDM_SIZE, PAGE_SIZE, PTE_EXEC, PTE_READ, PTE_USER, PTE_WRITE,
};

#[test]
fn a_new_table_maps_nothing() {
    let mut t = PageTable::new(4, false);
    assert!(!t.is_mapped(0));
    assert!(!t.is_mapped(0x7fff_ffff_f000));
    assert_eq!(t.get_pte(0x1000, false), None);
}

#[test]
fn map_then_translate() {
    let mut t = PageTable::new(4, false);
    assert_eq!(t.map_single(0x40_0000, 0x20_0000, PTE_READ | PTE_WRITE), Ok(()));
    assert!(t.is_mapped(0x40_0000));
    // Every address of the page translates through the same entry.
    assert!(t.is_mapped(0x40_0abc));
    assert!(!t.is_mapped(0x40_1000));
    let (tab, idx) = t.get_pte(0x40_0123, false).unwrap();
    assert_eq!(t.entry(tab, idx), PageTableEntry::new(0x20_0000, PTE_READ | PTE_WRITE));
    assert_eq!(idx, 0);
    assert!(!t.entry(tab, idx).large);
}

#[test]
fn mapping_a_page_keeps_the_others() {
    let mut t = PageTable::new(4, false);
    t.map_single(0x1000, 0xa000, PTE_READ).unwrap();
    t.map_single(0x2000, 0xb000, PTE_READ | PTE_WRITE).unwrap();
    t.map_single(0x7f00_0000_0000, 0xc000, PTE_READ).unwrap();
    let (a, i) = t.get_pte(0x1000, false).unwrap();
    assert_eq!(t.entry(a, i), PageTableEntry::new(0xa000, PTE_READ));
    let (b, j) = t.get_pte(0x2000, false).unwrap();
    assert_eq!(t.entry(b, j), PageTableEntry::new(0xb000, PTE_READ | PTE_WRITE));
    assert_eq!(a, b);
    assert_eq!((i, j), (1, 2));
    // Remapping replaces the entry.
    t.map_single(0x1000, 0xd000, PTE_READ).unwrap();
    assert_eq!(t.entry(a, i), PageTableEntry::new(0xd000, PTE_READ));
}

#[test]
fn allocation_adds_levels_with_directory_flags() {
    let mut user = PageTable::new(4, false);
    let (t, i) = user.get_pte(0x1000, true).unwrap();
    assert!(!user.entry(t, i).present);
    // The root's entry leads to a new table, with user access.
    let root = user.entry(0, 0);
    assert!(root.present);
    assert_eq!(root.flags, PTE_READ | PTE_WRITE | PTE_EXEC | PTE_USER);
    // A second allocation for the same page changes nothing.
    assert_eq!(user.get_pte(0x1000, true), Some((t, i)));
    let mut kernel = PageTable::new(4, true);
    kernel.get_pte(0x1000, true).unwrap();
    assert_eq!(kernel.entry(0, 0).flags, PTE_READ | PTE_WRITE | PTE_EXEC);
}

#[test]
fn unmap_leaves_the_table() {
    let mut t = PageTable::new(4, false);
    t.map_single(0x3000, 0x9000, PTE_READ).unwrap();
    assert_eq!(t.unmap(0x3000), Ok(()));
    assert!(t.is_mapped(0x3000));
}

#[test]
fn one_level_tables() {
    let mut t = PageTable::new(1, true);
    assert_eq!(t.get_pte(0x5000, false), Some((0, 5)));
    t.map_single(0x5000, 0x1000, PTE_READ).unwrap();
    assert!(t.is_mapped(0x5000));
    // With one level only bits 12..21 select the entry.
    assert!(t.is_mapped(0x5000 + (1 << 21)));
}

#[test]
fn kernel_table_maps_segments_and_direct_map() {
    let offset = 0xffff_ffff_8000_0000u64;
    let phys = 0x10_0000u64;
    let text = (offset, offset + 0x3000);
    let rodata = (offset + 0x3000, offset + 0x5000);
    let data = (offset + 0x5000, offset + 0x6000);
    let mut t = init(4, phys, offset, text, rodata, data);
    let (a, i) = t.get_pte(offset + 0x1000, false).unwrap();
    assert_eq!(t.entry(a, i), PageTableEntry::new(phys + 0x1000, PTE_READ | PTE_EXEC));
    let (b, j) = t.get_pte(offset + 0x4000, false).unwrap();
    assert_eq!(t.entry(b, j), PageTableEntry::new(phys + 0x4000, PTE_READ));
    let (c, k) = t.get_pte(offset + 0x5000, false).unwrap();
    assert_eq!(t.entry(c, k), PageTableEntry::new(phys + 0x5000, PTE_READ | PTE_WRITE));
    assert!(!t.is_mapped(offset + 0x6000));
    assert!(t.is_mapped(HHDM_BASE));
    assert!(t.is_mapped(HHDM_BASE + HHDM_SIZE - 1));
    assert!(!t.is_mapped(HHDM_BASE + HHDM_SIZE));
    let last = HHDM_BASE + HHDM_SIZE - PAGE_SIZE;
    let (d, l) = t.get_pte(last, false).unwrap();
    assert_eq!(t.entry(d, l), PageTableEntry::new(HHDM_SIZE - PAGE_SIZE, PTE_READ | PTE_WRITE));
}
