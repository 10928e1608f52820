use buffer_pool::disk_manager::{DiskManager, PageId, PAGE_SIZE};

#[test]
fn disk_manager_new() {
    let dm = DiskManager::new(0);

    assert_eq!(0, dm.next_page_id());
}

#[test]
fn disk_manager_allocate_page() {
    let mut dm = DiskManager::new(0);

    assert_eq!(0, dm.next_page_id());
    let next_page_id = dm.allocate_page();
    assert_eq!(PageId(0), next_page_id);
    assert_eq!(1, dm.next_page_id());

    let next_page_id = dm.allocate_page();
    assert_eq!(PageId(1), next_page_id);
    assert_eq!(2, dm.next_page_id());
}

#[test]
fn page_size_is_4096() {
    assert_eq!(PAGE_SIZE, 4096);
}

#[test]
fn new_counts_whole_pages_only() {
    assert_eq!(DiskManager::new(4095).next_page_id(), 0);
    assert_eq!(DiskManager::new(4096).next_page_id(), 1);
    assert_eq!(DiskManager::new(8192 + 100).next_page_id(), 2);
    assert_eq!(DiskManager::new(u64::MAX).next_page_id(), 4503599627370495);
}

#[test]
fn allocation_continues_after_existing_pages() {
    let mut dm = DiskManager::new(3 * 4096);
    assert!(dm.can_allocate());
    assert_eq!(dm.allocate_page(), PageId(3));
    assert_eq!(dm.allocate_page(), PageId(4));
    assert_eq!(dm.next_page_id(), 5);
}

#[test]
fn allocated_pages_increase() {
    let mut dm = DiskManager::new(0);
    let mut last = dm.allocate_page();
    for _ in 0..100 {
        let next = dm.allocate_page();
        assert!(next.0 > last.0);
        last = next;
    }
}

#[test]
fn page_offset_is_page_size_times_id() {
    assert_eq!(DiskManager::page_offset(PageId(0)), Some(0));
    assert_eq!(DiskManager::page_offset(PageId(1)), Some(4096));
    assert_eq!(DiskManager::page_offset(PageId(3)), Some(12288));
    assert_eq!(
        DiskManager::page_offset(PageId(4503599627370495)),
        Some(18446744073709547520)
    );
}

#[test]
fn page_offset_that_does_not_fit_is_none() {
    assert_eq!(DiskManager::page_offset(PageId(4503599627370496)), None);
    assert_eq!(DiskManager::page_offset(PageId(u64::MAX)), None);
}

#[test]
fn page_id_is_copied_and_compared_by_number() {
    let page_id = PageId(7);
    let copy = page_id;
    assert_eq!(page_id, copy);
    assert_ne!(page_id, PageId(8));
}
