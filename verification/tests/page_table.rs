use buffer_pool::buffer::BufferId;
use buffer_pool::disk_manager::PageId;
use buffer_pool::page_table::PageTable;

#[test]
fn new_table_finds_nothing() {
    let table = PageTable::new();
    assert_eq!(table.lookup(PageId(0)), None);
    assert_eq!(table.lookup(PageId(u64::MAX)), None);
}

#[test]
fn lookup_finds_what_was_inserted() {
    let mut table = PageTable::new();
    table.insert(PageId(10), BufferId(2));
    table.insert(PageId(11), BufferId(0));
    assert_eq!(table.lookup(PageId(10)), Some(BufferId(2)));
    assert_eq!(table.lookup(PageId(11)), Some(BufferId(0)));
    assert_eq!(table.lookup(PageId(2)), None);
}

#[test]
fn remove_takes_one_page_out() {
    let mut table = PageTable::new();
    table.insert(PageId(10), BufferId(2));
    table.insert(PageId(11), BufferId(0));
    table.remove(PageId(10));
    assert_eq!(table.lookup(PageId(10)), None);
    assert_eq!(table.lookup(PageId(11)), Some(BufferId(0)));
}

#[test]
fn remove_of_an_absent_page_changes_nothing() {
    let mut table = PageTable::new();
    table.insert(PageId(1), BufferId(1));
    table.remove(PageId(7));
    assert_eq!(table.lookup(PageId(1)), Some(BufferId(1)));
    assert_eq!(table.lookup(PageId(7)), None);
}

#[test]
fn removed_page_can_be_inserted_again() {
    let mut table = PageTable::new();
    table.insert(PageId(4), BufferId(0));
    table.remove(PageId(4));
    table.insert(PageId(4), BufferId(3));
    assert_eq!(table.lookup(PageId(4)), Some(BufferId(3)));
}
