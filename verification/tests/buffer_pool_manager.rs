use buffer_pool::buffer::{BufferId, Page};
use buffer_pool::disk_manager::{PageId, PAGE_SIZE};
use buffer_pool::manager::{Awaiting, BufferPoolManager, Error, FetchStep, Pending};
use std::collections::HashMap;
use std::io;

/// A heap file kept in memory, which remembers what was asked of it.
struct Disk {
    pages: HashMap<u64, Page>,
    log: Vec<String>,
    fail_writes: bool,
    fail_reads: bool,
}

impl Disk {
    fn with_pages(count: u64) -> Disk {
        let mut pages = HashMap::new();
        for id in 0..count {
            pages.insert(id, page_of(id as u8));
        }
        Disk {
            pages,
            log: Vec::new(),
            fail_writes: false,
            fail_reads: false,
        }
    }

    fn write(&mut self, page_id: PageId, page: &Page) -> io::Result<()> {
        self.log.push(format!("write {}", page_id.0));
        if self.fail_writes {
            return Err(io::Error::new(io::ErrorKind::WriteZero, "short write"));
        }
        self.pages.insert(page_id.0, *page);
        Ok(())
    }

    fn read(&mut self, page_id: PageId) -> io::Result<Page> {
        self.log.push(format!("read {}", page_id.0));
        if self.fail_reads {
            return Err(io::Error::new(io::ErrorKind::Other, "broken"));
        }
        match self.pages.get(&page_id.0) {
            Some(page) => Ok(*page),
            None => Err(io::Error::new(io::ErrorKind::UnexpectedEof, "short read")),
        }
    }
}

fn page_of(byte: u8) -> Page {
    [byte; PAGE_SIZE]
}

/// Runs one fetch to its end against `disk`.
fn fetch(
    manager: &mut BufferPoolManager,
    disk: &mut Disk,
    page_id: PageId,
) -> Result<BufferId, Error> {
    assert!(manager.can_fetch(page_id));
    let mut step = manager.fetch_page(page_id)?;
    loop {
        step = match step {
            FetchStep::Ready(handle) => return Ok(handle),
            FetchStep::WriteBack { buffer_id, page_id } => {
                let outcome = disk.write(page_id, &manager.buffer(buffer_id).page);
                manager.complete_write_back(outcome)?
            }
            FetchStep::Load { page_id } => match disk.read(page_id) {
                Ok(page) => manager.complete_load(Ok(&page))?,
                Err(e) => manager.complete_load(Err(e))?,
            },
        };
    }
}

/// Fetches a page and gives the handle straight back.
fn visit(manager: &mut BufferPoolManager, disk: &mut Disk, page_id: PageId) -> BufferId {
    let handle = fetch(manager, disk, page_id).unwrap();
    manager.release(handle);
    handle
}

fn cached_pages(manager: &BufferPoolManager) -> Vec<Option<PageId>> {
    (0..manager.capacity())
        .map(|b| manager.frame(BufferId(b)).page_id())
        .collect()
}

/// The page table and the frames name each other.
fn assert_table_matches_frames(manager: &BufferPoolManager, page_ids: &[u64]) {
    for b in 0..manager.capacity() {
        if let Some(page_id) = manager.frame(BufferId(b)).page_id() {
            assert_eq!(manager.lookup(page_id), Some(BufferId(b)));
        }
    }
    for id in page_ids {
        if let Some(buffer_id) = manager.lookup(PageId(*id)) {
            assert_eq!(manager.frame(buffer_id).page_id(), Some(PageId(*id)));
        }
        let holders = (0..manager.capacity())
            .filter(|b| manager.frame(BufferId(*b)).page_id() == Some(PageId(*id)))
            .count();
        assert_eq!(holders, usize::from(manager.lookup(PageId(*id)).is_some()));
    }
}

#[test]
fn new_manager_caches_nothing() {
    let manager = BufferPoolManager::new(3);
    assert_eq!(manager.capacity(), 3);
    assert_eq!(manager.pool().size(), 3);
    assert_eq!(manager.pending(), None);
    assert_eq!(cached_pages(&manager), vec![None, None, None]);
    assert_eq!(manager.lookup(PageId(0)), None);
    assert!(manager.can_fetch(PageId(0)));
    assert!(!manager.is_held(BufferId(0)));
    assert!(!manager.is_held(BufferId(3)));
}

#[test]
fn miss_asks_for_a_read_and_then_hands_out_the_frame() {
    let mut manager = BufferPoolManager::new(2);
    let step = manager.fetch_page(PageId(5)).unwrap();
    assert_eq!(step, FetchStep::Load { page_id: PageId(5) });
    assert_eq!(
        manager.pending(),
        Some(Pending {
            buffer_id: BufferId(0),
            page_id: PageId(5),
            awaiting: Awaiting::Load
        })
    );
    assert!(!manager.can_fetch(PageId(6)));
    assert_eq!(manager.lookup(PageId(5)), None);
    let step = manager.complete_load(Ok(&page_of(42))).unwrap();
    assert_eq!(step, FetchStep::Ready(BufferId(0)));
    assert_eq!(manager.pending(), None);
    assert_eq!(manager.lookup(PageId(5)), Some(BufferId(0)));
    let frame = manager.frame(BufferId(0));
    assert_eq!(frame.page_id(), Some(PageId(5)));
    assert_eq!(frame.usage_count(), 1);
    assert_eq!(frame.pin_count(), 1);
    assert_eq!(manager.buffer(BufferId(0)).page, page_of(42));
    assert_eq!(manager.buffer(BufferId(0)).page_id, PageId(5));
    assert!(!manager.buffer(BufferId(0)).is_dirty);
    assert!(manager.is_held(BufferId(0)));
}

#[test]
fn hit_counts_an_access_and_a_handle_without_io() {
    let mut manager = BufferPoolManager::new(2);
    let mut disk = Disk::with_pages(4);
    let first = fetch(&mut manager, &mut disk, PageId(3)).unwrap();
    let second = fetch(&mut manager, &mut disk, PageId(3)).unwrap();
    assert_eq!(first, second);
    assert_eq!(disk.log, vec!["read 3"]);
    assert_eq!(manager.frame(first).usage_count(), 2);
    assert_eq!(manager.frame(first).pin_count(), 2);
    assert_eq!(manager.pool().next_victim_id(), BufferId(1));
    manager.release(first);
    assert!(manager.is_held(first));
    manager.release(second);
    assert!(!manager.is_held(first));
    assert_eq!(manager.frame(first).usage_count(), 2);
}

#[test]
fn clock_sweep_scenario_with_two_frames() {
    let mut manager = BufferPoolManager::new(2);
    let mut disk = Disk::with_pages(3);

    let a = visit(&mut manager, &mut disk, PageId(0));
    assert_eq!(a, BufferId(0));
    assert_eq!(manager.frame(a).usage_count(), 1);

    let b = visit(&mut manager, &mut disk, PageId(1));
    assert_eq!(b, BufferId(1));
    assert_eq!(manager.frame(b).usage_count(), 1);

    let c = visit(&mut manager, &mut disk, PageId(2));
    assert_eq!(c, a);
    assert_eq!(cached_pages(&manager), vec![Some(PageId(2)), Some(PageId(1))]);
    assert_eq!(manager.frame(a).usage_count(), 1);
    assert_eq!(manager.frame(b).usage_count(), 0);
    assert_eq!(manager.buffer(a).page, page_of(2));
    assert_eq!(manager.lookup(PageId(0)), None);

    visit(&mut manager, &mut disk, PageId(0));
    assert_eq!(disk.log, vec!["read 0", "read 1", "read 2", "read 0"]);
}

#[test]
fn pinned_page_survives_any_number_of_fetches() {
    let mut manager = BufferPoolManager::new(3);
    let mut disk = Disk::with_pages(40);
    let held = fetch(&mut manager, &mut disk, PageId(0)).unwrap();
    manager.page_mut(held)[10] = 99;
    for id in 1..40 {
        let other = visit(&mut manager, &mut disk, PageId(id));
        assert_ne!(other, held);
        assert_eq!(manager.frame(held).page_id(), Some(PageId(0)));
        assert_eq!(manager.buffer(held).page[10], 99);
        assert_eq!(manager.lookup(PageId(0)), Some(held));
    }
    assert_eq!(disk.log.iter().filter(|entry| *entry == "read 0").count(), 1);
}

#[test]
fn table_and_frames_agree_through_evictions() {
    let mut manager = BufferPoolManager::new(3);
    let mut disk = Disk::with_pages(8);
    let ids: Vec<u64> = (0..8).collect();
    assert_table_matches_frames(&manager, &ids);
    for id in [0, 1, 2, 3, 1, 4, 0, 5, 5, 6, 2, 7, 7, 3] {
        visit(&mut manager, &mut disk, PageId(id));
        assert_table_matches_frames(&manager, &ids);
        let frame = manager.lookup(PageId(id)).unwrap();
        assert_eq!(manager.frame(frame).page_id(), Some(PageId(id)));
    }
    let cached = ids.iter().filter(|id| manager.lookup(PageId(**id)).is_some()).count();
    assert_eq!(cached, 3);
}

#[test]
fn dirty_victim_is_written_before_its_frame_is_read_into() {
    let mut manager = BufferPoolManager::new(1);
    let mut disk = Disk::with_pages(2);
    let handle = fetch(&mut manager, &mut disk, PageId(0)).unwrap();
    *manager.page_mut(handle) = page_of(77);
    manager.set_dirty(handle, true);
    manager.release(handle);

    let step = manager.fetch_page(PageId(1)).unwrap();
    assert_eq!(
        step,
        FetchStep::WriteBack {
            buffer_id: handle,
            page_id: PageId(0)
        }
    );
    assert_eq!(
        manager.pending(),
        Some(Pending {
            buffer_id: handle,
            page_id: PageId(1),
            awaiting: Awaiting::WriteBack
        })
    );
    assert_eq!(manager.buffer(handle).page, page_of(77));
    assert!(manager.buffer(handle).is_dirty);
    assert_eq!(manager.lookup(PageId(0)), Some(handle));

    let step = manager.complete_write_back(Ok(())).unwrap();
    assert_eq!(step, FetchStep::Load { page_id: PageId(1) });
    assert_eq!(
        manager.pending(),
        Some(Pending {
            buffer_id: handle,
            page_id: PageId(1),
            awaiting: Awaiting::Load
        })
    );
    assert!(!manager.buffer(handle).is_dirty);
    assert_eq!(manager.lookup(PageId(0)), Some(handle));

    let step = manager.complete_load(Ok(&page_of(1))).unwrap();
    assert_eq!(step, FetchStep::Ready(handle));
    assert_eq!(manager.lookup(PageId(0)), None);
    assert_eq!(manager.lookup(PageId(1)), Some(handle));
}

#[test]
fn dirty_page_is_written_once_and_clean_pages_never() {
    let mut manager = BufferPoolManager::new(2);
    let mut disk = Disk::with_pages(4);
    let handle = fetch(&mut manager, &mut disk, PageId(0)).unwrap();
    manager.set_dirty(handle, true);
    manager.release(handle);
    visit(&mut manager, &mut disk, PageId(1));
    visit(&mut manager, &mut disk, PageId(2));
    visit(&mut manager, &mut disk, PageId(3));
    visit(&mut manager, &mut disk, PageId(0));
    assert_eq!(
        disk.log,
        vec!["read 0", "read 1", "write 0", "read 2", "read 3", "read 0"]
    );
}

#[test]
fn content_survives_eviction_and_reload() {
    let mut manager = BufferPoolManager::new(2);
    let mut disk = Disk::with_pages(5);
    let mut content = page_of(0);
    content[..5].copy_from_slice(b"hello");

    let handle = fetch(&mut manager, &mut disk, PageId(3)).unwrap();
    *manager.page_mut(handle) = content;
    manager.set_dirty(handle, true);
    manager.release(handle);

    visit(&mut manager, &mut disk, PageId(0));
    visit(&mut manager, &mut disk, PageId(1));
    visit(&mut manager, &mut disk, PageId(2));
    assert_eq!(manager.lookup(PageId(3)), None);
    assert_eq!(disk.pages[&3], content);

    let again = fetch(&mut manager, &mut disk, PageId(3)).unwrap();
    assert_eq!(manager.buffer(again).page, content);
    assert!(!manager.buffer(again).is_dirty);
}

#[test]
fn content_written_to_the_heap_file_is_what_a_fetch_returns() {
    let mut manager = BufferPoolManager::new(1);
    let mut disk = Disk::with_pages(2);
    let mut content = page_of(0);
    content[..5].copy_from_slice(b"world");
    disk.pages.insert(1, content);
    visit(&mut manager, &mut disk, PageId(0));
    let handle = fetch(&mut manager, &mut disk, PageId(1)).unwrap();
    assert_eq!(manager.buffer(handle).page, content);
    manager.release(handle);
    visit(&mut manager, &mut disk, PageId(0));
    let handle = fetch(&mut manager, &mut disk, PageId(1)).unwrap();
    assert_eq!(manager.buffer(handle).page, content);
}

#[test]
fn change_without_dirty_flag_is_lost_on_eviction() {
    let mut manager = BufferPoolManager::new(1);
    let mut disk = Disk::with_pages(2);
    let handle = fetch(&mut manager, &mut disk, PageId(0)).unwrap();
    *manager.page_mut(handle) = page_of(200);
    manager.release(handle);
    visit(&mut manager, &mut disk, PageId(1));
    let handle = fetch(&mut manager, &mut disk, PageId(0)).unwrap();
    assert_eq!(manager.buffer(handle).page, page_of(0));
    assert_eq!(disk.log, vec!["read 0", "read 1", "read 0"]);
}

#[test]
fn fetch_fails_when_every_frame_is_pinned_and_succeeds_after_a_release() {
    let capacity = 3;
    let mut manager = BufferPoolManager::new(capacity);
    let mut disk = Disk::with_pages(4);
    let mut handles = Vec::new();
    for id in 0..3 {
        handles.push(fetch(&mut manager, &mut disk, PageId(id)).unwrap());
    }
    let cursor = manager.pool().next_victim_id();
    let result = fetch(&mut manager, &mut disk, PageId(3));
    assert!(matches!(result, Err(Error::NoFreeBuffer)));
    assert_eq!(manager.pending(), None);
    assert_eq!(manager.pool().next_victim_id(), cursor);
    assert_eq!(
        cached_pages(&manager),
        vec![Some(PageId(0)), Some(PageId(1)), Some(PageId(2))]
    );
    for handle in &handles {
        assert_eq!(manager.frame(*handle).usage_count(), 1);
        assert_eq!(manager.frame(*handle).pin_count(), 1);
    }
    assert_eq!(disk.log, vec!["read 0", "read 1", "read 2"]);

    manager.release(handles[1]);
    let handle = fetch(&mut manager, &mut disk, PageId(3)).unwrap();
    assert_eq!(handle, handles[1]);
    assert_eq!(manager.buffer(handle).page, page_of(3));
    assert_eq!(manager.lookup(PageId(1)), None);
}

#[test]
fn failed_write_ends_the_fetch_and_keeps_the_dirty_page() {
    let mut manager = BufferPoolManager::new(1);
    let mut disk = Disk::with_pages(2);
    let handle = fetch(&mut manager, &mut disk, PageId(0)).unwrap();
    *manager.page_mut(handle) = page_of(55);
    manager.set_dirty(handle, true);
    manager.release(handle);

    disk.fail_writes = true;
    let result = fetch(&mut manager, &mut disk, PageId(1));
    match result {
        Err(Error::Io(e)) => {
            assert_eq!(e.kind(), io::ErrorKind::WriteZero);
            assert_eq!(e.to_string(), "short write");
        }
        other => panic!("expected the write's failure, got {:?}", other),
    }
    assert_eq!(manager.pending(), None);
    assert_eq!(manager.lookup(PageId(0)), Some(handle));
    assert_eq!(manager.lookup(PageId(1)), None);
    assert_eq!(manager.frame(handle).page_id(), Some(PageId(0)));
    assert_eq!(manager.buffer(handle).page, page_of(55));
    assert!(manager.buffer(handle).is_dirty);
    assert_eq!(disk.log, vec!["read 0", "write 0"]);

    disk.fail_writes = false;
    let handle = fetch(&mut manager, &mut disk, PageId(1)).unwrap();
    assert_eq!(manager.buffer(handle).page, page_of(1));
    assert_eq!(disk.pages[&0], page_of(55));
}

#[test]
fn failed_read_ends_the_fetch_and_keeps_the_old_page() {
    let mut manager = BufferPoolManager::new(1);
    let mut disk = Disk::with_pages(1);
    let handle = visit(&mut manager, &mut disk, PageId(0));

    let result = fetch(&mut manager, &mut disk, PageId(9));
    match result {
        Err(Error::Io(e)) => assert_eq!(e.kind(), io::ErrorKind::UnexpectedEof),
        other => panic!("expected the read's failure, got {:?}", other),
    }
    assert_eq!(manager.pending(), None);
    assert_eq!(manager.lookup(PageId(9)), None);
    assert_eq!(manager.lookup(PageId(0)), Some(handle));
    assert_eq!(manager.buffer(handle).page, page_of(0));
    assert!(!manager.is_held(handle));

    let again = fetch(&mut manager, &mut disk, PageId(0)).unwrap();
    assert_eq!(again, handle);
    assert_eq!(disk.log, vec!["read 0", "read 9"]);
}

#[test]
fn failed_read_after_write_back_leaves_the_page_clean_and_cached() {
    let mut manager = BufferPoolManager::new(1);
    let mut disk = Disk::with_pages(1);
    let handle = fetch(&mut manager, &mut disk, PageId(0)).unwrap();
    *manager.page_mut(handle) = page_of(8);
    manager.set_dirty(handle, true);
    manager.release(handle);

    disk.fail_reads = true;
    let result = fetch(&mut manager, &mut disk, PageId(1));
    match result {
        Err(Error::Io(e)) => assert_eq!(e.kind(), io::ErrorKind::Other),
        other => panic!("expected the read's failure, got {:?}", other),
    }
    assert_eq!(disk.pages[&0], page_of(8));
    assert_eq!(manager.lookup(PageId(0)), Some(handle));
    assert_eq!(manager.buffer(handle).page, page_of(8));
    assert!(!manager.buffer(handle).is_dirty);
    assert_eq!(disk.log, vec!["read 0", "write 0", "read 1"]);
}

#[test]
fn sweep_position_carries_over_between_fetches() {
    let mut manager = BufferPoolManager::new(3);
    let mut disk = Disk::with_pages(6);
    assert_eq!(visit(&mut manager, &mut disk, PageId(0)), BufferId(0));
    assert_eq!(visit(&mut manager, &mut disk, PageId(1)), BufferId(1));
    assert_eq!(visit(&mut manager, &mut disk, PageId(2)), BufferId(2));
    assert_eq!(manager.pool().next_victim_id(), BufferId(0));
    assert_eq!(visit(&mut manager, &mut disk, PageId(3)), BufferId(0));
    assert_eq!(manager.pool().next_victim_id(), BufferId(1));
    // Frames 1 and 2 were worn down by the last sweep; the next one takes frame 1.
    assert_eq!(visit(&mut manager, &mut disk, PageId(4)), BufferId(1));
    assert_eq!(visit(&mut manager, &mut disk, PageId(5)), BufferId(2));
    assert_eq!(
        cached_pages(&manager),
        vec![Some(PageId(3)), Some(PageId(4)), Some(PageId(5))]
    );
}

#[test]
fn recently_used_page_outlives_an_unused_one() {
    let mut manager = BufferPoolManager::new(2);
    let mut disk = Disk::with_pages(3);
    visit(&mut manager, &mut disk, PageId(0));
    visit(&mut manager, &mut disk, PageId(1));
    visit(&mut manager, &mut disk, PageId(0));
    visit(&mut manager, &mut disk, PageId(0));
    // Usage is 3 for page 0 and 1 for page 1: the sweep reaches zero at page 1
    // first, having passed page 0 twice.
    assert_eq!(visit(&mut manager, &mut disk, PageId(2)), BufferId(1));
    assert_eq!(manager.lookup(PageId(0)), Some(BufferId(0)));
    assert_eq!(manager.frame(BufferId(0)).usage_count(), 1);
}
