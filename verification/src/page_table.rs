//! The page table: which frame holds which page.

use crate::buffer::BufferId;
use crate::disk_manager::PageId;
use std::collections::HashMap;
use vstd::prelude::*;

verus! {

broadcast use vstd::std_specs::hash::group_hash_axioms;

/// Maps the pages that are in the pool to the frames that hold them.
#[derive(Debug)]
pub struct PageTable {
    frames: HashMap<u64, usize>,
}

impl View for PageTable {
    type V = Map<PageId, BufferId>;

    closed spec fn view(&self) -> Map<PageId, BufferId> {
        Map::new(
            |page_id: PageId| self.frames@.contains_key(page_id.0),
            |page_id: PageId| BufferId(self.frames@[page_id.0]),
        )
    }
}

impl PageTable {
    /// A table without entries.
    pub fn new() -> (table: Self)
        ensures
            table@ == Map::<PageId, BufferId>::empty(),
    {
        let table = PageTable { frames: HashMap::new() };
        assert(table@ =~= Map::<PageId, BufferId>::empty());
        table
    }

    /// The frame that holds `page_id`, or `None` when the page is not in
    /// the table.
    pub fn lookup(&self, page_id: PageId) -> (found: Option<BufferId>)
        ensures
            found == if self@.contains_key(page_id) {
                Some(self@[page_id])
            } else {
                None
            },
    {
        match self.frames.get(&page_id.0) {
            Some(index) => Some(BufferId(*index)),
            None => None,
        }
    }

    /// Enters `page_id` as held by frame `buffer_id`. The page must not be
    /// in the table yet.
    pub fn insert(&mut self, page_id: PageId, buffer_id: BufferId)
        requires
            !old(self)@.contains_key(page_id),
        ensures
            final(self)@ == old(self)@.insert(page_id, buffer_id),
    {
        self.frames.insert(page_id.0, buffer_id.0);
        assert(self@ =~= old(self)@.insert(page_id, buffer_id));
    }

    /// Takes `page_id` out of the table; nothing happens when it is not in
    /// it.
    pub fn remove(&mut self, page_id: PageId)
        ensures
            final(self)@ == old(self)@.remove(page_id),
    {
        self.frames.remove(&page_id.0);
        assert(self@ =~= old(self)@.remove(page_id));
    }
}

} // verus!
