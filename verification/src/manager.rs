//! The buffer pool manager.
//!
//! The manager keeps the pool and the page table in step and decides what
//! has to be written to and read from the heap file. It does not touch the
//! file. [`BufferPoolManager::fetch_page`] answers with a [`FetchStep`]: the
//! handle, when the page is in the pool, or else the write or the read that
//! the caller has to perform, whose outcome the caller then reports with
//! [`BufferPoolManager::complete_write_back`] or
//! [`BufferPoolManager::complete_load`] to get the next step. One fetch
//! sweeps at most once, asks for at most one write and one read, and asks
//! for the read of a frame only once that frame's buffer is clean.
//!
//! A handle is the index of the frame. Each successful fetch counts one
//! handle on the frame, and [`BufferPoolManager::release`] gives one back;
//! while a frame has handles the sweep passes over it.

use crate::buffer::{Buffer, BufferId, Frame, FrameView, Page};
use crate::disk_manager::{PageId, PAGE_SIZE};
use crate::laws::{
    lemma_fetch_keeps_invariant, lemma_held_frame_changes_keep_invariant,
    lemma_load_keeps_invariant, lemma_write_back_keeps_invariant,
};
use crate::page_table::PageTable;
use crate::pool::BufferPool;
use crate::sweep::{lemma_sweep_keeps_buffers, lemma_victim_exists, PoolView};
use vstd::pervasive::unreached;
use vstd::prelude::*;

verus! {

/// `std::io::Error`, the failure of a read or a write of the heap file.
/// It is declared here so that it can stand in signatures; nothing is
/// claimed of it. The manager hands such a value on and never looks into
/// it.
#[verifier::external_type_specification]
#[verifier::external_body]
pub struct ExIoError(std::io::Error);

/// Why a fetch did not end with a handle.
#[derive(Debug)]
pub enum Error {
    /// Every frame is pinned. Nothing was changed; the caller can release a
    /// handle and fetch again.
    NoFreeBuffer,
    /// The heap file failed to write or read a page; the value is the
    /// failure as it was reported to the manager.
    Io(std::io::Error),
}

/// What a fetch has come to.
#[derive(PartialEq, Eq, Debug, Clone, Copy, Structural)]
pub enum FetchStep {
    /// The page is in the pool, and this is the handle to its frame.
    Ready(BufferId),
    /// The bytes in frame `buffer_id` have to be written to the heap file
    /// as page `page_id` before the frame can be reused.
    WriteBack { buffer_id: BufferId, page_id: PageId },
    /// Page `page_id` has to be read from the heap file.
    Load { page_id: PageId },
}

/// What a fetch waits for.
#[derive(PartialEq, Eq, Debug, Clone, Copy, Structural)]
pub enum Awaiting {
    /// The outcome of writing the frame's buffer to the heap file.
    WriteBack,
    /// The outcome of reading the page from the heap file.
    Load,
}

/// A fetch that waits for the heap file.
#[derive(PartialEq, Eq, Debug, Clone, Copy, Structural)]
pub struct Pending {
    /// The frame that the sweep selected for the fetch.
    pub buffer_id: BufferId,
    /// The page that the fetch is for.
    pub page_id: PageId,
    /// What the fetch waits for.
    pub awaiting: Awaiting,
}

/// The manager as mathematical values.
pub struct ManagerView {
    pub pool: PoolView,
    pub table: Map<PageId, BufferId>,
    pub pending: Option<Pending>,
}

impl ManagerView {
    /// Every entry of the page table names a frame that holds the entry's
    /// page.
    pub open spec fn table_names_frames(self) -> bool {
        forall|page_id: PageId| #[trigger]
            self.table.contains_key(page_id) ==> {
                &&& self.pool.has(self.table[page_id].0 as int)
                &&& self.pool.frames[self.table[page_id].0 as int].page_id == Some(page_id)
            }
    }

    /// Whether frame `b` is in the page table under the page it holds or,
    /// if it holds none, is unpinned, unused and clean.
    pub open spec fn frame_is_tabled(self, b: int) -> bool {
        match self.pool.frames[b].page_id {
            Some(page_id) => self.table.contains_key(page_id) && self.table[page_id].0 == b,
            None => {
                &&& self.pool.frames[b].pin_count == 0
                &&& self.pool.frames[b].usage_count == 0
                &&& !self.pool.frames[b].is_dirty
            },
        }
    }

    /// Every frame that holds a page is the one that the page table names
    /// for that page, and a frame that holds none is unpinned, unused and
    /// clean.
    pub open spec fn frames_are_tabled(self) -> bool {
        forall|b: int| self.pool.has(b) ==> #[trigger] self.frame_is_tabled(b)
    }

    /// A fetch that waits has an unpinned frame without usage and is for a
    /// page that is not in the pool; it waits for the write while the
    /// frame's buffer is dirty and for the read once it is clean.
    pub open spec fn pending_is_sound(self) -> bool {
        self.pending matches Some(pending) ==> {
            &&& self.pool.has(pending.buffer_id.0 as int)
            &&& self.pool.frames[pending.buffer_id.0 as int].pin_count == 0
            &&& self.pool.frames[pending.buffer_id.0 as int].usage_count == 0
            &&& self.pool.frames[pending.buffer_id.0 as int].is_dirty <==> pending.awaiting
                == Awaiting::WriteBack
            &&& !self.table.contains_key(pending.page_id)
        }
    }

    /// The invariant of the manager.
    pub open spec fn wf(self) -> bool {
        &&& self.pool.wf()
        &&& self.pool.frames.len() <= usize::MAX
        &&& self.table_names_frames()
        &&& self.frames_are_tabled()
        &&& self.pending_is_sound()
    }

    /// A manager over `pool` with nothing cached.
    pub open spec fn fresh(pool: PoolView) -> ManagerView {
        ManagerView { pool, table: Map::empty(), pending: None }
    }

    /// Whether no fetch waits for the heap file.
    pub open spec fn is_idle(self) -> bool {
        self.pending is None
    }

    /// Whether a fetch waits for `what`.
    pub open spec fn awaits(self, what: Awaiting) -> bool {
        self.pending matches Some(pending) && pending.awaiting == what
    }

    /// Whether `page_id` is in the pool.
    pub open spec fn is_cached(self, page_id: PageId) -> bool {
        self.table.contains_key(page_id)
    }

    /// The frame that holds `page_id`, when it is in the pool.
    pub open spec fn frame_of(self, page_id: PageId) -> int {
        self.table[page_id].0 as int
    }

    /// Whether a fetch of `page_id` may begin: no other fetch waits, and if
    /// the page is in the pool, its frame can count one more handle.
    pub open spec fn can_fetch(self, page_id: PageId) -> bool {
        &&& self.is_idle()
        &&& self.is_cached(page_id) ==> self.pool.frames[self.frame_of(page_id)].pin_count
            < u64::MAX
    }

    /// Whether frame `b` exists and a caller holds a handle on it.
    pub open spec fn is_held(self, b: int) -> bool {
        self.pool.has(b) && self.pool.frames[b].pin_count > 0
    }

    /// The manager with `frame` in place of frame `b`.
    pub open spec fn with_frame(self, b: int, frame: FrameView) -> ManagerView {
        ManagerView { pool: self.pool.with_frame(b, frame), ..self }
    }

    /// What a fetch of `page_id` answers.
    pub open spec fn fetch_step(self, page_id: PageId) -> Result<FetchStep, Error> {
        if self.is_cached(page_id) {
            Ok(FetchStep::Ready(self.table[page_id]))
        } else {
            match self.pool.victim() {
                None => Err(Error::NoFreeBuffer),
                Some(v) => if self.pool.frames[v].is_dirty {
                    Ok(
                        FetchStep::WriteBack {
                            buffer_id: BufferId(v as usize),
                            page_id: self.pool.frames[v].page_id.unwrap(),
                        },
                    )
                } else {
                    Ok(FetchStep::Load { page_id })
                },
            }
        }
    }

    /// The manager after a fetch of `page_id` has begun. A page in the pool
    /// gets one more access and one more handle. For any other page the
    /// sweep runs, and unless every frame is pinned the fetch then waits
    /// for the heap file: for the write if the selected frame's buffer is
    /// dirty, else for the read.
    pub open spec fn after_fetch(self, page_id: PageId) -> ManagerView {
        if self.is_cached(page_id) {
            let b = self.frame_of(page_id);
            self.with_frame(b, self.pool.frames[b].touched().repinned(1))
        } else {
            match self.pool.victim() {
                None => self,
                Some(v) => ManagerView {
                    pool: self.pool.swept(v),
                    pending: Some(
                        Pending {
                            buffer_id: BufferId(v as usize),
                            page_id,
                            awaiting: if self.pool.frames[v].is_dirty {
                                Awaiting::WriteBack
                            } else {
                                Awaiting::Load
                            },
                        },
                    ),
                    ..self
                },
            }
        }
    }

    /// What the manager answers to the outcome of the write it asked for.
    pub open spec fn write_back_step(self, outcome: Result<(), std::io::Error>) -> Result<
        FetchStep,
        Error,
    >
        recommends
            self.awaits(Awaiting::WriteBack),
    {
        match outcome {
            Ok(_) => Ok(FetchStep::Load { page_id: self.pending.unwrap().page_id }),
            Err(e) => Err(Error::Io(e)),
        }
    }

    /// The manager after the write it asked for: if the write succeeded,
    /// the frame's buffer is clean and the fetch waits for the read; if it
    /// failed, the fetch is over and nothing else has changed.
    pub open spec fn after_write_back(self, written: bool) -> ManagerView
        recommends
            self.awaits(Awaiting::WriteBack),
    {
        let pending = self.pending.unwrap();
        let v = pending.buffer_id.0 as int;
        if written {
            ManagerView {
                pending: Some(Pending { awaiting: Awaiting::Load, ..pending }),
                ..self.with_frame(v, self.pool.frames[v].flagged(false))
            }
        } else {
            ManagerView { pending: None, ..self }
        }
    }

    /// What the manager answers to the outcome of the read it asked for.
    pub open spec fn load_step(self, outcome: Result<Seq<u8>, std::io::Error>) -> Result<
        FetchStep,
        Error,
    >
        recommends
            self.awaits(Awaiting::Load),
    {
        match outcome {
            Ok(_) => Ok(FetchStep::Ready(self.pending.unwrap().buffer_id)),
            Err(e) => Err(Error::Io(e)),
        }
    }

    /// The page table after frame `b` was given to `page_id`: the page that
    /// the frame held, if any, is out, and `page_id` is in.
    pub open spec fn retabled(self, b: int, page_id: PageId) -> Map<PageId, BufferId> {
        let kept = match self.pool.frames[b].page_id {
            Some(evicted) => self.table.remove(evicted),
            None => self.table,
        };
        kept.insert(page_id, BufferId(b as usize))
    }

    /// The manager after the read it asked for: if the read gave `page`,
    /// the frame holds the new page with these bytes, clean, with one
    /// access and one handle, and the page table names it for the new page
    /// and no longer for the old one; if the read failed, the fetch is over
    /// and nothing else has changed.
    pub open spec fn after_load(self, page: Option<Seq<u8>>) -> ManagerView
        recommends
            self.awaits(Awaiting::Load),
    {
        let pending = self.pending.unwrap();
        let v = pending.buffer_id.0 as int;
        match page {
            Some(bytes) => ManagerView {
                pool: self.pool.with_frame(v, FrameView::loaded(pending.page_id, bytes)),
                table: self.retabled(v, pending.page_id),
                pending: None,
            },
            None => ManagerView { pending: None, ..self },
        }
    }

    /// The manager after one handle on frame `b` was given back.
    pub open spec fn after_release(self, b: int) -> ManagerView {
        self.with_frame(b, self.pool.frames[b].repinned(-1))
    }
}

/// Caches the pages of a heap file in a pool of frames.
#[derive(Debug)]
pub struct BufferPoolManager {
    pool: BufferPool,
    page_table: PageTable,
    pending: Option<Pending>,
}

impl View for BufferPoolManager {
    type V = ManagerView;

    closed spec fn view(&self) -> ManagerView {
        ManagerView { pool: self.pool@, table: self.page_table@, pending: self.pending }
    }
}

impl BufferPoolManager {
    /// A manager over a pool of `capacity` frames with nothing cached.
    pub fn new(capacity: usize) -> (manager: Self)
        requires
            capacity > 0,
        ensures
            manager@ == ManagerView::fresh(PoolView::vacant(capacity as nat)),
            manager@.wf(),
    {
        let manager = BufferPoolManager {
            pool: BufferPool::new(capacity),
            page_table: PageTable::new(),
            pending: None,
        };
        assert forall|b: int| manager@.pool.has(b) implies #[trigger] manager@.frame_is_tabled(
            b,
        ) by {}
        manager
    }

    /// The number of frames.
    pub fn capacity(&self) -> (capacity: usize)
        ensures
            capacity == self@.pool.frames.len(),
    {
        self.pool.size()
    }

    /// The pool, to look at.
    pub fn pool(&self) -> (pool: &BufferPool)
        ensures
            pool@ == self@.pool,
    {
        &self.pool
    }

    /// The fetch that waits for the heap file, if one does.
    pub fn pending(&self) -> (pending: Option<Pending>)
        ensures
            pending == self@.pending,
    {
        self.pending
    }

    /// The frame that holds `page_id`, or `None` when the page is not in
    /// the pool. Counts neither an access nor a handle.
    pub fn lookup(&self, page_id: PageId) -> (found: Option<BufferId>)
        ensures
            found == if self@.is_cached(page_id) {
                Some(self@.table[page_id])
            } else {
                None
            },
    {
        self.page_table.lookup(page_id)
    }

    /// Whether a fetch of `page_id` may begin.
    pub fn can_fetch(&self, page_id: PageId) -> (yes: bool)
        requires
            self@.wf(),
        ensures
            yes == self@.can_fetch(page_id),
    {
        if self.pending.is_some() {
            return false;
        }
        match self.page_table.lookup(page_id) {
            Some(buffer_id) => self.pool.frame(buffer_id).pin_count() < u64::MAX,
            None => true,
        }
    }

    /// Whether frame `buffer_id` exists and a caller holds a handle on it.
    pub fn is_held(&self, buffer_id: BufferId) -> (yes: bool)
        ensures
            yes == self@.is_held(buffer_id.0 as int),
    {
        buffer_id.0 < self.pool.size() && self.pool.frame(buffer_id).is_pinned()
    }

    /// Frame `buffer_id`, to look at.
    pub fn frame(&self, buffer_id: BufferId) -> (frame: &Frame)
        requires
            self@.pool.has(buffer_id.0 as int),
        ensures
            frame@ == self@.pool.frames[buffer_id.0 as int],
    {
        self.pool.frame(buffer_id)
    }

    /// The buffer in frame `buffer_id`, to read.
    pub fn buffer(&self, buffer_id: BufferId) -> (buffer: &Buffer)
        requires
            self@.pool.has(buffer_id.0 as int),
        ensures
            buffer.page@ == self@.pool.frames[buffer_id.0 as int].page,
            buffer.is_dirty == self@.pool.frames[buffer_id.0 as int].is_dirty,
            self@.pool.frames[buffer_id.0 as int].page_id matches Some(page_id)
                ==> buffer.page_id == page_id,
    {
        self.pool.frame(buffer_id).buffer()
    }

    /// Begins a fetch of `page_id`.
    ///
    /// A page in the pool is answered at once with `Ready` and the handle:
    /// its frame counts one more access and one more handle, and nothing is
    /// asked of the heap file. For any other page the sweep runs once. If
    /// every frame is pinned the answer is `NoFreeBuffer` and nothing has
    /// changed. Otherwise the frame that the sweep selected is kept for this
    /// fetch: if its buffer is dirty the answer is `WriteBack` with the
    /// frame and the page that it holds, else `Load` with `page_id`. Until
    /// the fetch is over the frame still holds its old page, and the page
    /// table is as before.
    ///
    /// The frame selected is never one that a caller holds a handle on, and
    /// no buffer changes, whether pinned or not.
    pub fn fetch_page(&mut self, page_id: PageId) -> (step: Result<FetchStep, Error>)
        requires
            old(self)@.wf(),
            old(self)@.can_fetch(page_id),
        ensures
            final(self)@.wf(),
            step == old(self)@.fetch_step(page_id),
            final(self)@ == old(self)@.after_fetch(page_id),
            step is Err <==> !old(self)@.is_cached(page_id) && old(self)@.pool.all_pinned(),
            step matches Ok(FetchStep::WriteBack { buffer_id, page_id: evicted }) ==> {
                &&& old(self)@.pool.frames[buffer_id.0 as int].pin_count == 0
                &&& old(self)@.pool.frames[buffer_id.0 as int].is_dirty
                &&& old(self)@.pool.frames[buffer_id.0 as int].page_id == Some(evicted)
            },
            final(self)@.pending matches Some(pending) ==> old(
                self,
            )@.pool.frames[pending.buffer_id.0 as int].pin_count == 0,
            forall|b: int|
                old(self)@.pool.has(b) ==> {
                    &&& (#[trigger] final(self)@.pool.frames[b]).page_id
                        == old(self)@.pool.frames[b].page_id
                    &&& final(self)@.pool.frames[b].page == old(self)@.pool.frames[b].page
                    &&& final(self)@.pool.frames[b].is_dirty == old(self)@.pool.frames[b].is_dirty
                },
    {
        proof {
            lemma_victim_exists(self@.pool);
            lemma_fetch_keeps_invariant(self@, page_id);
            assert forall|b: int| self@.pool.has(b) implies (
            #[trigger] self@.pool.after_evict().frames[b]).page_id == self@.pool.frames[b].page_id
                && self@.pool.after_evict().frames[b].page == self@.pool.frames[b].page
                && self@.pool.after_evict().frames[b].is_dirty
                == self@.pool.frames[b].is_dirty by {
                lemma_sweep_keeps_buffers(self@.pool, b);
            }
        }
        if let Some(buffer_id) = self.page_table.lookup(page_id) {
            let frame = self.pool.frame_mut(buffer_id);
            frame.touch();
            frame.pin();
            return Ok(FetchStep::Ready(buffer_id));
        }
        let buffer_id = match self.pool.evict() {
            Some(buffer_id) => buffer_id,
            None => {
                return Err(Error::NoFreeBuffer);
            },
        };
        let buffer = self.pool.frame(buffer_id).buffer();
        if buffer.is_dirty {
            let evicted = buffer.page_id;
            assert(old(self)@.frame_is_tabled(buffer_id.0 as int));
            self.pending = Some(Pending { buffer_id, page_id, awaiting: Awaiting::WriteBack });
            Ok(FetchStep::WriteBack { buffer_id, page_id: evicted })
        } else {
            self.pending = Some(Pending { buffer_id, page_id, awaiting: Awaiting::Load });
            Ok(FetchStep::Load { page_id })
        }
    }

    /// Takes the outcome of the write that `fetch_page` asked for.
    ///
    /// After a successful write the frame's buffer is clean, and the answer
    /// is `Load` with the page that the fetch is for. After a failed write
    /// the fetch is over: the answer is the failure as it was given, the
    /// buffer is still dirty, and the frame, the page table and all other
    /// frames are as they were.
    pub fn complete_write_back(&mut self, outcome: Result<(), std::io::Error>) -> (step: Result<
        FetchStep,
        Error,
    >)
        requires
            old(self)@.wf(),
            old(self)@.awaits(Awaiting::WriteBack),
        ensures
            final(self)@.wf(),
            step == old(self)@.write_back_step(outcome),
            final(self)@ == old(self)@.after_write_back(outcome is Ok),
    {
        proof {
            lemma_write_back_keeps_invariant(self@, outcome is Ok);
        }
        let pending = match self.pending {
            Some(pending) => pending,
            None => unreached(),
        };
        match outcome {
            Ok(_) => {
                self.pool.frame_mut(pending.buffer_id).set_dirty(false);
                self.pending = Some(Pending { awaiting: Awaiting::Load, ..pending });
                Ok(FetchStep::Load { page_id: pending.page_id })
            },
            Err(e) => {
                self.pending = None;
                Err(Error::Io(e))
            },
        }
    }

    /// Takes the outcome of the read that the manager asked for.
    ///
    /// After a successful read the frame holds the page with the bytes that
    /// were read, clean, with one access and one handle; the page table
    /// names the frame for the new page and no longer for the page that the
    /// frame held; the answer is `Ready` with the handle. After a failed
    /// read the fetch is over: the answer is the failure as it was given,
    /// and the frame still holds its old page with its old bytes.
    pub fn complete_load(&mut self, outcome: Result<&Page, std::io::Error>) -> (step: Result<
        FetchStep,
        Error,
    >)
        requires
            old(self)@.wf(),
            old(self)@.awaits(Awaiting::Load),
        ensures
            final(self)@.wf(),
            step == old(self)@.load_step(
                match outcome {
                    Ok(page) => Ok(page@),
                    Err(e) => Err(e),
                },
            ),
            final(self)@ == old(self)@.after_load(
                match outcome {
                    Ok(page) => Some(page@),
                    Err(_) => None,
                },
            ),
    {
        proof {
            lemma_load_keeps_invariant(
                self@,
                match outcome {
                    Ok(page) => Some(page@),
                    Err(_) => None,
                },
            );
        }
        let pending = match self.pending {
            Some(pending) => pending,
            None => unreached(),
        };
        match outcome {
            Ok(page) => {
                if let Some(evicted) = self.pool.frame(pending.buffer_id).page_id() {
                    self.page_table.remove(evicted);
                }
                self.pool.frame_mut(pending.buffer_id).load(pending.page_id, page);
                self.page_table.insert(pending.page_id, pending.buffer_id);
                self.pending = None;
                Ok(FetchStep::Ready(pending.buffer_id))
            },
            Err(e) => {
                self.pending = None;
                Err(Error::Io(e))
            },
        }
    }

    /// Gives back one handle on frame `buffer_id`. Once a frame has no
    /// handle left the sweep may select it.
    pub fn release(&mut self, buffer_id: BufferId)
        requires
            old(self)@.wf(),
            old(self)@.is_held(buffer_id.0 as int),
        ensures
            final(self)@.wf(),
            final(self)@ == old(self)@.after_release(buffer_id.0 as int),
    {
        proof {
            let page = self@.pool.frames[buffer_id.0 as int].page;
            lemma_held_frame_changes_keep_invariant(self@, buffer_id.0 as int, false, page);
        }
        self.pool.frame_mut(buffer_id).unpin();
    }

    /// Sets the dirty flag of the buffer in frame `buffer_id`, on which the
    /// caller holds a handle. A buffer that is dirty when its frame is
    /// reused is written to the heap file first; one that is not is
    /// overwritten as it is.
    pub fn set_dirty(&mut self, buffer_id: BufferId, dirty: bool)
        requires
            old(self)@.wf(),
            old(self)@.is_held(buffer_id.0 as int),
        ensures
            final(self)@.wf(),
            final(self)@ == old(self)@.with_frame(
                buffer_id.0 as int,
                old(self)@.pool.frames[buffer_id.0 as int].flagged(dirty),
            ),
    {
        proof {
            let page = self@.pool.frames[buffer_id.0 as int].page;
            lemma_held_frame_changes_keep_invariant(self@, buffer_id.0 as int, dirty, page);
        }
        self.pool.frame_mut(buffer_id).set_dirty(dirty);
    }

    /// The bytes of the buffer in frame `buffer_id`, on which the caller
    /// holds a handle, to be changed in place. The dirty flag stays as it
    /// is: a caller who changes the bytes sets it with `set_dirty`.
    pub fn page_mut(&mut self, buffer_id: BufferId) -> (page: &mut Page)
        requires
            old(self)@.wf(),
            old(self)@.is_held(buffer_id.0 as int),
        ensures
            page@ == old(self)@.pool.frames[buffer_id.0 as int].page,
            final(self)@.wf(),
            final(self)@ == old(self)@.with_frame(
                buffer_id.0 as int,
                old(self)@.pool.frames[buffer_id.0 as int].rewritten(final(page)@),
            ),
    {
        proof {
            let before = self@;
            assert forall|bytes: Seq<u8>| bytes.len() == PAGE_SIZE implies (
            #[trigger] before.with_frame(
                buffer_id.0 as int,
                before.pool.frames[buffer_id.0 as int].rewritten(bytes),
            )).wf() by {
                lemma_held_frame_changes_keep_invariant(before, buffer_id.0 as int, false, bytes);
            }
        }
        self.pool.frame_mut(buffer_id).page_mut()
    }
}

} // verus!
