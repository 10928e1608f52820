//! Buffers and the frames that hold them.
//!
//! A [`Buffer`] is one cached page. A [`Frame`] is a slot of the pool: a
//! buffer, a usage count that the sweep wears down, and the number of
//! handles that callers hold on it. A frame with at least one handle is
//! pinned, and the sweep passes over it.

use crate::disk_manager::{zeros, PageId, PAGE_SIZE};
use vstd::prelude::*;

verus! {

/// The bytes of one page.
pub type Page = [u8; PAGE_SIZE];

/// Index of a frame in the pool. A caller who fetched a page holds the
/// frame's index as the handle to it.
#[derive(PartialEq, Eq, Debug, Clone, Copy, Hash, Structural)]
pub struct BufferId(pub usize);

/// One cached page: which page it is, its bytes, and whether the bytes were
/// changed since they were last written to or read from the heap file.
#[derive(Debug)]
pub struct Buffer {
    pub page_id: PageId,
    pub page: Page,
    pub is_dirty: bool,
}

impl Buffer {
    /// A clean buffer of zero bytes.
    pub fn new() -> (buffer: Self)
        ensures
            buffer.page_id == PageId(0),
            buffer.page@ == zeros(PAGE_SIZE as nat),
            !buffer.is_dirty,
    {
        let buffer = Buffer { page_id: PageId(0), page: [0u8;PAGE_SIZE], is_dirty: false };
        assert(buffer.page@ =~= zeros(PAGE_SIZE as nat));
        buffer
    }
}

/// One slot of the pool.
///
/// The pool owns the buffer for good; callers share it through handles. The
/// frame counts the handles that callers hold, not the pool's own hold on
/// the buffer, so a frame is pinned when the count is above zero. Until a
/// page is first loaded into it, a frame holds no page and the page number
/// in its buffer means nothing.
#[derive(Debug)]
pub struct Frame {
    usage_count: u64,
    pin_count: u64,
    occupied: bool,
    buffer: Buffer,
}

/// What a frame holds, as mathematical values.
pub struct FrameView {
    /// Accesses not yet worn down by the sweep.
    pub usage_count: nat,
    /// Handles that callers hold on the frame's buffer.
    pub pin_count: nat,
    /// The cached page, or `None` while the frame holds no page.
    pub page_id: Option<PageId>,
    /// The bytes in the frame's buffer.
    pub page: Seq<u8>,
    /// Whether the bytes still have to be written to the heap file.
    pub is_dirty: bool,
}

impl FrameView {
    /// A frame that holds no page.
    pub open spec fn vacant() -> FrameView {
        FrameView {
            usage_count: 0,
            pin_count: 0,
            page_id: None,
            page: zeros(PAGE_SIZE as nat),
            is_dirty: false,
        }
    }

    /// A frame right after page `page_id` with the bytes `page` was loaded
    /// into it for one caller.
    pub open spec fn loaded(page_id: PageId, page: Seq<u8>) -> FrameView {
        FrameView { usage_count: 1, pin_count: 1, page_id: Some(page_id), page, is_dirty: false }
    }

    /// Whether a caller holds a handle on the frame.
    pub open spec fn is_pinned(self) -> bool {
        self.pin_count > 0
    }

    /// The frame after one more access: the usage count grows by one and
    /// stops at the largest 64-bit value.
    pub open spec fn touched(self) -> FrameView {
        FrameView {
            usage_count: if self.usage_count < u64::MAX {
                self.usage_count + 1
            } else {
                self.usage_count
            },
            ..self
        }
    }

    /// The frame with `delta` added to its handle count.
    pub open spec fn repinned(self, delta: int) -> FrameView {
        FrameView { pin_count: (self.pin_count + delta) as nat, ..self }
    }

    /// The frame with its dirty flag set to `dirty`.
    pub open spec fn flagged(self, dirty: bool) -> FrameView {
        FrameView { is_dirty: dirty, ..self }
    }

    /// The frame with `page` as its bytes.
    pub open spec fn rewritten(self, page: Seq<u8>) -> FrameView {
        FrameView { page, ..self }
    }

    /// The frame after the sweep passed it `passes` times.
    pub open spec fn worn(self, passes: nat) -> FrameView {
        FrameView { usage_count: (self.usage_count - passes) as nat, ..self }
    }
}

impl View for Frame {
    type V = FrameView;

    closed spec fn view(&self) -> FrameView {
        FrameView {
            usage_count: self.usage_count as nat,
            pin_count: self.pin_count as nat,
            page_id: if self.occupied {
                Some(self.buffer.page_id)
            } else {
                None
            },
            page: self.buffer.page@,
            is_dirty: self.buffer.is_dirty,
        }
    }
}

impl Frame {
    /// The counts of a frame fit in 64 bits, and its buffer has the size of
    /// a page.
    pub proof fn lemma_view_bounds(&self)
        ensures
            self@.usage_count <= u64::MAX,
            self@.pin_count <= u64::MAX,
            self@.page.len() == PAGE_SIZE,
    {
    }

    /// A frame that holds no page.
    pub fn new() -> (frame: Self)
        ensures
            frame@ == FrameView::vacant(),
    {
        Frame { usage_count: 0, pin_count: 0, occupied: false, buffer: Buffer::new() }
    }

    /// Accesses not yet worn down by the sweep.
    pub fn usage_count(&self) -> (count: u64)
        ensures
            count == self@.usage_count,
    {
        self.usage_count
    }

    /// Handles that callers hold on the frame's buffer.
    pub fn pin_count(&self) -> (count: u64)
        ensures
            count == self@.pin_count,
    {
        self.pin_count
    }

    /// Whether a caller holds a handle on the frame.
    pub fn is_pinned(&self) -> (pinned: bool)
        ensures
            pinned == self@.is_pinned(),
    {
        self.pin_count > 0
    }

    /// The cached page, or `None` while the frame holds no page.
    pub fn page_id(&self) -> (page_id: Option<PageId>)
        ensures
            page_id == self@.page_id,
    {
        if self.occupied {
            Some(self.buffer.page_id)
        } else {
            None
        }
    }

    /// The frame's buffer.
    pub fn buffer(&self) -> (buffer: &Buffer)
        ensures
            buffer.page@ == self@.page,
            buffer.is_dirty == self@.is_dirty,
            self@.page_id matches Some(page_id) ==> buffer.page_id == page_id,
    {
        &self.buffer
    }

    /// Records one more access to the frame.
    pub fn touch(&mut self)
        ensures
            final(self)@ == old(self)@.touched(),
    {
        if self.usage_count < u64::MAX {
            self.usage_count += 1;
        }
    }

    /// Takes away one unit of usage, as one pass of the sweep does.
    pub fn wear(&mut self)
        requires
            old(self)@.usage_count > 0,
        ensures
            final(self)@ == old(self)@.worn(1),
    {
        self.usage_count -= 1;
    }

    /// Counts one more handle on the frame.
    pub fn pin(&mut self)
        requires
            old(self)@.pin_count < u64::MAX,
        ensures
            final(self)@ == old(self)@.repinned(1),
    {
        self.pin_count += 1;
    }

    /// Counts one handle fewer on the frame.
    pub fn unpin(&mut self)
        requires
            old(self)@.pin_count > 0,
        ensures
            final(self)@ == old(self)@.repinned(-1),
    {
        self.pin_count -= 1;
    }

    /// Sets the dirty flag of the frame's buffer.
    pub fn set_dirty(&mut self, dirty: bool)
        ensures
            final(self)@ == old(self)@.flagged(dirty),
    {
        self.buffer.is_dirty = dirty;
    }

    /// The bytes of the frame's buffer, to be changed in place.
    pub fn page_mut(&mut self) -> (page: &mut Page)
        ensures
            page@ == old(self)@.page,
            final(self)@ == old(self)@.rewritten(final(page)@),
    {
        &mut self.buffer.page
    }

    /// Makes the frame hold page `page_id` with the bytes `page`, clean, for
    /// one caller.
    pub fn load(&mut self, page_id: PageId, page: &Page)
        ensures
            final(self)@ == FrameView::loaded(page_id, page@),
    {
        self.usage_count = 1;
        self.pin_count = 1;
        self.occupied = true;
        self.buffer.page_id = page_id;
        self.buffer.page = *page;
        self.buffer.is_dirty = false;
    }
}

} // verus!
