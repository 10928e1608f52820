//! The buffer pool: a fixed number of frames and the clock sweep over them.

use crate::buffer::{BufferId, Frame, FrameView};
use crate::sweep::{
    lemma_sweep_begins, lemma_sweep_gives_up, lemma_sweep_keeps_buffers, lemma_sweep_selects,
    lemma_sweep_skips, lemma_sweep_wears, mid_sweep, turns_after, PoolView,
};
use vstd::arithmetic::div_mod::{lemma_mod_self_0, lemma_small_mod};
use vstd::prelude::*;

verus! {

/// A fixed number of frames and the position of the clock sweep.
#[derive(Debug)]
pub struct BufferPool {
    buffers: Vec<Frame>,
    next_victim_id: BufferId,
}

/// The frames as mathematical values, in order.
spec fn views(frames: Seq<Frame>) -> Seq<FrameView> {
    Seq::new(frames.len(), |b: int| frames[b]@)
}

impl View for BufferPool {
    type V = PoolView;

    closed spec fn view(&self) -> PoolView {
        PoolView { frames: views(self.buffers@), next_victim: self.next_victim_id.0 as int }
    }
}

impl BufferPool {
    /// A pool of `capacity` frames that hold no page.
    pub fn new(capacity: usize) -> (pool: Self)
        requires
            capacity > 0,
        ensures
            pool@ == PoolView::vacant(capacity as nat),
            pool@.wf(),
    {
        let mut buffers: Vec<Frame> = Vec::new();
        let mut made: usize = 0;
        while made < capacity
            invariant
                made <= capacity,
                buffers.len() == made,
                forall|b: int| 0 <= b < made ==> (#[trigger] buffers[b])@ == FrameView::vacant(),
            decreases capacity - made,
        {
            buffers.push(Frame::new());
            made += 1;
        }
        let pool = BufferPool { buffers, next_victim_id: BufferId(0) };
        assert(pool@.frames =~= PoolView::vacant(capacity as nat).frames);
        pool
    }

    /// The number of frames.
    pub fn size(&self) -> (size: usize)
        ensures
            size == self@.frames.len(),
    {
        self.buffers.len()
    }

    /// The frame at which the next sweep starts.
    pub fn next_victim_id(&self) -> (id: BufferId)
        ensures
            id.0 == self@.next_victim,
    {
        self.next_victim_id
    }

    /// Frame `buffer_id`.
    pub fn frame(&self, buffer_id: BufferId) -> (frame: &Frame)
        requires
            self@.has(buffer_id.0 as int),
        ensures
            frame@ == self@.frames[buffer_id.0 as int],
    {
        &self.buffers[buffer_id.0]
    }

    /// Frame `buffer_id`, to be changed in place. Nothing else in the pool
    /// changes.
    pub fn frame_mut(&mut self, buffer_id: BufferId) -> (frame: &mut Frame)
        requires
            old(self)@.has(buffer_id.0 as int),
        ensures
            frame@ == old(self)@.frames[buffer_id.0 as int],
            final(self)@ == old(self)@.with_frame(buffer_id.0 as int, final(frame)@),
    {
        proof {
            let frames = self.buffers@;
            let b = buffer_id.0 as int;
            assert forall|frame: Frame| #[trigger]
                views(frames.update(b, frame)) == views(frames).update(b, frame@) by {
                assert(views(frames.update(b, frame)) =~= views(frames).update(b, frame@));
            }
        }
        &mut self.buffers[buffer_id.0]
    }

    /// The frame that the sweep visits after `buffer_id`: the next one, or
    /// the first after the last.
    pub fn increment_id(&self, buffer_id: BufferId) -> (next: BufferId)
        requires
            self@.has(buffer_id.0 as int),
        ensures
            next.0 == (buffer_id.0 + 1) % (self@.frames.len() as int),
            next.0 == self@.after(buffer_id.0 as int),
    {
        proof {
            assert(self@.frames.len() == self.buffers.len());
            if buffer_id.0 + 1 == self@.frames.len() {
                lemma_mod_self_0(self@.frames.len() as int);
            } else {
                lemma_small_mod((buffer_id.0 + 1) as nat, self@.frames.len());
            }
        }
        BufferId((buffer_id.0 + 1) % self.size())
    }

    /// Runs the clock sweep: starting at the frame where the last sweep
    /// stopped, it passes over pinned frames, takes one unit of usage from
    /// each unpinned frame that has any, and selects the first unpinned
    /// frame it finds with none. It gives up once it has passed as many
    /// pinned frames in a row as the pool has frames.
    ///
    /// The frame selected is the one that `PoolView::is_victim` describes,
    /// so it is never a pinned one, and none is selected only when every
    /// frame is pinned.
    pub fn evict(&mut self) -> (victim: Option<BufferId>)
        requires
            old(self)@.wf(),
        ensures
            final(self)@.wf(),
            final(self)@ == old(self)@.after_evict(),
            match victim {
                Some(v) => {
                    &&& old(self)@.victim() == Some(v.0 as int)
                    &&& old(self)@.is_victim(v.0 as int)
                    &&& old(self)@.frames[v.0 as int].pin_count == 0
                },
                None => old(self)@.victim() is None && old(self)@.all_pinned(),
            },
    {
        let ghost start = self@;
        let pool_size: usize = self.size();
        let mut consecutive_pinned: usize = 0;
        let ghost mut turns: nat = 0;
        let ghost mut seen: Option<int> = None;
        proof {
            assert forall|b: int| 0 <= b < start.frames.len() implies (
            #[trigger] start.frames[b]).usage_count <= u64::MAX by {
                self.buffers[b].lemma_view_bounds();
            }
            lemma_sweep_begins(start);
        }
        loop
            invariant
                start == old(self)@,
                self.buffers.len() == pool_size,
                mid_sweep(
                    start,
                    self@.frames,
                    self.next_victim_id.0 as int,
                    turns,
                    consecutive_pinned as int,
                    seen,
                ),
            decreases u64::MAX - turns, pool_size - start.rank(self.next_victim_id.0 as int),
        {
            let id: usize = self.next_victim_id.0;
            let next: BufferId = self.increment_id(self.next_victim_id);
            let ghost now = self@.frames;
            if self.buffers[id].pin_count() == 0 {
                if self.buffers[id].usage_count() == 0 {
                    self.next_victim_id = next;
                    proof {
                        lemma_sweep_selects(
                            start,
                            now,
                            id as int,
                            turns,
                            consecutive_pinned as int,
                            seen,
                        );
                        assert(self@.frames =~= now);
                        lemma_sweep_keeps_buffers(start, id as int);
                    }
                    return Some(BufferId(id));
                }
                self.buffers[id].wear();
                proof {
                    lemma_sweep_wears(
                        start,
                        now,
                        id as int,
                        turns,
                        consecutive_pinned as int,
                        seen,
                    );
                    assert(self@.frames =~= now.update(id as int, now[id as int].worn(1)));
                    seen = Some(id as int);
                }
                consecutive_pinned = 0;
            } else {
                consecutive_pinned += 1;
                if consecutive_pinned >= pool_size {
                    self.next_victim_id = next;
                    proof {
                        lemma_sweep_gives_up(
                            start,
                            now,
                            id as int,
                            turns,
                            consecutive_pinned - 1,
                            seen,
                        );
                        assert(self@.frames =~= now);
                    }
                    return None;
                }
                proof {
                    lemma_sweep_skips(start, now, id as int, turns, consecutive_pinned - 1, seen);
                }
            }
            self.next_victim_id = next;
            proof {
                turns = turns_after(start, id as int, turns);
            }
        }
    }
}

} // verus!
