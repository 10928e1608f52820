//! The clock sweep, stated over the frames as mathematical values.
//!
//! The sweep walks the frames in a circle. It passes over pinned frames,
//! takes one unit of usage from each unpinned frame that has any, and
//! selects the first unpinned frame that it finds with none. Its outcome has
//! a closed form: the selected frame is the unpinned frame with the least
//! usage count, the first in walking order among equals, and every unpinned
//! frame loses one unit per pass. [`PoolView::is_victim`] and
//! [`PoolView::swept`] say so; the lemmas at the end of this file carry the
//! closed form through the walk, one step at a time.

use crate::buffer::FrameView;
use crate::disk_manager::PAGE_SIZE;
use vstd::prelude::*;

verus! {

/// The pool as mathematical values: its frames in order, and the frame at
/// which the next sweep starts.
pub struct PoolView {
    pub frames: Seq<FrameView>,
    pub next_victim: int,
}

impl PoolView {
    /// A pool of `capacity` frames that hold no page, with the sweep at the
    /// first of them.
    pub open spec fn vacant(capacity: nat) -> PoolView {
        PoolView { frames: Seq::new(capacity, |b: int| FrameView::vacant()), next_victim: 0 }
    }

    /// The sweep's position is a frame of the pool, and every buffer has
    /// the size of a page.
    pub open spec fn wf(self) -> bool {
        &&& 0 <= self.next_victim < self.frames.len()
        &&& forall|b: int|
            0 <= b < self.frames.len() ==> (#[trigger] self.frames[b]).page.len() == PAGE_SIZE
    }

    /// Whether `b` is a frame of the pool.
    pub open spec fn has(self, b: int) -> bool {
        0 <= b < self.frames.len()
    }

    /// The pool with `frame` in place of frame `b`.
    pub open spec fn with_frame(self, b: int, frame: FrameView) -> PoolView {
        PoolView { frames: self.frames.update(b, frame), ..self }
    }

    /// The frame that the sweep visits after frame `b`.
    pub open spec fn after(self, b: int) -> int {
        if b + 1 == self.frames.len() {
            0
        } else {
            b + 1
        }
    }

    /// How many frames the sweep visits before it first reaches frame `b`.
    pub open spec fn rank(self, b: int) -> int {
        if b >= self.next_victim {
            b - self.next_victim
        } else {
            b - self.next_victim + self.frames.len()
        }
    }

    /// Whether every frame is pinned.
    pub open spec fn all_pinned(self) -> bool {
        forall|b: int| 0 <= b < self.frames.len() ==> (#[trigger] self.frames[b]).pin_count > 0
    }

    /// Whether the sweep finds frame `a` with a usage count of zero no later
    /// than frame `b`, were both unpinned: `a` has the smaller usage count,
    /// or the same and is visited first.
    pub open spec fn yields_before(self, a: int, b: int) -> bool {
        ||| self.frames[a].usage_count < self.frames[b].usage_count
        ||| (self.frames[a].usage_count == self.frames[b].usage_count && self.rank(a) <= self.rank(
            b,
        ))
    }

    /// Whether the sweep selects frame `v`: it is unpinned, and among the
    /// unpinned frames it has the least usage count and, of those with that
    /// count, is the first in the sweep's order.
    pub open spec fn is_victim(self, v: int) -> bool {
        &&& 0 <= v < self.frames.len()
        &&& self.frames[v].pin_count == 0
        &&& forall|b: int|
            0 <= b < self.frames.len() && (#[trigger] self.frames[b]).pin_count == 0
                ==> self.yields_before(v, b)
    }

    /// The frame that the sweep selects, or `None` when every frame is
    /// pinned.
    pub open spec fn victim(self) -> Option<int> {
        if exists|v: int| self.is_victim(v) {
            Some(choose|v: int| self.is_victim(v))
        } else {
            None
        }
    }

    /// How often a sweep that selects frame `v` passes frame `b` before it
    /// stops: once per full turn, and once more in the last turn if `b`
    /// comes before `v`.
    pub open spec fn passes(self, v: int, b: int) -> nat {
        if self.rank(b) < self.rank(v) {
            self.frames[v].usage_count + 1
        } else {
            self.frames[v].usage_count
        }
    }

    /// The pool after a sweep that selected frame `v`: each unpinned frame
    /// lost one unit of usage per pass, pinned frames are as before, and the
    /// next sweep starts behind `v`.
    pub open spec fn swept(self, v: int) -> PoolView {
        PoolView {
            frames: Seq::new(
                self.frames.len(),
                |b: int|
                    if self.frames[b].pin_count == 0 {
                        self.frames[b].worn(self.passes(v, b))
                    } else {
                        self.frames[b]
                    },
            ),
            next_victim: self.after(v),
        }
    }

    /// The pool after a sweep, whether it selected a frame or not: a sweep
    /// that finds every frame pinned ends where it began and changes
    /// nothing.
    pub open spec fn after_evict(self) -> PoolView {
        match self.victim() {
            Some(v) => self.swept(v),
            None => self,
        }
    }
}

/// The sweep selects at most one frame.
pub proof fn lemma_victim_is_unique(pool: PoolView, a: int, b: int)
    requires
        pool.wf(),
        pool.is_victim(a),
        pool.is_victim(b),
    ensures
        a == b,
{
    assert(pool.yields_before(a, b));
    assert(pool.yields_before(b, a));
}

/// Among the first `upto` frames, either none is unpinned or one unpinned
/// frame yields before all the others that are unpinned.
proof fn lemma_first_to_yield(pool: PoolView, upto: int) -> (best: Option<int>)
    requires
        pool.wf(),
        0 <= upto <= pool.frames.len(),
    ensures
        match best {
            Some(v) => {
                &&& 0 <= v < upto
                &&& pool.frames[v].pin_count == 0
                &&& forall|b: int|
                    0 <= b < upto && (#[trigger] pool.frames[b]).pin_count == 0
                        ==> pool.yields_before(v, b)
            },
            None => forall|b: int| 0 <= b < upto ==> (#[trigger] pool.frames[b]).pin_count > 0,
        },
    decreases upto,
{
    if upto == 0 {
        None
    } else {
        let last = upto - 1;
        let earlier = lemma_first_to_yield(pool, last);
        if pool.frames[last].pin_count > 0 {
            earlier
        } else {
            match earlier {
                None => Some(last),
                Some(v) => if pool.yields_before(v, last) {
                    Some(v)
                } else {
                    assert(pool.yields_before(last, v));
                    Some(last)
                },
            }
        }
    }
}

/// The sweep selects a frame exactly when some frame is unpinned, and the
/// frame it selects is unpinned.
pub proof fn lemma_victim_exists(pool: PoolView)
    requires
        pool.wf(),
    ensures
        pool.victim() is None <==> pool.all_pinned(),
        pool.victim() matches Some(v) ==> pool.is_victim(v) && pool.frames[v].pin_count == 0,
{
    let best = lemma_first_to_yield(pool, pool.frames.len() as int);
    match best {
        Some(v) => {
            assert(pool.is_victim(v));
            assert(pool.frames[v].pin_count == 0);
        },
        None => {
            assert forall|v: int| !pool.is_victim(v) by {
                if pool.is_victim(v) {
                    assert(pool.frames[v].pin_count == 0);
                }
            }
        },
    }
    if let Some(v) = pool.victim() {
        assert(pool.frames[v].pin_count == 0);
    }
}

/// A sweep changes nothing but usage counts and its own position: every
/// frame keeps its page, its bytes, its dirty flag and its handles, and a
/// pinned frame keeps its usage count too.
pub proof fn lemma_sweep_keeps_buffers(pool: PoolView, b: int)
    requires
        pool.wf(),
        pool.has(b),
    ensures
        pool.after_evict().frames.len() == pool.frames.len(),
        pool.after_evict().frames[b] == (FrameView {
            usage_count: pool.after_evict().frames[b].usage_count,
            ..pool.frames[b]
        }),
        pool.frames[b].pin_count > 0 ==> pool.after_evict().frames[b] == pool.frames[b],
        pool.after_evict().frames[b].usage_count <= pool.frames[b].usage_count,
        pool.after_evict().wf(),
{
    lemma_victim_exists(pool);
    if let Some(v) = pool.victim() {
        assert(pool.frames[b].pin_count == 0 ==> pool.yields_before(v, b));
        assert forall|c: int| 0 <= c < pool.frames.len() implies (
        #[trigger] pool.swept(v).frames[c]).page.len() == PAGE_SIZE by {
            assert(pool.frames[c].page.len() == PAGE_SIZE);
        }
    }
}

/// The frame that a sweep selected has no usage left afterwards.
pub proof fn lemma_victim_is_worn_out(pool: PoolView)
    requires
        pool.wf(),
    ensures
        pool.victim() matches Some(v) ==> pool.after_evict().frames[v].usage_count == 0,
{
    lemma_victim_exists(pool);
}

/// What holds of frame `b` while a sweep that began in `start` is at frame
/// `at`, after `turns` full turns, with the last `run` frames visited all
/// pinned, where `now` is the frames as the sweep has left them so far.
pub(crate) open spec fn frame_mid_sweep(
    start: PoolView,
    now: Seq<FrameView>,
    at: int,
    turns: nat,
    run: int,
    b: int,
) -> bool {
    let before = start.frames[b];
    let passed: int = if start.rank(b) < start.rank(at) {
        1
    } else {
        0
    };
    let since = if start.rank(b) < start.rank(at) {
        start.rank(at) - start.rank(b)
    } else {
        start.rank(at) - start.rank(b) + start.frames.len()
    };
    &&& now[b] == (FrameView { usage_count: now[b].usage_count, ..before })
    &&& before.usage_count <= u64::MAX
    &&& before.pin_count > 0 ==> now[b].usage_count == before.usage_count
    &&& before.pin_count == 0 ==> now[b].usage_count + turns + passed == before.usage_count
    &&& since <= run ==> before.pin_count > 0
}

/// What holds while a sweep that began in `start` is under way; `seen` is
/// an unpinned frame that the sweep has visited, if it has visited any.
pub(crate) open spec fn mid_sweep(
    start: PoolView,
    now: Seq<FrameView>,
    at: int,
    turns: nat,
    run: int,
    seen: Option<int>,
) -> bool {
    &&& start.wf()
    &&& now.len() == start.frames.len()
    &&& 0 <= at < now.len()
    &&& 0 <= run < now.len()
    &&& turns <= u64::MAX
    &&& forall|b: int|
        0 <= b < now.len() ==> #[trigger] frame_mid_sweep(start, now, at, turns, run, b)
    &&& match seen {
        Some(g) => 0 <= g < now.len() && start.frames[g].pin_count == 0,
        None => turns == 0 && run == start.rank(at),
    }
}

/// The number of full turns after the sweep leaves frame `at`.
pub(crate) open spec fn turns_after(start: PoolView, at: int, turns: nat) -> nat {
    if start.rank(at) + 1 == start.frames.len() {
        turns + 1
    } else {
        turns
    }
}

/// A sweep begins at the pool's position with nothing visited.
pub(crate) proof fn lemma_sweep_begins(start: PoolView)
    requires
        start.wf(),
        forall|b: int|
            0 <= b < start.frames.len() ==> (#[trigger] start.frames[b]).usage_count <= u64::MAX,
    ensures
        mid_sweep(start, start.frames, start.next_victim, 0, 0, None),
{
    assert forall|b: int| 0 <= b < start.frames.len() implies #[trigger] frame_mid_sweep(
        start,
        start.frames,
        start.next_victim,
        0,
        0,
        b,
    ) by {
        assert(start.frames[b].usage_count <= u64::MAX);
    }
}

/// The sweep takes one unit of usage from an unpinned frame and moves on.
pub(crate) proof fn lemma_sweep_wears(
    start: PoolView,
    now: Seq<FrameView>,
    at: int,
    turns: nat,
    run: int,
    seen: Option<int>,
)
    requires
        mid_sweep(start, now, at, turns, run, seen),
        now[at].pin_count == 0,
        now[at].usage_count > 0,
    ensures
        mid_sweep(
            start,
            now.update(at, now[at].worn(1)),
            start.after(at),
            turns_after(start, at, turns),
            0,
            Some(at),
        ),
        start.rank(start.after(at)) == if start.rank(at) + 1 == start.frames.len() {
            0
        } else {
            start.rank(at) + 1
        },
{
    let next = now.update(at, now[at].worn(1));
    let turned = turns_after(start, at, turns);
    assert(frame_mid_sweep(start, now, at, turns, run, at));
    assert forall|b: int| 0 <= b < next.len() implies #[trigger] frame_mid_sweep(
        start,
        next,
        start.after(at),
        turned,
        0,
        b,
    ) by {
        assert(frame_mid_sweep(start, now, at, turns, run, b));
    }
}

/// The sweep passes over a pinned frame and moves on.
pub(crate) proof fn lemma_sweep_skips(
    start: PoolView,
    now: Seq<FrameView>,
    at: int,
    turns: nat,
    run: int,
    seen: Option<int>,
)
    requires
        mid_sweep(start, now, at, turns, run, seen),
        now[at].pin_count > 0,
        run + 1 < now.len(),
    ensures
        mid_sweep(start, now, start.after(at), turns_after(start, at, turns), run + 1, seen),
        start.rank(start.after(at)) == if start.rank(at) + 1 == start.frames.len() {
            0
        } else {
            start.rank(at) + 1
        },
{
    let turned = turns_after(start, at, turns);
    assert(frame_mid_sweep(start, now, at, turns, run, at));
    if let Some(g) = seen {
        assert(frame_mid_sweep(start, now, at, turns, run, g));
    }
    assert forall|b: int| 0 <= b < now.len() implies #[trigger] frame_mid_sweep(
        start,
        now,
        start.after(at),
        turned,
        run + 1,
        b,
    ) by {
        assert(frame_mid_sweep(start, now, at, turns, run, b));
    }
}

/// The sweep stops at an unpinned frame without usage: that frame is the
/// one the closed form names, and the frames are as the closed form says.
pub(crate) proof fn lemma_sweep_selects(
    start: PoolView,
    now: Seq<FrameView>,
    at: int,
    turns: nat,
    run: int,
    seen: Option<int>,
)
    requires
        mid_sweep(start, now, at, turns, run, seen),
        now[at].pin_count == 0,
        now[at].usage_count == 0,
    ensures
        start.is_victim(at),
        start.victim() == Some(at),
        (PoolView { frames: now, next_victim: start.after(at) }) == start.after_evict(),
{
    assert(frame_mid_sweep(start, now, at, turns, run, at));
    assert forall|b: int|
        0 <= b < start.frames.len() && (#[trigger] start.frames[b]).pin_count
            == 0 implies start.yields_before(at, b) by {
        assert(frame_mid_sweep(start, now, at, turns, run, b));
    }
    assert(start.is_victim(at));
    lemma_victim_is_unique(start, at, start.victim().unwrap());
    assert forall|b: int| 0 <= b < now.len() implies now[b] == start.swept(at).frames[b] by {
        assert(frame_mid_sweep(start, now, at, turns, run, b));
    }
    assert(now =~= start.swept(at).frames);
}

/// The sweep gives up after a full turn of pinned frames: every frame is
/// pinned, nothing was changed, and the sweep is back where it began.
pub(crate) proof fn lemma_sweep_gives_up(
    start: PoolView,
    now: Seq<FrameView>,
    at: int,
    turns: nat,
    run: int,
    seen: Option<int>,
)
    requires
        mid_sweep(start, now, at, turns, run, seen),
        now[at].pin_count > 0,
        run + 1 == now.len(),
    ensures
        start.all_pinned(),
        start.victim() is None,
        (PoolView { frames: now, next_victim: start.after(at) }) == start,
{
    assert(frame_mid_sweep(start, now, at, turns, run, at));
    assert forall|b: int| 0 <= b < start.frames.len() implies (#[trigger] start.frames[b]).pin_count
        > 0 by {
        assert(frame_mid_sweep(start, now, at, turns, run, b));
    }
    if let Some(g) = seen {
        assert(start.frames[g].pin_count > 0);
    }
    assert forall|b: int| 0 <= b < now.len() implies now[b] == start.frames[b] by {
        assert(frame_mid_sweep(start, now, at, turns, run, b));
    }
    assert(now =~= start.frames);
    lemma_victim_exists(start);
}

} // verus!
