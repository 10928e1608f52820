//! What holds of the manager in every state and over whole fetches.
//!
//! The first part is about the manager alone: its invariant survives every
//! operation, frames that callers hold are never reused, the page table and
//! the frames agree, a dirty buffer is written before its frame is read
//! into, and a fetch fails for want of a frame exactly when every frame is
//! pinned.
//!
//! The second part puts the manager next to a heap file, modelled as the
//! sequence of its bytes, and follows a page out of the pool and back in.

use crate::buffer::BufferId;
use crate::disk_manager::{
    lemma_store_keeps_other_pages, lemma_stored_after_store, store_page, stored_page, PageId,
    PAGE_SIZE,
};
use crate::manager::{Awaiting, Error, FetchStep, ManagerView, Pending};
use crate::sweep::{
    lemma_sweep_keeps_buffers, lemma_victim_exists, lemma_victim_is_unique, PoolView,
};
use vstd::prelude::*;

verus! {

/// A change to the frames that leaves the page table alone and lets every
/// frame hold the page it held, or makes a frame that held none stay
/// unpinned, unused and clean, leaves the frames and the table in
/// agreement.
proof fn lemma_frames_stay_tabled(before: ManagerView, after: ManagerView)
    requires
        before.wf(),
        after.table == before.table,
        after.pool.frames.len() == before.pool.frames.len(),
        forall|b: int|
            before.pool.has(b) ==> {
                &&& (#[trigger] after.pool.frames[b]).page_id == before.pool.frames[b].page_id
                &&& before.pool.frames[b].page_id is None ==> after.pool.frames[b].pin_count == 0
                    && after.pool.frames[b].usage_count == 0 && !after.pool.frames[b].is_dirty
            },
    ensures
        after.table_names_frames(),
        after.frames_are_tabled(),
{
    assert forall|b: int| after.pool.has(b) implies #[trigger] after.frame_is_tabled(b) by {
        assert(before.frame_is_tabled(b));
        assert(after.pool.frames[b].page_id == before.pool.frames[b].page_id);
    }
    assert forall|page_id: PageId| #[trigger] after.table.contains_key(page_id) implies {
        &&& after.pool.has(after.table[page_id].0 as int)
        &&& after.pool.frames[after.table[page_id].0 as int].page_id == Some(page_id)
    } by {
        let b = before.table[page_id].0 as int;
        assert(after.pool.frames[b].page_id == before.pool.frames[b].page_id);
    }
}

/// What a sweep does and does not change of a manager's frames: only usage
/// counts, and never upwards; the frame it selected has none left.
proof fn lemma_sweep_in_manager(m: ManagerView)
    requires
        m.wf(),
    ensures
        m.pool.after_evict().wf(),
        m.pool.after_evict().frames.len() == m.pool.frames.len(),
        forall|b: int|
            m.pool.has(b) ==> {
                &&& (#[trigger] m.pool.after_evict().frames[b]).page_id == m.pool.frames[b].page_id
                &&& m.pool.after_evict().frames[b].page == m.pool.frames[b].page
                &&& m.pool.after_evict().frames[b].is_dirty == m.pool.frames[b].is_dirty
                &&& m.pool.after_evict().frames[b].pin_count == m.pool.frames[b].pin_count
                &&& m.pool.after_evict().frames[b].usage_count <= m.pool.frames[b].usage_count
            },
        m.pool.victim() matches Some(v) ==> m.pool.after_evict().frames[v].usage_count == 0,
        m.pool.victim() matches Some(v) ==> m.pool.has(v) && m.pool.frames[v].pin_count == 0,
        m.pool.victim() is None <==> m.pool.all_pinned(),
{
    lemma_victim_exists(m.pool);
    lemma_sweep_keeps_buffers(m.pool, 0);
    assert forall|b: int| m.pool.has(b) implies {
        &&& (#[trigger] m.pool.after_evict().frames[b]).page_id == m.pool.frames[b].page_id
        &&& m.pool.after_evict().frames[b].page == m.pool.frames[b].page
        &&& m.pool.after_evict().frames[b].is_dirty == m.pool.frames[b].is_dirty
        &&& m.pool.after_evict().frames[b].pin_count == m.pool.frames[b].pin_count
        &&& m.pool.after_evict().frames[b].usage_count <= m.pool.frames[b].usage_count
    } by {
        lemma_sweep_keeps_buffers(m.pool, b);
    }
}

/// The invariant survives the beginning of a fetch.
pub proof fn lemma_fetch_keeps_invariant(m: ManagerView, page_id: PageId)
    requires
        m.wf(),
        m.can_fetch(page_id),
    ensures
        m.after_fetch(page_id).wf(),
{
    lemma_sweep_in_manager(m);
    let after = m.after_fetch(page_id);
    if m.is_cached(page_id) {
        assert(m.frame_is_tabled(m.frame_of(page_id)));
    } else if let Some(v) = m.pool.victim() {
        assert(after.pool == m.pool.after_evict());
        assert(m.frame_is_tabled(v));
    }
    assert forall|b: int| m.pool.has(b) implies {
        &&& (#[trigger] after.pool.frames[b]).page_id == m.pool.frames[b].page_id
        &&& m.pool.frames[b].page_id is None ==> after.pool.frames[b].pin_count == 0
            && after.pool.frames[b].usage_count == 0 && !after.pool.frames[b].is_dirty
    } by {
        assert(m.frame_is_tabled(b));
        assert(m.pool.after_evict().frames[b].page_id == m.pool.frames[b].page_id);
    }
    lemma_frames_stay_tabled(m, after);
    assert forall|b: int| 0 <= b < after.pool.frames.len() implies (
    #[trigger] after.pool.frames[b]).page.len() == PAGE_SIZE by {
        assert(m.pool.frames[b].page.len() == PAGE_SIZE);
        assert(m.pool.after_evict().frames[b].page == m.pool.frames[b].page);
    }
}

/// The invariant survives the outcome of a write.
pub proof fn lemma_write_back_keeps_invariant(m: ManagerView, written: bool)
    requires
        m.wf(),
        m.awaits(Awaiting::WriteBack),
    ensures
        m.after_write_back(written).wf(),
{
    let after = m.after_write_back(written);
    let v = m.pending.unwrap().buffer_id.0 as int;
    assert(m.frame_is_tabled(v));
    assert forall|b: int| m.pool.has(b) implies {
        &&& (#[trigger] after.pool.frames[b]).page_id == m.pool.frames[b].page_id
        &&& m.pool.frames[b].page_id is None ==> after.pool.frames[b].pin_count == 0
            && after.pool.frames[b].usage_count == 0 && !after.pool.frames[b].is_dirty
    } by {
        assert(m.frame_is_tabled(b));
    }
    lemma_frames_stay_tabled(m, after);
    assert forall|b: int| 0 <= b < after.pool.frames.len() implies (
    #[trigger] after.pool.frames[b]).page.len() == PAGE_SIZE by {
        assert(m.pool.frames[b].page.len() == PAGE_SIZE);
    }
}

/// The invariant survives the outcome of a read.
pub proof fn lemma_load_keeps_invariant(m: ManagerView, page: Option<Seq<u8>>)
    requires
        m.wf(),
        m.awaits(Awaiting::Load),
        page matches Some(bytes) ==> bytes.len() == PAGE_SIZE,
    ensures
        m.after_load(page).wf(),
{
    let after = m.after_load(page);
    let pending = m.pending.unwrap();
    let v = pending.buffer_id.0 as int;
    assert(m.frame_is_tabled(v));
    match page {
        Some(bytes) => {
            assert forall|b: int| after.pool.has(b) implies #[trigger] after.frame_is_tabled(
                b,
            ) by {
                assert(m.frame_is_tabled(b));
            }
            assert forall|p: PageId| #[trigger] after.table.contains_key(p) implies {
                &&& after.pool.has(after.table[p].0 as int)
                &&& after.pool.frames[after.table[p].0 as int].page_id == Some(p)
            } by {
                if p != pending.page_id {
                    assert(m.table.contains_key(p));
                }
            }
            assert forall|b: int| 0 <= b < after.pool.frames.len() implies (
            #[trigger] after.pool.frames[b]).page.len() == PAGE_SIZE by {
                assert(m.pool.frames[b].page.len() == PAGE_SIZE);
            }
        },
        None => {
            assert forall|b: int| after.pool.has(b) implies #[trigger] after.frame_is_tabled(
                b,
            ) by {
                assert(m.frame_is_tabled(b));
            }
        },
    }
}

/// The invariant survives giving back a handle, setting the dirty flag of a
/// held buffer, and changing the bytes of a held buffer.
pub proof fn lemma_held_frame_changes_keep_invariant(
    m: ManagerView,
    b: int,
    dirty: bool,
    page: Seq<u8>,
)
    requires
        m.wf(),
        m.is_held(b),
        page.len() == PAGE_SIZE,
    ensures
        m.after_release(b).wf(),
        m.with_frame(b, m.pool.frames[b].flagged(dirty)).wf(),
        m.with_frame(b, m.pool.frames[b].rewritten(page)).wf(),
{
    let released = m.after_release(b);
    let flagged = m.with_frame(b, m.pool.frames[b].flagged(dirty));
    let rewritten = m.with_frame(b, m.pool.frames[b].rewritten(page));
    assert(m.frame_is_tabled(b));
    assert forall|c: int| m.pool.has(c) implies {
        &&& (#[trigger] released.pool.frames[c]).page_id == m.pool.frames[c].page_id
        &&& m.pool.frames[c].page_id is None ==> released.pool.frames[c].pin_count == 0
            && released.pool.frames[c].usage_count == 0 && !released.pool.frames[c].is_dirty
    } by {
        assert(m.frame_is_tabled(c));
    }
    lemma_frames_stay_tabled(m, released);
    assert forall|c: int| m.pool.has(c) implies {
        &&& (#[trigger] flagged.pool.frames[c]).page_id == m.pool.frames[c].page_id
        &&& m.pool.frames[c].page_id is None ==> flagged.pool.frames[c].pin_count == 0
            && flagged.pool.frames[c].usage_count == 0 && !flagged.pool.frames[c].is_dirty
    } by {
        assert(m.frame_is_tabled(c));
    }
    lemma_frames_stay_tabled(m, flagged);
    assert forall|c: int| m.pool.has(c) implies {
        &&& (#[trigger] rewritten.pool.frames[c]).page_id == m.pool.frames[c].page_id
        &&& m.pool.frames[c].page_id is None ==> rewritten.pool.frames[c].pin_count == 0
            && rewritten.pool.frames[c].usage_count == 0 && !rewritten.pool.frames[c].is_dirty
    } by {
        assert(m.frame_is_tabled(c));
    }
    lemma_frames_stay_tabled(m, rewritten);
    assert forall|c: int| 0 <= c < m.pool.frames.len() implies (
    #[trigger] released.pool.frames[c]).page.len() == PAGE_SIZE && (
    #[trigger] flagged.pool.frames[c]).page.len() == PAGE_SIZE && (
    #[trigger] rewritten.pool.frames[c]).page.len() == PAGE_SIZE by {
        assert(m.pool.frames[c].page.len() == PAGE_SIZE);
    }
}

/// The number of frames never changes.
pub proof fn lemma_capacity_is_fixed(
    m: ManagerView,
    page_id: PageId,
    written: bool,
    page: Option<Seq<u8>>,
    b: int,
)
    requires
        m.wf(),
    ensures
        m.pool.after_evict().frames.len() == m.pool.frames.len(),
        m.after_fetch(page_id).pool.frames.len() == m.pool.frames.len(),
        m.pending is Some ==> m.after_write_back(written).pool.frames.len()
            == m.pool.frames.len(),
        m.pending is Some ==> m.after_load(page).pool.frames.len() == m.pool.frames.len(),
        m.pool.has(b) ==> m.after_release(b).pool.frames.len() == m.pool.frames.len(),
{
    lemma_sweep_in_manager(m);
}

/// One operation on the manager, together with what the heap file answered
/// where the operation reports an answer.
pub enum Op {
    /// A fetch of the page begins.
    Fetch(PageId),
    /// The write that the manager asked for succeeded (`true`) or failed.
    WriteBackDone(bool),
    /// The read that the manager asked for gave these bytes, or failed.
    LoadDone(Option<Seq<u8>>),
    /// One handle on the frame is given back.
    Release(int),
    /// The dirty flag of the buffer in the frame is set.
    SetDirty(int, bool),
    /// The bytes of the buffer in the frame are replaced.
    Rewrite(int, Seq<u8>),
}

impl ManagerView {
    /// Whether `op` may be carried out in this state: what the operation's
    /// function requires besides the invariant.
    pub open spec fn allows(self, op: Op) -> bool {
        match op {
            Op::Fetch(page_id) => self.can_fetch(page_id),
            Op::WriteBackDone(_) => self.awaits(Awaiting::WriteBack),
            Op::LoadDone(page) => self.awaits(Awaiting::Load) && (page matches Some(bytes)
                ==> bytes.len() == PAGE_SIZE),
            Op::Release(b) => self.is_held(b),
            Op::SetDirty(b, _) => self.is_held(b),
            Op::Rewrite(b, bytes) => self.is_held(b) && bytes.len() == PAGE_SIZE,
        }
    }

    /// The manager after `op`.
    pub open spec fn apply(self, op: Op) -> ManagerView {
        match op {
            Op::Fetch(page_id) => self.after_fetch(page_id),
            Op::WriteBackDone(written) => self.after_write_back(written),
            Op::LoadDone(page) => self.after_load(page),
            Op::Release(b) => self.after_release(b),
            Op::SetDirty(b, dirty) => self.with_frame(b, self.pool.frames[b].flagged(dirty)),
            Op::Rewrite(b, bytes) => self.with_frame(b, self.pool.frames[b].rewritten(bytes)),
        }
    }

    /// The manager after the operations `ops`, first to last.
    pub open spec fn run(self, ops: Seq<Op>) -> ManagerView
        decreases ops.len(),
    {
        if ops.len() == 0 {
            self
        } else {
            self.run(ops.drop_last()).apply(ops.last())
        }
    }

    /// Whether each of `ops` may be carried out when its turn comes.
    pub open spec fn admits(self, ops: Seq<Op>) -> bool
        decreases ops.len(),
    {
        ops.len() == 0 || (self.admits(ops.drop_last()) && self.run(ops.drop_last()).allows(
            ops.last(),
        ))
    }
}

/// The invariant survives one operation.
pub proof fn lemma_op_keeps_invariant(m: ManagerView, op: Op)
    requires
        m.wf(),
        m.allows(op),
    ensures
        m.apply(op).wf(),
{
    match op {
        Op::Fetch(page_id) => lemma_fetch_keeps_invariant(m, page_id),
        Op::WriteBackDone(written) => lemma_write_back_keeps_invariant(m, written),
        Op::LoadDone(page) => lemma_load_keeps_invariant(m, page),
        Op::Release(b) => lemma_held_frame_changes_keep_invariant(
            m,
            b,
            false,
            m.pool.frames[b].page,
        ),
        Op::SetDirty(b, dirty) => lemma_held_frame_changes_keep_invariant(
            m,
            b,
            dirty,
            m.pool.frames[b].page,
        ),
        Op::Rewrite(b, bytes) => lemma_held_frame_changes_keep_invariant(m, b, false, bytes),
    }
}

/// The invariant holds after every sequence of operations.
pub proof fn lemma_run_keeps_invariant(m: ManagerView, ops: Seq<Op>)
    requires
        m.wf(),
        m.admits(ops),
    ensures
        m.run(ops).wf(),
    decreases ops.len(),
{
    if ops.len() > 0 {
        lemma_run_keeps_invariant(m, ops.drop_last());
        lemma_op_keeps_invariant(m.run(ops.drop_last()), ops.last());
    }
}

/// The pool has the same number of frames after every sequence of
/// operations.
pub proof fn lemma_run_keeps_capacity(m: ManagerView, ops: Seq<Op>)
    requires
        m.wf(),
        m.admits(ops),
    ensures
        m.run(ops).pool.frames.len() == m.pool.frames.len(),
    decreases ops.len(),
{
    if ops.len() > 0 {
        let earlier = m.run(ops.drop_last());
        lemma_run_keeps_capacity(m, ops.drop_last());
        lemma_run_keeps_invariant(m, ops.drop_last());
        lemma_sweep_in_manager(earlier);
    }
}

/// Whatever was done with a new manager, a frame on which a caller holds a
/// handle is not the frame that the next sweep selects, nor the frame of a
/// fetch that waits; the page table and the frames name each other; and the
/// pool has the frames it began with.
pub proof fn lemma_after_any_run(capacity: nat, ops: Seq<Op>, b: int)
    requires
        0 < capacity <= usize::MAX,
        ManagerView::fresh(PoolView::vacant(capacity)).admits(ops),
    ensures
        ({
            let m = ManagerView::fresh(PoolView::vacant(capacity)).run(ops);
            &&& m.wf()
            &&& m.pool.frames.len() == capacity
            &&& m.is_held(b) ==> m.pool.victim() != Some(b)
            &&& m.is_held(b) && m.pending is Some ==> m.pending.unwrap().buffer_id.0 != b
            &&& m.pool.has(b) ==> m.frame_is_tabled(b)
        }),
{
    let fresh = ManagerView::fresh(PoolView::vacant(capacity));
    assert forall|c: int| fresh.pool.has(c) implies #[trigger] fresh.frame_is_tabled(c) by {}
    lemma_run_keeps_invariant(fresh, ops);
    lemma_run_keeps_capacity(fresh, ops);
    lemma_victim_exists(fresh.run(ops).pool);
}

/// A frame on which a caller holds a handle is not the frame that a sweep
/// selects, and the beginning of a fetch changes neither the page it holds
/// nor its bytes nor its dirty flag, and takes no handle away.
pub proof fn lemma_fetch_spares_held_frames(m: ManagerView, page_id: PageId, b: int)
    requires
        m.wf(),
        m.can_fetch(page_id),
        m.is_held(b),
    ensures
        !m.pool.is_victim(b),
        m.pool.victim() != Some(b),
        m.fetch_step(page_id) matches Ok(FetchStep::WriteBack { buffer_id, .. }) ==> buffer_id.0
            != b,
        m.after_fetch(page_id).pending matches Some(pending) ==> pending.buffer_id.0 != b,
        m.after_fetch(page_id).pool.frames[b].page_id == m.pool.frames[b].page_id,
        m.after_fetch(page_id).pool.frames[b].page == m.pool.frames[b].page,
        m.after_fetch(page_id).pool.frames[b].is_dirty == m.pool.frames[b].is_dirty,
        m.after_fetch(page_id).pool.frames[b].pin_count >= m.pool.frames[b].pin_count,
{
    lemma_sweep_in_manager(m);
    if !m.is_cached(page_id) {
        if let Some(v) = m.pool.victim() {
            assert(m.after_fetch(page_id).pool.frames[b] == m.pool.after_evict().frames[b]);
        }
    }
}

/// While a fetch waits for the heap file, its frame is not one that a
/// caller holds a handle on, and whatever the heap file answers, every
/// frame that a caller holds stays exactly as it is.
pub proof fn lemma_waiting_fetch_spares_held_frames(
    m: ManagerView,
    b: int,
    written: bool,
    page: Option<Seq<u8>>,
)
    requires
        m.wf(),
        m.pending is Some,
        m.is_held(b),
    ensures
        m.pending.unwrap().buffer_id.0 != b,
        m.awaits(Awaiting::WriteBack) ==> m.after_write_back(written).pool.frames[b]
            == m.pool.frames[b],
        m.awaits(Awaiting::Load) ==> m.after_load(page).pool.frames[b] == m.pool.frames[b],
{
}

/// The page table and the frames that hold a page agree: a page is in the
/// table exactly when some frame holds it, that frame is the one the table
/// names, no two pages share a frame, and no two frames hold the same page.
pub proof fn lemma_table_and_frames_agree(m: ManagerView)
    requires
        m.wf(),
    ensures
        forall|page_id: PageId|
            m.is_cached(page_id) <==> exists|b: int|
                m.pool.has(b) && (#[trigger] m.pool.frames[b]).page_id == Some(page_id),
        forall|page_id: PageId, b: int|
            m.pool.has(b) && (#[trigger] m.pool.frames[b]).page_id == Some(page_id) ==> (
            #[trigger] m.table[page_id]).0 == b,
        forall|p: PageId, q: PageId|
            #![trigger m.table[p], m.table[q]]
            m.is_cached(p) && m.is_cached(q) && m.table[p] == m.table[q] ==> p == q,
        forall|a: int, b: int|
            #![trigger m.pool.frames[a], m.pool.frames[b]]
            m.pool.has(a) && m.pool.has(b) && m.pool.frames[a].page_id is Some
                && m.pool.frames[a].page_id == m.pool.frames[b].page_id ==> a == b,
{
    assert forall|page_id: PageId| m.is_cached(page_id) implies exists|b: int|
        m.pool.has(b) && (#[trigger] m.pool.frames[b]).page_id == Some(page_id) by {
        let b = m.table[page_id].0 as int;
        assert(m.pool.has(b) && m.pool.frames[b].page_id == Some(page_id));
    }
    assert forall|page_id: PageId, b: int|
        m.pool.has(b) && (#[trigger] m.pool.frames[b]).page_id == Some(page_id) implies (
    #[trigger] m.table[page_id]).0 == b && m.is_cached(page_id) by {
        assert(m.frame_is_tabled(b));
    }
    assert forall|a: int, b: int|
        #![trigger m.pool.frames[a], m.pool.frames[b]]
        m.pool.has(a) && m.pool.has(b) && m.pool.frames[a].page_id is Some
            && m.pool.frames[a].page_id == m.pool.frames[b].page_id implies a == b by {
        assert(m.frame_is_tabled(a));
        assert(m.frame_is_tabled(b));
    }
}

/// When the frame that a fetch selects holds a dirty buffer, the fetch asks
/// for exactly that buffer to be written as the page it holds, and until
/// the write has succeeded the frame keeps its page, its bytes and its
/// dirty flag and stays in the page table. The fetch waits for the read
/// only after a successful write.
pub proof fn lemma_dirty_victim_is_written_first(m: ManagerView, page_id: PageId, v: int)
    requires
        m.wf(),
        m.can_fetch(page_id),
        !m.is_cached(page_id),
        m.pool.victim() == Some(v),
        m.pool.frames[v].is_dirty,
    ensures
        m.pool.frames[v].page_id is Some,
        m.fetch_step(page_id) == Ok::<FetchStep, Error>(
            FetchStep::WriteBack {
                buffer_id: BufferId(v as usize),
                page_id: m.pool.frames[v].page_id.unwrap(),
            },
        ),
        m.after_fetch(page_id).pending == Some(
            Pending { buffer_id: BufferId(v as usize), page_id, awaiting: Awaiting::WriteBack },
        ),
        m.after_fetch(page_id).pool.frames[v].page_id == m.pool.frames[v].page_id,
        m.after_fetch(page_id).pool.frames[v].page == m.pool.frames[v].page,
        m.after_fetch(page_id).pool.frames[v].is_dirty,
        m.after_fetch(page_id).table == m.table,
        m.after_fetch(page_id).after_write_back(false) == (ManagerView {
            pending: None,
            ..m.after_fetch(page_id)
        }),
        m.after_fetch(page_id).after_write_back(true).pending == Some(
            Pending { buffer_id: BufferId(v as usize), page_id, awaiting: Awaiting::Load },
        ),
{
    lemma_sweep_in_manager(m);
    assert(m.frame_is_tabled(v));
}

/// In every state, a frame that waits to be read into holds a clean buffer
/// that no caller holds, and one that waits to be written holds a dirty
/// one.
pub proof fn lemma_load_target_is_clean(m: ManagerView)
    requires
        m.wf(),
        m.pending is Some,
    ensures
        m.pool.frames[m.pending.unwrap().buffer_id.0 as int].pin_count == 0,
        m.awaits(Awaiting::Load) <==> !m.pool.frames[m.pending.unwrap().buffer_id.0
            as int].is_dirty,
{
}

/// A fetch of a page that is not in the pool fails for want of a frame
/// exactly when every frame is pinned, and then changes nothing.
pub proof fn lemma_no_free_buffer_iff_all_pinned(m: ManagerView, page_id: PageId)
    requires
        m.wf(),
        m.can_fetch(page_id),
        !m.is_cached(page_id),
    ensures
        m.fetch_step(page_id) is Err <==> m.pool.all_pinned(),
        m.fetch_step(page_id) is Err ==> m.fetch_step(page_id) == Err::<FetchStep, Error>(
            Error::NoFreeBuffer,
        ) && m.after_fetch(page_id) == m,
{
    lemma_victim_exists(m.pool);
}

/// When every frame is pinned and the last handle on one frame is given
/// back, the next sweep selects that frame, so a fetch of a page that is
/// not in the pool no longer fails for want of a frame.
pub proof fn lemma_release_makes_room(m: ManagerView, page_id: PageId, b: int)
    requires
        m.wf(),
        m.is_idle(),
        !m.is_cached(page_id),
        m.pool.all_pinned(),
        m.pool.has(b),
        m.pool.frames[b].pin_count == 1,
    ensures
        m.fetch_step(page_id) is Err,
        m.after_release(b).wf(),
        m.after_release(b).can_fetch(page_id),
        m.after_release(b).pool.victim() == Some(b),
        m.after_release(b).fetch_step(page_id) is Ok,
{
    let released = m.after_release(b);
    lemma_victim_exists(m.pool);
    lemma_held_frame_changes_keep_invariant(m, b, false, m.pool.frames[b].page);
    assert(released.pool.frames[b].pin_count == 0);
    assert forall|c: int|
        0 <= c < released.pool.frames.len() && (#[trigger] released.pool.frames[c]).pin_count
            == 0 implies released.pool.yields_before(b, c) by {
        assert(m.pool.frames[c].pin_count > 0);
    }
    assert(released.pool.is_victim(b));
    lemma_victim_is_unique(released.pool, b, released.pool.victim().unwrap());
}

/// A manager next to the heap file whose pages it caches.
pub struct CachedFile {
    pub manager: ManagerView,
    pub heap: Seq<u8>,
}

impl CachedFile {
    /// The write that a waiting fetch asked for, carried out: the heap file
    /// holds the buffer's bytes as the page that the frame holds.
    pub open spec fn written_back(self) -> CachedFile {
        if self.manager.awaits(Awaiting::WriteBack) {
            let v = self.manager.pending.unwrap().buffer_id.0 as int;
            CachedFile {
                manager: self.manager.after_write_back(true),
                heap: store_page(
                    self.heap,
                    self.manager.pool.frames[v].page_id.unwrap(),
                    self.manager.pool.frames[v].page,
                ),
            }
        } else {
            self
        }
    }

    /// The read that a waiting fetch asked for, carried out: the manager
    /// gets the page as the heap file holds it, or a failure when the file
    /// ends before the end of the page.
    pub open spec fn loaded(self) -> CachedFile {
        if self.manager.awaits(Awaiting::Load) {
            CachedFile {
                manager: self.manager.after_load(
                    stored_page(self.heap, self.manager.pending.unwrap().page_id),
                ),
                ..self
            }
        } else {
            self
        }
    }

    /// A whole fetch of `page_id`, with every write and read that the
    /// manager asks for carried out on the heap file.
    pub open spec fn fetch(self, page_id: PageId) -> CachedFile {
        (CachedFile { manager: self.manager.after_fetch(page_id), ..self }).written_back().loaded()
    }

    /// Whether `page_id` is out of the pool and the heap file holds `page`
    /// for it.
    pub open spec fn holds_on_disk(self, page_id: PageId, page: Seq<u8>) -> bool {
        !self.manager.is_cached(page_id) && stored_page(self.heap, page_id) == Some(page)
    }
}

/// A whole fetch keeps the invariant and leaves no fetch waiting.
pub proof fn lemma_whole_fetch_keeps_invariant(c: CachedFile, page_id: PageId)
    requires
        c.manager.wf(),
        c.manager.can_fetch(page_id),
    ensures
        c.fetch(page_id).manager.wf(),
        c.fetch(page_id).manager.is_idle(),
{
    let begun = CachedFile { manager: c.manager.after_fetch(page_id), ..c };
    lemma_fetch_keeps_invariant(c.manager, page_id);
    if begun.manager.awaits(Awaiting::WriteBack) {
        lemma_write_back_keeps_invariant(begun.manager, true);
    }
    let written = begun.written_back();
    if written.manager.awaits(Awaiting::Load) {
        lemma_load_keeps_invariant(
            written.manager,
            stored_page(written.heap, written.manager.pending.unwrap().page_id),
        );
    }
}

/// A fetch that reuses the frame of a dirty page leaves that page out of
/// the pool and its bytes in the heap file.
pub proof fn lemma_evicted_dirty_page_is_on_disk(c: CachedFile, page_id: PageId, evicted: PageId)
    requires
        c.manager.wf(),
        c.manager.can_fetch(page_id),
        !c.manager.is_cached(page_id),
        c.manager.is_cached(evicted),
        c.manager.pool.frames[c.manager.frame_of(evicted)].is_dirty,
        c.manager.pool.victim() == Some(c.manager.frame_of(evicted)),
        stored_page(c.heap, page_id) is Some,
    ensures
        c.fetch(page_id).holds_on_disk(
            evicted,
            c.manager.pool.frames[c.manager.frame_of(evicted)].page,
        ),
        c.fetch(page_id).manager.is_cached(page_id),
{
    let v = c.manager.frame_of(evicted);
    let bytes = c.manager.pool.frames[v].page;
    lemma_dirty_victim_is_written_first(c.manager, page_id, v);
    lemma_fetch_keeps_invariant(c.manager, page_id);
    let begun = CachedFile { manager: c.manager.after_fetch(page_id), ..c };
    lemma_write_back_keeps_invariant(begun.manager, true);
    let written = begun.written_back();
    assert(written.heap == store_page(c.heap, evicted, bytes));
    lemma_stored_after_store(c.heap, evicted, bytes);
    lemma_store_keeps_other_pages(c.heap, evicted, bytes, page_id);
}

/// A fetch of another page, whatever it evicts and writes, leaves a page
/// that is out of the pool out of the pool, and its bytes in the heap file
/// as they are.
pub proof fn lemma_fetch_keeps_pages_on_disk(
    c: CachedFile,
    page_id: PageId,
    other: PageId,
    page: Seq<u8>,
)
    requires
        c.manager.wf(),
        c.manager.can_fetch(page_id),
        page_id != other,
        c.holds_on_disk(other, page),
    ensures
        c.fetch(page_id).holds_on_disk(other, page),
{
    lemma_sweep_in_manager(c.manager);
    lemma_fetch_keeps_invariant(c.manager, page_id);
    let begun = CachedFile { manager: c.manager.after_fetch(page_id), ..c };
    if begun.manager.awaits(Awaiting::WriteBack) {
        let v = begun.manager.pending.unwrap().buffer_id.0 as int;
        let frame = begun.manager.pool.frames[v];
        assert(begun.manager.frame_is_tabled(v));
        lemma_write_back_keeps_invariant(begun.manager, true);
        lemma_store_keeps_other_pages(c.heap, frame.page_id.unwrap(), frame.page, other);
    }
}

/// When a page is out of the pool and a whole fetch brings it in, the frame
/// holds the bytes that the heap file held for it; and the fetch brings it
/// in unless every frame is pinned.
pub proof fn lemma_fetch_loads_page_from_disk(c: CachedFile, page_id: PageId, page: Seq<u8>)
    requires
        c.manager.wf(),
        c.manager.can_fetch(page_id),
        c.holds_on_disk(page_id, page),
    ensures
        c.fetch(page_id).manager.is_cached(page_id) <==> !c.manager.pool.all_pinned(),
        c.fetch(page_id).manager.is_cached(page_id) ==> {
            let frame = c.fetch(page_id).manager.pool.frames[c.fetch(page_id).manager.frame_of(
                page_id,
            )];
            &&& frame.page == page
            &&& frame.page_id == Some(page_id)
            &&& !frame.is_dirty
        },
{
    lemma_sweep_in_manager(c.manager);
    lemma_fetch_keeps_invariant(c.manager, page_id);
    let begun = CachedFile { manager: c.manager.after_fetch(page_id), ..c };
    if begun.manager.awaits(Awaiting::WriteBack) {
        let v = begun.manager.pending.unwrap().buffer_id.0 as int;
        let frame = begun.manager.pool.frames[v];
        assert(begun.manager.frame_is_tabled(v));
        lemma_write_back_keeps_invariant(begun.manager, true);
        lemma_store_keeps_other_pages(c.heap, frame.page_id.unwrap(), frame.page, page_id);
    }
}

/// The bytes of a dirty page that one fetch evicts are the bytes that the
/// next fetch of that page brings back, if it finds a frame.
pub proof fn lemma_round_trip(c: CachedFile, page_id: PageId, evicted: PageId)
    requires
        c.manager.wf(),
        c.manager.can_fetch(page_id),
        !c.manager.is_cached(page_id),
        c.manager.is_cached(evicted),
        c.manager.pool.frames[c.manager.frame_of(evicted)].is_dirty,
        c.manager.pool.victim() == Some(c.manager.frame_of(evicted)),
        stored_page(c.heap, page_id) is Some,
    ensures
        c.fetch(page_id).manager.can_fetch(evicted),
        c.fetch(page_id).fetch(evicted).manager.is_cached(evicted) ==> c.fetch(page_id).fetch(
            evicted,
        ).manager.pool.frames[c.fetch(page_id).fetch(evicted).manager.frame_of(evicted)].page
            == c.manager.pool.frames[c.manager.frame_of(evicted)].page,
{
    let bytes = c.manager.pool.frames[c.manager.frame_of(evicted)].page;
    lemma_evicted_dirty_page_is_on_disk(c, page_id, evicted);
    lemma_whole_fetch_keeps_invariant(c, page_id);
    lemma_fetch_loads_page_from_disk(c.fetch(page_id), evicted, bytes);
}

} // verus!
