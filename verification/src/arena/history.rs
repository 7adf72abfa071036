//! Laws over whole sequences of arena operations.

use vstd::prelude::*;

use super::laws::lemma_alloc_appends;
use super::laws::lemma_alloc_keeps_snapshots;
use super::laws::lemma_snapshot_captures_items;
use super::laws::lemma_snapshot_is_prefix;
use super::laws::lemma_snapshot_keeps_snapshots;
use super::laws::lemma_write_changes_one;
use super::laws::lemma_write_keeps_snapshot_length;
use super::state::ArenaState;

verus! {

/// One operation that changes an arena: an allocation (into the last chunk
/// or a new one asked for `request` items, as the allocator's capacity
/// decides), a snapshot, or a write through `get_mut`.
pub enum ArenaOp<T> {
    Alloc { value: T, into_last: bool, request: nat },
    Snapshot,
    Write { chunk: int, index: int, value: T },
}

/// The state after `op`: a refused allocation, or a write to a position with
/// no item, changes nothing.
pub open spec fn apply_op<T>(s: ArenaState<T>, op: ArenaOp<T>) -> ArenaState<T> {
    match op {
        ArenaOp::Alloc { value, into_last, request } => if s.can_alloc() {
            s.with_allocated(value, into_last, request)
        } else {
            s
        },
        ArenaOp::Snapshot => if s.has_chunk() {
            s.with_snapshot()
        } else {
            s
        },
        ArenaOp::Write { chunk, index, value } => if s.element(chunk, index) is Some {
            s.with_element(chunk, index, value)
        } else {
            s
        },
    }
}

/// The state after `ops`, in order.
pub open spec fn apply_ops<T>(s: ArenaState<T>, ops: Seq<ArenaOp<T>>) -> ArenaState<T>
    decreases ops.len(),
{
    if ops.len() == 0 {
        s
    } else {
        apply_op(apply_ops(s, ops.drop_last()), ops.last())
    }
}

/// No operation of `ops` is a write.
pub open spec fn writes_nothing<T>(ops: Seq<ArenaOp<T>>) -> bool {
    forall|i: int| 0 <= i < ops.len() ==> !(#[trigger] ops[i] is Write)
}

/// Any sequence of operations keeps the invariant and every earlier
/// snapshot offset.
pub proof fn lemma_ops_keep_wf<T>(s: ArenaState<T>, ops: Seq<ArenaOp<T>>)
    requires
        s.wf(),
    ensures
        apply_ops(s, ops).wf(),
        apply_ops(s, ops).snapshots.len() >= s.snapshots.len(),
        forall|i: int|
            0 <= i < s.snapshots.len() ==> #[trigger] apply_ops(s, ops).snapshots[i]
                == s.snapshots[i],
    decreases ops.len(),
{
    if ops.len() > 0 {
        let p = apply_ops(s, ops.drop_last());
        lemma_ops_keep_wf(s, ops.drop_last());
        match ops.last() {
            ArenaOp::Alloc { value, into_last, request } => {
                if p.can_alloc() {
                    lemma_alloc_appends(p, value, into_last, request);
                }
            },
            ArenaOp::Snapshot => {
                lemma_snapshot_captures_items(p);
            },
            ArenaOp::Write { chunk, index, value } => {
                if p.element(chunk, index) is Some {
                    lemma_write_changes_one(p, chunk, index, value, 0, 0);
                }
            },
        }
    }
}

/// After a snapshot, whatever allocations, snapshots and writes follow, the
/// snapshot keeps its length and shows the first items, that many, as they
/// are now; with no write among them it shows exactly what it showed.
pub proof fn lemma_ops_keep_snapshot<T>(s: ArenaState<T>, ops: Seq<ArenaOp<T>>, id: int)
    requires
        s.wf(),
        0 <= id < s.snapshots.len(),
    ensures
        apply_ops(s, ops).snapshot_items(id).len() == s.snapshot_items(id).len(),
        apply_ops(s, ops).snapshot_items(id) == apply_ops(s, ops).items().take(
            s.snapshot_items(id).len() as int,
        ),
        writes_nothing(ops) ==> apply_ops(s, ops).snapshot_items(id) == s.snapshot_items(id),
    decreases ops.len(),
{
    lemma_ops_keep_wf(s, ops);
    if ops.len() == 0 {
        lemma_snapshot_is_prefix(s, id);
    } else {
        let p = apply_ops(s, ops.drop_last());
        lemma_ops_keep_snapshot(s, ops.drop_last(), id);
        lemma_ops_keep_wf(s, ops.drop_last());
        assert(writes_nothing(ops) ==> writes_nothing(ops.drop_last())) by {
            if writes_nothing(ops) {
                assert forall|i: int| 0 <= i < ops.drop_last().len() implies !(
                #[trigger] ops.drop_last()[i] is Write) by {
                    assert(ops.drop_last()[i] == ops[i]);
                }
            }
        }
        match ops.last() {
            ArenaOp::Alloc { value, into_last, request } => {
                if p.can_alloc() {
                    lemma_alloc_keeps_snapshots(p, value, into_last, request, id);
                }
            },
            ArenaOp::Snapshot => {
                lemma_snapshot_keeps_snapshots(p, id);
            },
            ArenaOp::Write { chunk, index, value } => {
                assert(!writes_nothing(ops)) by {
                    assert(ops[ops.len() - 1] is Write);
                }
                if p.element(chunk, index) is Some {
                    lemma_write_keeps_snapshot_length(p, chunk, index, value, id);
                }
            },
        }
        lemma_snapshot_is_prefix(apply_ops(s, ops), id);
    }
}

} // verus!
