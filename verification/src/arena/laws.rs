//! What holds of every arena across operations.

use vstd::arithmetic::power2::lemma_pow2_pos;
use vstd::arithmetic::power2::lemma_pow2_unfold;
use vstd::arithmetic::power2::pow2;
use vstd::prelude::*;

use super::layout::chunk_start;
use super::layout::flatten;
use super::layout::lemma_flatten_index;
use super::layout::lemma_flatten_push;
use super::layout::lemma_flatten_take_prefix;
use super::layout::lemma_flatten_update_last;
use super::state::ArenaState;

verus! {

/// An admitted allocation, into the last chunk or into a new one, keeps the
/// invariant and the limits, appends the value to the items in allocation
/// order, and puts it where `next_position` says, a slot that was empty.
pub proof fn lemma_alloc_appends<T>(s: ArenaState<T>, value: T, into_last: bool, request: nat)
    requires
        s.wf(),
        s.can_alloc(),
    ensures
        s.with_allocated(value, into_last, request).wf(),
        s.with_allocated(value, into_last, request).items() == s.items().push(value),
        s.element(
            s.next_position(into_last).0 as int,
            s.next_position(into_last).1 as int,
        ) is None,
        s.with_allocated(value, into_last, request).element(
            s.next_position(into_last).0 as int,
            s.next_position(into_last).1 as int,
        ) == Some(value),
        s.with_allocated(value, into_last, request).max_items == s.max_items,
        s.with_allocated(value, into_last, request).max_memory_bytes == s.max_memory_bytes,
        s.with_allocated(value, into_last, request).chunks.len() >= s.chunks.len(),
        forall|c: int|
            0 <= c < s.chunks.len() ==> #[trigger] s.with_allocated(value, into_last, request).chunks[c].len()
                >= s.chunks[c].len(),
{
    let t = s.with_allocated(value, into_last, request);
    assert(flatten(s.chunks) == flatten(s.chunks.drop_last()) + s.chunks.last());
    if into_last {
        lemma_flatten_update_last(s.chunks, s.chunks.last().push(value));
        assert(t.items() =~= s.items().push(value));
    } else {
        lemma_flatten_push(s.chunks, seq![value]);
        assert(t.items() =~= s.items().push(value));
    }
    let sz = ArenaState::<T>::element_size();
    assert((s.total_items + 1) * sz == s.total_items * sz + sz) by (nonlinear_arith);
    assert forall|i: int| 0 <= i < t.snapshots.len() implies #[trigger] t.offset_in_bounds(
        t.snapshots[i],
    ) by {
        assert(s.offset_in_bounds(s.snapshots[i]));
    }
}

/// An allocation never moves or changes an item that is already there.
pub proof fn lemma_alloc_keeps_elements<T>(
    s: ArenaState<T>,
    value: T,
    into_last: bool,
    request: nat,
    c: int,
    e: int,
)
    requires
        s.wf(),
        s.element(c, e) is Some,
    ensures
        s.with_allocated(value, into_last, request).element(c, e) == s.element(c, e),
{
}

/// An allocation leaves the items of every snapshot as they were.
pub proof fn lemma_alloc_keeps_snapshots<T>(
    s: ArenaState<T>,
    value: T,
    into_last: bool,
    request: nat,
    id: int,
)
    requires
        s.wf(),
        0 <= id < s.snapshots.len(),
    ensures
        s.with_allocated(value, into_last, request).snapshot_items(id) == s.snapshot_items(id),
{
    let t = s.with_allocated(value, into_last, request);
    let offset = s.snapshots[id];
    assert(s.offset_in_bounds(offset));
    let c = offset.0 as int;
    assert(t.chunks.take(c) =~= s.chunks.take(c));
    assert(t.chunks[c].take(offset.1 as int) =~= s.chunks[c].take(offset.1 as int));
}

/// Taking a snapshot leaves the items of every earlier snapshot as they were.
pub proof fn lemma_snapshot_keeps_snapshots<T>(s: ArenaState<T>, id: int)
    requires
        s.has_chunk(),
        0 <= id < s.snapshots.len(),
    ensures
        s.with_snapshot().snapshot_items(id) == s.snapshot_items(id),
{
}

/// A snapshot covers a prefix of the items.
pub proof fn lemma_snapshot_is_prefix<T>(s: ArenaState<T>, id: int)
    requires
        s.wf(),
        0 <= id < s.snapshots.len(),
    ensures
        s.snapshot_items(id).len() <= s.items().len(),
        s.snapshot_items(id) == s.items().take(s.snapshot_items(id).len() as int),
{
    let offset = s.snapshots[id];
    assert(s.offset_in_bounds(offset));
    let c = offset.0 as int;
    let l = offset.1 as int;
    assert(s.snapshot_items(id) == flatten(s.chunks.take(c)) + s.chunks[c].take(l));
    super::layout::lemma_flatten_take_succ(s.chunks, c);
    lemma_flatten_take_prefix(s.chunks, c + 1);
    let items = s.items();
    let pre = flatten(s.chunks.take(c));
    assert(s.snapshot_items(id) =~= items.take(pre.len() + l));
}

/// A snapshot taken now covers exactly the items there are now.
pub proof fn lemma_snapshot_captures_items<T>(s: ArenaState<T>)
    requires
        s.wf(),
    ensures
        s.with_snapshot().wf(),
        s.with_snapshot().snapshot_items(s.snapshots.len() as int) == s.items(),
{
    let t = s.with_snapshot();
    let last = s.chunks.len() - 1;
    assert(s.chunks.take(last) =~= s.chunks.drop_last());
    assert(s.chunks[last].take(s.chunks[last].len() as int) =~= s.chunks[last]);
    assert forall|i: int| 0 <= i < t.snapshots.len() implies #[trigger] t.offset_in_bounds(
        t.snapshots[i],
    ) by {
        if i < s.snapshots.len() {
            assert(s.offset_in_bounds(s.snapshots[i]));
        }
    }
}

/// Writing one item changes that item and nothing else; the invariant holds.
pub proof fn lemma_write_changes_one<T>(s: ArenaState<T>, c: int, e: int, value: T, c2: int, e2: int)
    requires
        s.wf(),
        s.element(c, e) is Some,
    ensures
        s.with_element(c, e, value).wf(),
        s.with_element(c, e, value).element(c2, e2) == (if c2 == c && e2 == e {
            Some(value)
        } else {
            s.element(c2, e2)
        }),
{
    let t = s.with_element(c, e, value);
    super::layout::lemma_flatten_update(s.chunks, c, e, value);
    lemma_flatten_index(s.chunks, c, e);
    assert forall|i: int| 0 <= i < t.snapshots.len() implies #[trigger] t.offset_in_bounds(
        t.snapshots[i],
    ) by {
        assert(s.offset_in_bounds(s.snapshots[i]));
    }
}

/// Writing one item keeps the length of every snapshot, and the snapshot
/// shows the items as they are now: the first ones, that many.
pub proof fn lemma_write_keeps_snapshot_length<T>(
    s: ArenaState<T>,
    c: int,
    e: int,
    value: T,
    id: int,
)
    requires
        s.wf(),
        s.element(c, e) is Some,
        0 <= id < s.snapshots.len(),
    ensures
        s.with_element(c, e, value).snapshot_items(id).len() == s.snapshot_items(id).len(),
        s.with_element(c, e, value).snapshot_items(id) == s.with_element(
            c,
            e,
            value,
        ).items().take(s.snapshot_items(id).len() as int),
{
    let t = s.with_element(c, e, value);
    lemma_write_changes_one(s, c, e, value, 0, 0);
    let offset = s.snapshots[id];
    assert(s.offset_in_bounds(offset));
    let k = offset.0 as int;
    assert(t.chunks.take(k).len() == s.chunks.take(k).len());
    assert forall|j: int| 0 <= j < k implies #[trigger] t.chunks.take(k)[j].len()
        == s.chunks.take(k)[j].len() by {}
    super::layout::lemma_flatten_replace_lens(s.chunks.take(k), t.chunks.take(k));
    lemma_snapshot_is_prefix(t, id);
}

/// The item at chunk `c`, index `e` is the item at flat index
/// `chunk_start(c) + e`: positions and allocation order agree.
pub proof fn lemma_element_is_item<T>(s: ArenaState<T>, c: int, e: int)
    requires
        s.element(c, e) is Some,
    ensures
        0 <= chunk_start(s.chunks, c) + e < s.items().len(),
        s.element(c, e) == Some(s.items()[chunk_start(s.chunks, c) + e]),
{
    lemma_flatten_index(s.chunks, c, e);
}

/// A reset leaves a well-formed arena with no item and no snapshot.
pub proof fn lemma_reset_empties<T>(s: ArenaState<T>)
    ensures
        s.after_reset().wf(),
        s.after_reset().items() == Seq::<T>::empty(),
        s.after_reset().chunks.len() == 1,
{
    let t = s.after_reset();
    assert(t.chunks.drop_last() =~= Seq::<Seq<T>>::empty());
    assert(flatten(t.chunks.drop_last()) =~= Seq::<T>::empty());
    assert(t.items() =~= Seq::<T>::empty());
}

/// Replacing a chunk by one of the same length keeps the invariant: the
/// invariant looks at the items only through their number and positions.
pub proof fn lemma_same_shape_keeps_wf<T>(s: ArenaState<T>, c: int, chunk: Seq<T>)
    requires
        s.wf(),
        0 <= c < s.chunks.len(),
        chunk.len() == s.chunks[c].len(),
    ensures
        (ArenaState { chunks: s.chunks.update(c, chunk), ..s }).wf(),
{
    let t = ArenaState { chunks: s.chunks.update(c, chunk), ..s };
    super::layout::lemma_flatten_replace_same_len(s.chunks, c, chunk);
    assert forall|i: int| 0 <= i < t.snapshots.len() implies #[trigger] t.offset_in_bounds(
        t.snapshots[i],
    ) by {
        assert(s.offset_in_bounds(s.snapshots[i]));
    }
}

/// The chunk layout that allocations build from a first chunk asked for
/// `first` items when every chunk's vector holds exactly the items it was
/// asked for: chunk `i` is asked for `first * 2^i` items, every chunk but
/// the last is filled to that, the last holds at most that, and a chunk after
/// the first holds at least one item.
pub open spec fn doubling_layout<T>(s: ArenaState<T>, first: nat) -> bool {
    &&& s.chunks.len() >= 1
    &&& s.requested.len() == s.chunks.len()
    &&& forall|i: int|
        0 <= i < s.chunks.len() ==> #[trigger] s.requested[i] == Some(first * pow2(i as nat))
    &&& forall|i: int|
        0 <= i < s.chunks.len() - 1 ==> #[trigger] s.chunks[i].len() == first * pow2(i as nat)
    &&& s.chunks.last().len() <= s.last_requested()
    &&& s.chunks.len() > 1 ==> s.chunks.last().len() >= 1
}

/// A fresh arena has the doubling layout of its first capacity.
pub proof fn lemma_initial_doubling_layout<T>(first: nat, max_items: nat, max_memory_bytes: nat)
    ensures
        doubling_layout(ArenaState::<T>::initial(first, max_items, max_memory_bytes), first),
{
    vstd::arithmetic::power::lemma_pow0(2);
    assert(pow2(0) == 1);
    assert(first * pow2(0) == first) by (nonlinear_arith)
        requires
            pow2(0) == 1,
    ;
}

/// A reset arena is a fresh arena whose first chunk is asked for one item.
pub proof fn lemma_reset_is_fresh<T>(s: ArenaState<T>)
    ensures
        s.after_reset() == ArenaState::<T>::initial(1, s.max_items, s.max_memory_bytes),
{
}

/// Allocating when every vector holds what it was asked for keeps the
/// doubling layout when the first capacity is not 0: a chunk is started only
/// when the last one is full, and is asked for twice its capacity.
pub proof fn lemma_alloc_keeps_doubling_layout<T>(s: ArenaState<T>, first: nat, value: T)
    requires
        first > 0,
        doubling_layout(s, first),
    ensures
        doubling_layout(s.alloc_as_requested(value), first),
{
    let t = s.alloc_as_requested(value);
    let k = (s.chunks.len() - 1) as nat;
    assert(s.requested[k as int] == Some(first * pow2(k)));
    assert(s.last_requested() == first * pow2(k));
    lemma_pow2_pos(k);
    assert(first * pow2(k) >= 1) by (nonlinear_arith)
        requires
            first > 0,
            pow2(k) > 0,
    ;
    if !s.room_in_last(s.last_requested()) {
        lemma_pow2_unfold(k + 1);
        assert(s.last_requested() * 2 == first * pow2(k + 1)) by (nonlinear_arith)
            requires
                s.last_requested() == first * pow2(k),
                pow2(k + 1) == 2 * pow2(k),
        ;
        assert forall|i: int| 0 <= i < t.chunks.len() - 1 implies #[trigger] t.chunks[i].len()
            == first * pow2(i as nat) by {
            if i < s.chunks.len() - 1 {
                assert(s.chunks[i].len() == first * pow2(i as nat));
            }
        }
        assert forall|i: int| 0 <= i < t.chunks.len() implies #[trigger] t.requested[i] == Some(
            first * pow2(i as nat),
        ) by {
            if i < s.chunks.len() {
                assert(s.requested[i] == Some(first * pow2(i as nat)));
            }
        }
        assert(t.last_requested() == first * pow2(k + 1));
    } else {
        assert forall|i: int| 0 <= i < t.chunks.len() - 1 implies #[trigger] t.chunks[i].len()
            == first * pow2(i as nat) by {
            assert(s.chunks[i].len() == first * pow2(i as nat));
        }
    }
}

/// Under the doubling layout the first `j` chunks (not the last) hold
/// `first * (2^j - 1)` items.
proof fn lemma_full_chunks_count<T>(s: ArenaState<T>, first: nat, j: nat)
    requires
        doubling_layout(s, first),
        j <= s.chunks.len() - 1,
    ensures
        flatten(s.chunks.take(j as int)).len() + first == first * pow2(j),
    decreases j,
{
    if j == 0 {
        vstd::arithmetic::power::lemma_pow0(2);
        assert(pow2(0) == 1);
        assert(first * pow2(0) == first) by (nonlinear_arith)
            requires
                pow2(0) == 1,
        ;
        assert(s.chunks.take(0) =~= Seq::<Seq<T>>::empty());
        assert(flatten(s.chunks.take(0)).len() == 0);
    } else {
        lemma_full_chunks_count(s, first, (j - 1) as nat);
        super::layout::lemma_flatten_take_succ(s.chunks, j - 1);
        lemma_pow2_unfold(j);
        assert(s.chunks[j - 1].len() == first * pow2((j - 1) as nat));
        assert(first * pow2(j) == 2 * (first * pow2((j - 1) as nat))) by (nonlinear_arith)
            requires
                pow2(j) == 2 * pow2((j - 1) as nat),
        ;
    }
}

/// Under the doubling layout with first capacity `first`, an arena of `k`
/// chunks holds `first * (2^(k-1) - 1)` items in its full chunks plus those of
/// its last chunk; so the number of items `n` fixes `k`: `n` is at most
/// `first * (2^k - 1)`, and more than `first * (2^(k-1) - 1)` unless `k` is 1.
pub proof fn lemma_doubling_layout_counts<T>(s: ArenaState<T>, first: nat)
    requires
        doubling_layout(s, first),
    ensures
        s.items().len() + first == first * pow2((s.chunks.len() - 1) as nat) + s.chunks.last().len(),
        s.items().len() + first <= first * pow2(s.chunks.len()),
        s.chunks.len() > 1 ==> s.items().len() + first > first * pow2((s.chunks.len() - 1) as nat),
{
    let k = (s.chunks.len() - 1) as nat;
    lemma_full_chunks_count(s, first, k);
    assert(s.chunks.take(k as int) =~= s.chunks.drop_last());
    lemma_pow2_unfold(k + 1);
    assert(first * pow2(k + 1) == 2 * (first * pow2(k))) by (nonlinear_arith)
        requires
            pow2(k + 1) == 2 * pow2(k),
    ;
}

/// The state that stored parts describe holds each part as given.
pub proof fn lemma_parts_kept<T>(
    max_items: usize,
    max_memory_bytes: usize,
    chunks: Seq<Vec<T>>,
    snapshot_offsets: Seq<(usize, usize)>,
    total_items: usize,
    total_memory_used: usize,
)
    ensures
        ({
            let s = super::parts_state(
                max_items,
                max_memory_bytes,
                chunks,
                snapshot_offsets,
                total_items,
                total_memory_used,
            );
            &&& s.max_items == max_items
            &&& s.max_memory_bytes == max_memory_bytes
            &&& s.total_items == total_items
            &&& s.total_memory_used == total_memory_used
            &&& s.chunks.len() == chunks.len()
            &&& forall|i: int| 0 <= i < chunks.len() ==> #[trigger] s.chunks[i] == chunks[i]@
            &&& s.snapshots.len() == snapshot_offsets.len()
            &&& forall|i: int|
                0 <= i < snapshot_offsets.len() ==> #[trigger] s.snapshots[i] == (
                    snapshot_offsets[i].0 as nat,
                    snapshot_offsets[i].1 as nat,
                )
            &&& forall|i: int| 0 <= i < chunks.len() ==> #[trigger] s.requested[i] is None
        }),
{
}

/// Allocations into the last chunk, in order.
pub open spec fn fill_last<T>(s: ArenaState<T>, values: Seq<T>) -> ArenaState<T>
    decreases values.len(),
{
    if values.len() == 0 {
        s
    } else {
        fill_last(s, values.drop_last()).with_allocated(values.last(), true, 0)
    }
}

/// A fresh arena whose first chunk was asked for `capacity` items takes its
/// first `capacity` items into that chunk, item `j` at (0, j): before each of
/// them the first chunk is shorter than its request, which makes
/// `advanced_alloc` put the item there.
pub proof fn lemma_fresh_arena_fills_first_chunk<T>(
    capacity: nat,
    max_items: nat,
    max_memory_bytes: nat,
    values: Seq<T>,
)
    requires
        values.len() <= capacity,
    ensures
        fill_last(ArenaState::<T>::initial(capacity, max_items, max_memory_bytes), values).chunks
            == seq![values],
        forall|j: int|
            0 <= j < values.len() ==> {
                let before = #[trigger] fill_last(
                    ArenaState::<T>::initial(capacity, max_items, max_memory_bytes),
                    values.take(j),
                );
                &&& before.requests_per_chunk()
                &&& before.last_requested() == capacity
                &&& before.room_in_last(before.last_requested())
                &&& before.next_position(true) == (0nat, j as nat)
            },
    decreases values.len(),
{
    let init = ArenaState::<T>::initial(capacity, max_items, max_memory_bytes);
    if values.len() == 0 {
        assert(values =~= Seq::<T>::empty());
        assert(init.chunks =~= seq![values]);
    } else {
        let prev = values.drop_last();
        lemma_fresh_arena_fills_first_chunk(capacity, max_items, max_memory_bytes, prev);
        let p = fill_last(init, prev);
        assert(p.chunks == seq![prev]);
        assert(prev.push(values.last()) =~= values);
        assert(p.chunks.last() == prev);
        assert(fill_last(init, values) == p.with_allocated(values.last(), true, 0));
        assert(fill_last(init, values).chunks =~= seq![values]);
        assert forall|j: int| 0 <= j < values.len() implies {
            let before = #[trigger] fill_last(init, values.take(j));
            &&& before.requests_per_chunk()
            &&& before.last_requested() == capacity
            &&& before.room_in_last(before.last_requested())
            &&& before.next_position(true) == (0nat, j as nat)
        } by {
            if j < prev.len() {
                assert(values.take(j) =~= prev.take(j));
            } else {
                assert(values.take(j) =~= prev);
            }
            lemma_fill_last_shape(init, values.take(j));
        }
    }
}

/// Filling the last chunk keeps one request per chunk and the requests.
proof fn lemma_fill_last_shape<T>(s: ArenaState<T>, values: Seq<T>)
    requires
        s.chunks.len() >= 1,
    ensures
        fill_last(s, values).chunks.len() == s.chunks.len(),
        fill_last(s, values).requested == s.requested,
    decreases values.len(),
{
    if values.len() > 0 {
        lemma_fill_last_shape(s, values.drop_last());
    }
}

/// When the last chunk follows its request, the allocation that
/// `advanced_alloc` makes (into the last chunk exactly while it is shorter
/// than its request, else into a new chunk asked for twice its length) is the
/// allocation as requested.
pub proof fn lemma_requests_decide<T>(s: ArenaState<T>, value: T, into_last: bool)
    requires
        s.follows_requests(),
        into_last <==> s.room_in_last(s.last_requested()),
    ensures
        s.with_allocated(value, into_last, s.chunks.last().len() * 2) == s.alloc_as_requested(
            value,
        ),
{
}

/// Under the doubling layout with a first capacity above 0, items of
/// non-zero size follow their requests, and the allocation `advanced_alloc`
/// makes keeps the layout: chunk `k` takes `first * 2^k` items before the
/// next chunk starts, and that chunk is asked for twice as many.
pub proof fn lemma_advanced_alloc_keeps_doubling_layout<T>(
    s: ArenaState<T>,
    first: nat,
    value: T,
    into_last: bool,
)
    requires
        first > 0,
        ArenaState::<T>::element_size() > 0,
        doubling_layout(s, first),
        into_last <==> s.room_in_last(s.last_requested()),
    ensures
        s.follows_requests(),
        doubling_layout(s.with_allocated(value, into_last, s.chunks.last().len() * 2), first),
{
    let k = (s.chunks.len() - 1) as nat;
    assert(s.requested[k as int] == Some(first * pow2(k)));
    lemma_pow2_pos(k);
    assert(first * pow2(k) > 0) by (nonlinear_arith)
        requires
            first > 0,
            pow2(k) > 0,
    ;
    lemma_requests_decide(s, value, into_last);
    lemma_alloc_keeps_doubling_layout(s, first, value);
}

} // verus!
