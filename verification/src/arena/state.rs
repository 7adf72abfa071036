//! The abstract state of an arena and what each operation does to it.

use vstd::layout::size_of;
use vstd::prelude::*;

use super::layout::flatten;

verus! {

/// What an arena holds, as mathematical values.
///
/// `chunks` are the item chunks in allocation order; `requested` holds, for
/// each chunk, the capacity the arena asked `Vec::with_capacity` for when it
/// made the chunk's vector (`None` for a chunk it was handed by
/// `from_parts`); each snapshot is the pair (index of the last chunk, its
/// length) taken when the snapshot was made.  How many items a chunk's
/// vector can actually take before it is full is up to the allocator and is
/// not part of the state: an allocation that finds the last chunk full
/// starts a new chunk.
#[verifier::ext_equal]
pub struct ArenaState<T> {
    pub chunks: Seq<Seq<T>>,
    pub requested: Seq<Option<nat>>,
    pub snapshots: Seq<(nat, nat)>,
    pub max_items: nat,
    pub max_memory_bytes: nat,
    pub total_items: nat,
    pub total_memory_used: nat,
}

impl<T> ArenaState<T> {
    /// All items, in the order they were allocated.
    pub open spec fn items(self) -> Seq<T> {
        flatten(self.chunks)
    }

    /// The bytes one item counts for: `size_of::<T>()`.
    pub open spec fn element_size() -> nat {
        size_of::<T>()
    }

    /// There is a chunk to allocate into and to take a snapshot of.
    pub open spec fn has_chunk(self) -> bool {
        self.chunks.len() >= 1
    }

    /// A snapshot offset names an existing chunk and a length within it.
    pub open spec fn offset_in_bounds(self, offset: (nat, nat)) -> bool {
        &&& offset.0 < self.chunks.len()
        &&& offset.1 <= self.chunks[offset.0 as int].len()
    }

    /// The invariant of every arena built by `new` and the operations: at
    /// least one chunk, a requested capacity entry per chunk, the counters count the items and their bytes, both
    /// within their limits, and every snapshot within the chunks.
    pub open spec fn wf(self) -> bool {
        &&& self.has_chunk()
        &&& self.requests_per_chunk()
        &&& self.total_items == self.items().len()
        &&& self.total_memory_used == self.total_items * Self::element_size()
        &&& self.total_items <= self.max_items
        &&& self.total_memory_used <= self.max_memory_bytes
        &&& forall|i: int|
            0 <= i < self.snapshots.len() ==> #[trigger] self.offset_in_bounds(self.snapshots[i])
    }

    /// A fresh arena: one empty chunk whose vector was asked for `capacity`
    /// items, no snapshot, nothing counted.
    pub open spec fn initial(capacity: nat, max_items: nat, max_memory_bytes: nat) -> Self {
        ArenaState {
            chunks: seq![Seq::empty()],
            requested: seq![Some(capacity)],
            snapshots: Seq::empty(),
            max_items,
            max_memory_bytes,
            total_items: 0,
            total_memory_used: 0,
        }
    }

    /// An allocation is admitted while both the item limit and the memory
    /// limit leave room for one more item.
    pub open spec fn can_alloc(self) -> bool {
        &&& self.total_items < self.max_items
        &&& self.total_memory_used + Self::element_size() <= self.max_memory_bytes
    }

    /// The memory sum that the limit check forms fits in a `usize`.
    pub open spec fn memory_sum_fits(self) -> bool {
        self.total_items < self.max_items ==> self.total_memory_used + Self::element_size()
            <= usize::MAX
    }

    /// A new chunk is asked for twice the capacity of the full last chunk,
    /// which then equals its length; that number must be a `usize`.
    pub open spec fn growth_fits(self) -> bool {
        self.chunks.last().len() * 2 <= usize::MAX
    }

    /// Where the next allocation goes, (chunk index, index in the chunk):
    /// the end of the last chunk when it goes there, else a new chunk.
    pub open spec fn next_position(self, into_last: bool) -> (nat, nat) {
        if into_last {
            ((self.chunks.len() - 1) as nat, self.chunks.last().len())
        } else {
            (self.chunks.len(), 0)
        }
    }

    /// The state after `value` is allocated, appended to the last chunk when
    /// `into_last`, else to a new chunk whose vector is asked for `request`
    /// items.
    pub open spec fn with_allocated(self, value: T, into_last: bool, request: nat) -> Self {
        ArenaState {
            chunks: if into_last {
                self.chunks.update(self.chunks.len() - 1, self.chunks.last().push(value))
            } else {
                self.chunks.push(seq![value])
            },
            requested: if into_last {
                self.requested
            } else {
                self.requested.push(Some(request))
            },
            snapshots: self.snapshots,
            max_items: self.max_items,
            max_memory_bytes: self.max_memory_bytes,
            total_items: self.total_items + 1,
            total_memory_used: self.total_memory_used + Self::element_size(),
        }
    }

    /// The last chunk has room when its length is below `capacity`, the
    /// number of items its vector can hold.
    pub open spec fn room_in_last(self, capacity: nat) -> bool {
        self.chunks.last().len() < capacity
    }

    /// There is one recorded request per chunk.
    pub open spec fn requests_per_chunk(self) -> bool {
        self.requested.len() == self.chunks.len()
    }

    /// The last chunk's vector holds items of non-zero size, was asked for a
    /// non-zero capacity and holds no more items than that, so that capacity
    /// is what the vector holds.
    pub open spec fn follows_requests(self) -> bool {
        &&& self.requests_per_chunk()
        &&& self.last_requested() > 0
        &&& Self::element_size() > 0
        &&& self.chunks.last().len() <= self.last_requested()
    }

    /// The capacity the last chunk's vector was asked for (0 if unknown).
    pub open spec fn last_requested(self) -> nat {
        match self.requested.last() {
            Some(c) => c,
            None => 0,
        }
    }

    /// The allocation of `value` when the last chunk's vector holds exactly
    /// the capacity it was asked for: what `advanced_alloc_with_capacity`
    /// does given that capacity, and what `advanced_alloc` does when the
    /// allocator gives what was asked.
    pub open spec fn alloc_as_requested(self, value: T) -> Self {
        self.with_allocated(
            value,
            self.room_in_last(self.last_requested()),
            self.last_requested() * 2,
        )
    }

    /// The item at chunk `c`, index `e`, if there is one.
    pub open spec fn element(self, c: int, e: int) -> Option<T> {
        if 0 <= c < self.chunks.len() && 0 <= e < self.chunks[c].len() {
            Some(self.chunks[c][e])
        } else {
            None
        }
    }

    /// The state with the item at chunk `c`, index `e` replaced by `value`.
    pub open spec fn with_element(self, c: int, e: int, value: T) -> Self {
        ArenaState { chunks: self.chunks.update(c, self.chunks[c].update(e, value)), ..self }
    }

    /// The state with one more snapshot, taken at the current end.
    pub open spec fn with_snapshot(self) -> Self {
        ArenaState {
            snapshots: self.snapshots.push(
                ((self.chunks.len() - 1) as nat, self.chunks.last().len()),
            ),
            ..self
        }
    }

    /// A snapshot can be read when its chunk exists.
    pub open spec fn snapshot_readable(self, id: int) -> bool {
        &&& 0 <= id < self.snapshots.len()
        &&& self.snapshots[id].0 < self.chunks.len()
    }

    /// The items that snapshot `id` covers: every chunk before its chunk,
    /// then the first items of its chunk, as many as its length (or all of
    /// them, if the chunk is shorter).
    pub open spec fn snapshot_items(self, id: int) -> Seq<T> {
        let offset = self.snapshots[id];
        let chunk = self.chunks[offset.0 as int];
        let n = if offset.1 <= chunk.len() {
            offset.1
        } else {
            chunk.len()
        };
        flatten(self.chunks.take(offset.0 as int)) + chunk.take(n as int)
    }

    /// The state after a reset: one empty chunk whose vector was asked for a
    /// single item, no snapshot, nothing counted; the limits stay.
    pub open spec fn after_reset(self) -> Self {
        ArenaState {
            chunks: seq![Seq::empty()],
            requested: seq![Some(1)],
            snapshots: Seq::empty(),
            max_items: self.max_items,
            max_memory_bytes: self.max_memory_bytes,
            total_items: 0,
            total_memory_used: 0,
        }
    }
}

} // verus!
