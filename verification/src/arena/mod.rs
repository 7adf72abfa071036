//! Chunked arena allocator.
//!
//! Items are appended into chunks; when the last chunk's vector is full a
//! new chunk is started, asked for twice that vector's capacity, so an item
//! never moves once placed and its (chunk index, index in chunk) stays valid
//! until `reset`.  The arena
//! counts items and the bytes they occupy against two limits, and records
//! snapshots: marks of how far the arena was filled, whose items can be read
//! back later.

pub mod history;
mod iter;
pub mod laws;
pub mod layout;
mod message;
pub mod state;

use vstd::prelude::*;

use self::layout::chunk_views;
use self::layout::flatten;
use self::layout::lemma_chunk_views_update;
use self::layout::lemma_flatten_take_succ;
pub use self::iter::ArenaIterator;
use self::laws::lemma_alloc_appends;
use self::laws::lemma_same_shape_keeps_wf;
use self::message::capacity_exceeded_message;
use self::message::capacity_message;
use self::state::ArenaState;

verus! {

/// A chunked arena of `T` items.
pub struct Arena<T> {
    max_items: usize,
    max_memory_bytes: usize,
    chunks: Vec<Vec<T>>,
    requested: Vec<Option<usize>>,
    snapshot_offsets: Vec<(usize, usize)>,
    total_items: usize,
    total_memory_used: usize,
}

/// The values behind a sequence of references.
pub open spec fn derefs<T>(refs: Seq<&T>) -> Seq<T> {
    refs.map_values(|r: &T| *r)
}

/// Snapshot offsets as pairs of naturals.
pub open spec fn offset_views(offsets: Seq<(usize, usize)>) -> Seq<(nat, nat)> {
    offsets.map_values(|o: (usize, usize)| (o.0 as nat, o.1 as nat))
}

/// Recorded capacity requests as naturals.
pub open spec fn request_views(requests: Seq<Option<usize>>) -> Seq<Option<nat>> {
    requests.map_values(
        |o: Option<usize>|
            match o {
                Some(c) => Some(c as nat),
                None => None,
            },
    )
}

/// The state that the given parts describe.
pub open spec fn parts_state<T>(
    max_items: usize,
    max_memory_bytes: usize,
    chunks: Seq<Vec<T>>,
    snapshot_offsets: Seq<(usize, usize)>,
    total_items: usize,
    total_memory_used: usize,
) -> ArenaState<T> {
    ArenaState {
        chunks: chunk_views(chunks),
        requested: Seq::new(chunks.len(), |i: int| None),
        snapshots: offset_views(snapshot_offsets),
        max_items: max_items as nat,
        max_memory_bytes: max_memory_bytes as nat,
        total_items: total_items as nat,
        total_memory_used: total_memory_used as nat,
    }
}

/// The number of items `chunk` can hold without reallocating, by
/// `Vec::capacity`.  The allocator decides it; std documents that it is at
/// least the length, which is all the contract claims.
#[verifier::external_body]
fn chunk_capacity<T>(chunk: &Vec<T>) -> (n: usize)
    ensures
        n >= chunk@.len(),
{
    chunk.capacity()
}

impl<T> View for Arena<T> {
    type V = ArenaState<T>;

    closed spec fn view(&self) -> ArenaState<T> {
        ArenaState {
            chunks: chunk_views(self.chunks@),
            requested: request_views(self.requested@),
            snapshots: offset_views(self.snapshot_offsets@),
            max_items: self.max_items as nat,
            max_memory_bytes: self.max_memory_bytes as nat,
            total_items: self.total_items as nat,
            total_memory_used: self.total_memory_used as nat,
        }
    }
}

impl<T> Arena<T> {
    /// Whatever chunk vector takes the place of chunk `c`, its items take
    /// the place of that chunk's items; if it has the same length, the
    /// resulting arena keeps the invariant when the arena had it.
    proof fn lemma_chunk_replacements(a: Self, c: int)
        requires
            0 <= c < a.chunks@.len(),
        ensures
            forall|w: Vec<T>| #[trigger]
                chunk_views(a.chunks@.update(c, w)) == a@.chunks.update(c, w@),
            forall|w: Vec<T>|
                w@.len() == a.chunks@[c]@.len() && a.wf() ==> (ArenaState {
                    chunks: #[trigger] chunk_views(a.chunks@.update(c, w)),
                    ..a@
                }).wf(),
    {
        assert forall|w: Vec<T>| #[trigger]
            chunk_views(a.chunks@.update(c, w)) == a@.chunks.update(c, w@) by {
            lemma_chunk_views_update(a.chunks@, c, w);
        }
        assert forall|w: Vec<T>| w@.len() == a.chunks@[c]@.len() && a.wf() implies (ArenaState {
            chunks: #[trigger] chunk_views(a.chunks@.update(c, w)),
            ..a@
        }).wf() by {
            lemma_chunk_views_update(a.chunks@, c, w);
            lemma_same_shape_keeps_wf(a@, c, w@);
        }
    }

    /// The arena keeps its invariant.
    pub open spec fn wf(&self) -> bool {
        self@.wf()
    }

    /// An empty arena whose first chunk's vector is made for
    /// `initial_item_capacity` items, admitting at most `max_items` items and
    /// `max_memory_bytes` bytes of them.
    pub fn new(initial_item_capacity: usize, max_items: usize, max_memory_bytes: usize) -> (arena:
        Self)
        ensures
            arena.wf(),
            arena@ == ArenaState::<T>::initial(
                initial_item_capacity as nat,
                max_items as nat,
                max_memory_bytes as nat,
            ),
            arena@.max_items == max_items,
            arena@.max_memory_bytes == max_memory_bytes,
            arena@.items().len() == 0,
            arena@.chunks.len() == 1,
            arena@.requested == seq![Some(initial_item_capacity as nat)],
    {
        let mut chunks: Vec<Vec<T>> = Vec::new();
        chunks.push(Vec::with_capacity(initial_item_capacity));
        let mut requested: Vec<Option<usize>> = Vec::new();
        requested.push(Some(initial_item_capacity));
        let arena = Arena {
            chunks,
            requested,
            snapshot_offsets: Vec::new(),
            max_items,
            max_memory_bytes,
            total_items: 0,
            total_memory_used: 0,
        };
        proof {
            assert(arena@.chunks =~= seq![Seq::<T>::empty()]);
            assert(arena@.requested =~= seq![Some(initial_item_capacity as nat)]);
            assert(arena@.snapshots =~= Seq::<(nat, nat)>::empty());
            assert(arena@.chunks.drop_last() =~= Seq::<Seq<T>>::empty());
            assert(flatten(arena@.chunks.drop_last()) =~= Seq::<T>::empty());
            assert(arena@.items() =~= Seq::<T>::empty());
        }
        arena
    }

    /// Allocates `value` as `advanced_alloc` does, given that the last
    /// chunk's vector can hold `last_chunk_capacity` items: the value goes to
    /// the end of the last chunk while it is shorter than that, else into a
    /// new chunk whose vector is asked for twice `last_chunk_capacity` items.
    pub fn advanced_alloc_with_capacity(&mut self, value: T, last_chunk_capacity: usize) -> (r:
        Result<(usize, usize, &mut T), String>)
        requires
            old(self)@.has_chunk(),
            old(self)@.memory_sum_fits(),
            old(self)@.can_alloc() && !old(self)@.room_in_last(last_chunk_capacity as nat)
                ==> last_chunk_capacity * 2 <= usize::MAX,
        ensures
            old(self).wf() ==> final(self).wf(),
            old(self)@.can_alloc() <==> r is Ok,
            r matches Ok((c, e, v)) ==> {
                let into_last = old(self)@.room_in_last(last_chunk_capacity as nat);
                &&& (c as nat, e as nat) == old(self)@.next_position(into_last)
                &&& old(self)@.element(c as int, e as int) is None
                &&& *v == value
                &&& final(self)@ == old(self)@.with_allocated(
                    *final(v),
                    into_last,
                    last_chunk_capacity as nat * 2,
                )
            },
            r matches Err(msg) ==> {
                &&& msg@ == capacity_message(
                    old(self)@.total_items,
                    old(self)@.max_items,
                    old(self)@.total_memory_used,
                    old(self)@.max_memory_bytes,
                )
                &&& final(self)@ == old(self)@
            },
    {
        let last_index = self.chunks.len() - 1;
        let element_size = core::mem::size_of::<T>();
        if self.total_items < self.max_items && self.total_memory_used + element_size
            <= self.max_memory_bytes {
            let ghost s0 = self@;
            let ghost into_last = s0.room_in_last(last_chunk_capacity as nat);
            let ghost request = last_chunk_capacity as nat * 2;
            proof {
                if s0.wf() {
                    lemma_alloc_appends(s0, value, into_last, request);
                }
            }
            let (chunk_index, element_index) = if self.chunks[last_index].len()
                < last_chunk_capacity {
                // Room left in the last chunk.
                self.chunks[last_index].push(value);
                (last_index, self.chunks[last_index].len() - 1)
            } else {
                // Start a chunk of twice the capacity of the last one.
                let new_capacity = last_chunk_capacity * 2;
                let mut new_chunk = Vec::with_capacity(new_capacity);
                new_chunk.push(value);
                self.chunks.push(new_chunk);
                let ghost before = self.requested@;
                self.requested.push(Some(new_capacity));
                proof {
                    assert(request_views(self.requested@) =~= request_views(before).push(
                        Some(new_capacity as nat),
                    ));
                }
                (self.chunks.len() - 1, 0)
            };
            self.total_items = self.total_items + 1;
            self.total_memory_used = self.total_memory_used + element_size;
            proof {
                assert(self@.chunks =~= s0.with_allocated(value, into_last, request).chunks);
                assert(self@ == s0.with_allocated(value, into_last, request));
                assert forall|y: T|
                    self@.chunks.update(
                        chunk_index as int,
                        self@.chunks[chunk_index as int].update(element_index as int, y),
                    ) == #[trigger] s0.with_allocated(y, into_last, request).chunks by {
                    let c = chunk_index as int;
                    assert(self@.chunks[c].update(element_index as int, y)
                        =~= s0.with_allocated(y, into_last, request).chunks[c]);
                    assert(self@.chunks.update(c, self@.chunks[c].update(element_index as int, y))
                        =~= s0.with_allocated(y, into_last, request).chunks);
                }
                Self::lemma_chunk_replacements(*self, chunk_index as int);
            }
            let chunk = &mut self.chunks[chunk_index];
            Ok((chunk_index, element_index, &mut chunk[element_index]))
        } else {
            let msg = capacity_exceeded_message(
                self.total_items,
                self.max_items,
                self.total_memory_used,
                self.max_memory_bytes,
            );
            Err(msg)
        }
    }

    /// Allocates `value` and returns where it was placed, (chunk index,
    /// index in the chunk), with a reference to it.  The value goes to the
    /// end of the last chunk while its vector has room, else into a new chunk
    /// whose vector is asked for twice the last one's capacity, which then
    /// equals its length.  For items of non-zero size in a chunk the arena
    /// asked a non-zero capacity for, that capacity is what was asked, so the
    /// value goes to the last chunk exactly while it is shorter than its
    /// request; otherwise the capacity is the allocator's and the contract
    /// leaves open which of the two it is.  Refused, with a message that gives both
    /// counts against their limits, when the item limit or the memory limit
    /// leaves no room; the arena is then unchanged.
    pub fn advanced_alloc(&mut self, value: T) -> (r: Result<(usize, usize, &mut T), String>)
        requires
            old(self)@.has_chunk(),
            old(self)@.memory_sum_fits(),
            old(self)@.can_alloc() ==> old(self)@.growth_fits(),
        ensures
            old(self).wf() ==> final(self).wf(),
            old(self)@.can_alloc() <==> r is Ok,
            r matches Ok((c, e, v)) ==> {
                let into_last = c < old(self)@.chunks.len();
                &&& (c as nat, e as nat) == old(self)@.next_position(into_last)
                &&& old(self)@.element(c as int, e as int) is None
                &&& *v == value
                &&& final(self)@ == old(self)@.with_allocated(
                    *final(v),
                    into_last,
                    old(self)@.chunks.last().len() * 2,
                )
                &&& old(self)@.follows_requests() ==> (into_last <==> old(self)@.room_in_last(
                    old(self)@.last_requested(),
                ))
            },
            r matches Err(msg) ==> {
                &&& msg@ == capacity_message(
                    old(self)@.total_items,
                    old(self)@.max_items,
                    old(self)@.total_memory_used,
                    old(self)@.max_memory_bytes,
                )
                &&& final(self)@ == old(self)@
            },
    {
        let last_index = self.chunks.len() - 1;
        // A vector made by `Vec::with_capacity(n)`, `n > 0`, for items of
        // non-zero size has capacity `n`, and pushing within it keeps it; for
        // other vectors (zero-sized items, a request of 0, a chunk longer than
        // its request, chunks handed in by `from_parts`) the capacity is read
        // from the vector.
        let held = chunk_capacity(&self.chunks[last_index]);
        let element_size = core::mem::size_of::<T>();
        let asked = if last_index < self.requested.len() {
            match self.requested[last_index] {
                Some(n) => n,
                None => 0,
            }
        } else {
            0
        };
        let capacity = if asked > 0 && element_size > 0 && self.chunks[last_index].len() <= asked {
            asked
        } else {
            held
        };
        proof {
            if self@.requests_per_chunk() {
                assert(self@.requested.last() == request_views(self.requested@)[last_index as int]);
            }
        }
        self.advanced_alloc_with_capacity(value, capacity)
    }

    /// The item at chunk `chunk_index`, index `element_index`, for writing.
    pub fn get_mut(&mut self, chunk_index: usize, element_index: usize) -> (r: Option<&mut T>)
        ensures
            old(self).wf() ==> final(self).wf(),
            r is Some <==> old(self)@.element(chunk_index as int, element_index as int) is Some,
            r matches Some(x) ==> {
                &&& Some(*x) == old(self)@.element(chunk_index as int, element_index as int)
                &&& final(self)@ == old(self)@.with_element(
                    chunk_index as int,
                    element_index as int,
                    *final(x),
                )
            },
            r is None ==> final(self)@ == old(self)@,
    {
        if chunk_index < self.chunks.len() && element_index < self.chunks[chunk_index].len() {
            proof {
                Self::lemma_chunk_replacements(*self, chunk_index as int);
            }
            let chunk = &mut self.chunks[chunk_index];
            Some(&mut chunk[element_index])
        } else {
            None
        }
    }

    /// Allocates `value` and returns a reference to it; placed and refused
    /// as by `advanced_alloc`.  (The arena's `alloc` under another name:
    /// `alloc` is the name of the standard allocation crate.)
    pub fn try_alloc(&mut self, value: T) -> (r: Result<&mut T, String>)
        requires
            old(self)@.has_chunk(),
            old(self)@.memory_sum_fits(),
            old(self)@.can_alloc() ==> old(self)@.growth_fits(),
        ensures
            old(self).wf() ==> final(self).wf(),
            old(self)@.can_alloc() <==> r is Ok,
            r matches Ok(v) ==> {
                &&& *v == value
                &&& final(self)@ == old(self)@.with_allocated(
                    *final(v),
                    final(self)@.chunks.len() == old(self)@.chunks.len(),
                    old(self)@.chunks.last().len() * 2,
                )
                &&& old(self)@.follows_requests() ==> (final(self)@.chunks.len()
                    == old(self)@.chunks.len() <==> old(self)@.room_in_last(
                    old(self)@.last_requested(),
                ))
            },
            r matches Err(msg) ==> {
                &&& msg@ == capacity_message(
                    old(self)@.total_items,
                    old(self)@.max_items,
                    old(self)@.total_memory_used,
                    old(self)@.max_memory_bytes,
                )
                &&& final(self)@ == old(self)@
            },
    {
        match self.advanced_alloc(value) {
            Ok((_, _, v)) => Ok(v),
            Err(msg) => Err(msg),
        }
    }

    /// Allocates `value`, which the limits must admit, and returns a
    /// reference to it; placed as by `advanced_alloc`.
    pub fn must_alloc(&mut self, value: T) -> (v: &mut T)
        requires
            old(self)@.has_chunk(),
            old(self)@.can_alloc(),
            old(self)@.growth_fits(),
        ensures
            old(self).wf() ==> final(self).wf(),
            *v == value,
            final(self)@ == old(self)@.with_allocated(
                *final(v),
                final(self)@.chunks.len() == old(self)@.chunks.len(),
                old(self)@.chunks.last().len() * 2,
            ),
            old(self)@.follows_requests() ==> (final(self)@.chunks.len() == old(self)@.chunks.len()
                <==> old(self)@.room_in_last(old(self)@.last_requested())),
    {
        self.try_alloc(value).unwrap()
    }

    /// The item at chunk `chunk_index`, index `element_index`, if there is one.
    pub fn get(&self, chunk_index: usize, element_index: usize) -> (r: Option<&T>)
        ensures
            r is Some <==> self@.element(chunk_index as int, element_index as int) is Some,
            r matches Some(x) ==> Some(*x) == self@.element(
                chunk_index as int,
                element_index as int,
            ),
    {
        if chunk_index < self.chunks.len() && element_index < self.chunks[chunk_index].len() {
            Some(&self.chunks[chunk_index][element_index])
        } else {
            None
        }
    }

    /// The number of chunks.
    pub fn total_chunks(&self) -> (n: usize)
        ensures
            n == self@.chunks.len(),
    {
        self.chunks.len()
    }

    /// The item count.
    pub fn total_items(&self) -> (n: usize)
        ensures
            n == self@.total_items,
    {
        self.total_items
    }

    /// The bytes counted for the items.
    pub fn total_memory_usage(&self) -> (n: usize)
        ensures
            n == self@.total_memory_used,
    {
        self.total_memory_used
    }

    /// Marks how far the arena is filled now and returns the snapshot's id.
    pub fn snapshot(&mut self) -> (id: usize)
        requires
            old(self)@.has_chunk(),
        ensures
            old(self).wf() ==> final(self).wf(),
            id == old(self)@.snapshots.len(),
            final(self)@ == old(self)@.with_snapshot(),
    {
        let last_chunk_index = self.chunks.len() - 1;
        let last_chunk_len = self.chunks[last_chunk_index].len();
        self.snapshot_offsets.push((last_chunk_index, last_chunk_len));
        proof {
            assert(self@.snapshots =~= old(self)@.with_snapshot().snapshots);
            if old(self).wf() {
                laws::lemma_snapshot_captures_items(old(self)@);
            }
        }
        self.snapshot_offsets.len() - 1
    }

    /// Empties the arena: one chunk whose vector is made for a single item,
    /// no snapshot, nothing counted.  The limits stay.
    pub fn reset(&mut self)
        ensures
            final(self).wf(),
            final(self)@ == old(self)@.after_reset(),
    {
        self.chunks.clear();
        self.chunks.push(Vec::with_capacity(1));
        self.requested.clear();
        self.requested.push(Some(1));
        self.snapshot_offsets.clear();
        self.total_items = 0;
        self.total_memory_used = 0;
        proof {
            assert(self@.chunks =~= old(self)@.after_reset().chunks);
            assert(self@.requested =~= old(self)@.after_reset().requested);
            assert(self@.snapshots =~= old(self)@.after_reset().snapshots);
            laws::lemma_reset_empties(old(self)@);
        }
    }

    /// References to the items that snapshot `snapshot` covers, in
    /// allocation order.
    pub fn get_snapshot(&self, snapshot: usize) -> (r: Vec<&T>)
        requires
            self@.snapshot_readable(snapshot as int),
        ensures
            derefs(r@) == self@.snapshot_items(snapshot as int),
    {
        let (last_chunk_index, last_chunk_len) = self.snapshot_offsets[snapshot];
        let mut result: Vec<&T> = Vec::new();
        let mut i: usize = 0;
        while i < last_chunk_index
            invariant
                last_chunk_index < self.chunks@.len(),
                i <= last_chunk_index,
                derefs(result@) == flatten(self@.chunks.take(i as int)),
            decreases last_chunk_index - i,
        {
            let chunk = &self.chunks[i];
            let mut j: usize = 0;
            while j < chunk.len()
                invariant
                    i < self.chunks@.len(),
                    *chunk == self.chunks@[i as int],
                    j <= chunk@.len(),
                    derefs(result@) == flatten(self@.chunks.take(i as int)) + chunk@.take(
                        j as int,
                    ),
                decreases chunk@.len() - j,
            {
                let ghost before = result@;
                result.push(&chunk[j]);
                proof {
                    assert(derefs(result@) =~= derefs(before).push(chunk@[j as int]));
                    assert(chunk@.take(j + 1) =~= chunk@.take(j as int).push(chunk@[j as int]));
                }
                j = j + 1;
            }
            proof {
                lemma_flatten_take_succ(self@.chunks, i as int);
                assert(chunk@.take(chunk@.len() as int) =~= chunk@);
            }
            i = i + 1;
        }
        let last_chunk = &self.chunks[last_chunk_index];
        let mut j: usize = 0;
        while j < last_chunk_len && j < last_chunk.len()
            invariant
                last_chunk_index < self.chunks@.len(),
                *last_chunk == self.chunks@[last_chunk_index as int],
                j <= last_chunk@.len(),
                j <= last_chunk_len,
                derefs(result@) == flatten(self@.chunks.take(last_chunk_index as int))
                    + last_chunk@.take(j as int),
            decreases last_chunk@.len() - j,
        {
            let ghost before = result@;
            result.push(&last_chunk[j]);
            proof {
                assert(derefs(result@) =~= derefs(before).push(last_chunk@[j as int]));
                assert(last_chunk@.take(j + 1) =~= last_chunk@.take(j as int).push(
                    last_chunk@[j as int],
                ));
            }
            j = j + 1;
        }
        result
    }

    /// An iterator over the items in allocation order, carrying `batch_size`.
    pub fn iter_with_batch_size(&self, batch_size: usize) -> (it: ArenaIterator<'_, T>)
        ensures
            it.wf(),
            it.remaining() == self@.items(),
            it.batch_size_view() == batch_size,
            it.next_value_view() is None,
    {
        ArenaIterator::over(self.chunks.as_slice(), batch_size)
    }

    /// An iterator over the items in allocation order, in batches of 512.
    pub fn iter(&self) -> (it: ArenaIterator<'_, T>)
        ensures
            it.wf(),
            it.remaining() == self@.items(),
            it.batch_size_view() == 512,
            it.next_value_view() is None,
    {
        self.iter_with_batch_size(512)
    }

    /// The most items the arena admits.
    pub fn max_items(&self) -> (n: usize)
        ensures
            n == self@.max_items,
    {
        self.max_items
    }

    /// The most bytes of items the arena admits.
    pub fn max_memory_bytes(&self) -> (n: usize)
        ensures
            n == self@.max_memory_bytes,
    {
        self.max_memory_bytes
    }

    /// The chunk vectors, in order.
    pub fn chunks(&self) -> (r: &Vec<Vec<T>>)
        ensures
            chunk_views(r@) == self@.chunks,
    {
        &self.chunks
    }

    /// The snapshot offsets: (chunk index, length in that chunk), by id.
    pub fn snapshot_offsets(&self) -> (r: &Vec<(usize, usize)>)
        ensures
            offset_views(r@) == self@.snapshots,
    {
        &self.snapshot_offsets
    }

    /// Builds an arena from its parts, such as a stored arena gives back,
    /// taking them as they are.
    pub fn from_parts(
        max_items: usize,
        max_memory_bytes: usize,
        chunks: Vec<Vec<T>>,
        snapshot_offsets: Vec<(usize, usize)>,
        total_items: usize,
        total_memory_used: usize,
    ) -> (a: Self)
        ensures
            a@.max_items == max_items,
            a@.max_memory_bytes == max_memory_bytes,
            a@.chunks == chunk_views(chunks@),
            a@.snapshots == offset_views(snapshot_offsets@),
            a@.total_items == total_items,
            a@.total_memory_used == total_memory_used,
            a@ == parts_state(
                max_items,
                max_memory_bytes,
                chunks@,
                snapshot_offsets@,
                total_items,
                total_memory_used,
            ),
    {
        // The arena asked for none of these chunks.
        let mut requested: Vec<Option<usize>> = Vec::new();
        let mut i: usize = 0;
        while i < chunks.len()
            invariant
                i <= chunks@.len(),
                requested@.len() == i,
                forall|j: int| 0 <= j < i ==> #[trigger] requested@[j] is None,
            decreases chunks@.len() - i,
        {
            requested.push(None);
            i = i + 1;
        }
        proof {
            assert(request_views(requested@) =~= Seq::new(chunks@.len(), |j: int| None));
        }
        Arena {
            max_items,
            max_memory_bytes,
            chunks,
            requested,
            snapshot_offsets,
            total_items,
            total_memory_used,
        }
    }
}

} // verus!
