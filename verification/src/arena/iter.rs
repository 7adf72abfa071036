//! Walking the items of an arena in allocation order.

use vstd::prelude::*;

use super::layout::chunk_start;
use super::layout::chunk_views;
use super::layout::flatten;
use super::layout::lemma_flatten_index;
use super::layout::lemma_flatten_take_prefix;
use super::layout::lemma_flatten_take_succ;

verus! {

/// Yields references to an arena's items, chunk after chunk.
pub struct ArenaIterator<'a, T> {
    chunks: &'a [Vec<T>],
    pub batch_size: usize,
    chunk_index: usize,
    item_index: usize,
    pub next_value: Option<T>,
}

impl<'a, T> ArenaIterator<'a, T> {
    /// An iterator over `chunks` from the first item, carrying `batch_size`.
    pub(crate) fn over(chunks: &'a [Vec<T>], batch_size: usize) -> (it: Self)
        ensures
            it.wf(),
            it.remaining() == flatten(chunk_views(chunks@)),
            it.batch_size_view() == batch_size,
            it.next_value_view() is None,
    {
        let it = ArenaIterator { chunks, chunk_index: 0, item_index: 0, batch_size, next_value: None };
        proof {
            assert(chunk_views(chunks@).take(0) =~= Seq::<Seq<T>>::empty());
            assert(it.remaining() =~= flatten(chunk_views(chunks@)));
        }
        it
    }

    /// The value of the public field `batch_size`.
    pub closed spec fn batch_size_view(&self) -> usize {
        self.batch_size
    }

    /// The value of the public field `next_value`.
    pub closed spec fn next_value_view(&self) -> Option<T> {
        self.next_value
    }

    /// Index, among all items, of the next item to yield.
    pub closed spec fn position(&self) -> int {
        chunk_start(chunk_views(self.chunks@), self.chunk_index as int) + self.item_index
    }

    /// The iterator's cursor lies within the chunks.
    pub closed spec fn wf(&self) -> bool {
        &&& self.chunk_index <= self.chunks@.len()
        &&& self.chunk_index < self.chunks@.len() ==> self.item_index
            <= self.chunks@[self.chunk_index as int]@.len()
        &&& self.chunk_index == self.chunks@.len() ==> self.item_index == 0
    }

    /// The items still to come, in order.
    pub closed spec fn remaining(&self) -> Seq<T> {
        flatten(chunk_views(self.chunks@)).skip(self.position())
    }

    /// The cursor lies within the items.
    proof fn lemma_position_in_bounds(&self)
        requires
            self.wf(),
        ensures
            0 <= self.position() <= flatten(chunk_views(self.chunks@)).len(),
            self.chunk_index == self.chunks@.len() ==> self.position() == flatten(
                chunk_views(self.chunks@),
            ).len(),
    {
        let cs = chunk_views(self.chunks@);
        let c = self.chunk_index as int;
        if c < cs.len() {
            lemma_flatten_take_succ(cs, c);
            lemma_flatten_take_prefix(cs, c + 1);
        } else {
            assert(cs.take(c) =~= cs);
        }
    }

    /// The next item, if any is left.
    pub fn next(&mut self) -> (r: Option<&'a T>)
        requires
            old(self).wf(),
        ensures
            final(self).wf(),
            final(self).batch_size_view() == old(self).batch_size_view(),
            final(self).next_value_view() == old(self).next_value_view(),
            old(self).remaining().len() == 0 ==> {
                &&& r is None
                &&& final(self).remaining() == old(self).remaining()
            },
            old(self).remaining().len() > 0 ==> {
                &&& r matches Some(x) && *x == old(self).remaining()[0]
                &&& final(self).remaining() == old(self).remaining().drop_first()
            },
    {
        let chunks: &'a [Vec<T>] = self.chunks;
        loop
            invariant
                self.wf(),
                self.chunks == chunks,
                self.remaining() == old(self).remaining(),
                self.batch_size == old(self).batch_size,
                self.next_value == old(self).next_value,
            decreases chunks@.len() - self.chunk_index,
        {
            proof {
                self.lemma_position_in_bounds();
            }
            if self.chunk_index >= chunks.len() {
                return None;
            }
            let chunk = &chunks[self.chunk_index];
            if self.item_index < chunk.len() {
                let item = &chunk[self.item_index];
                proof {
                    let cs = chunk_views(chunks@);
                    lemma_flatten_index(cs, self.chunk_index as int, self.item_index as int);
                    assert(flatten(cs).skip(self.position() + 1) =~= self.remaining().drop_first());
                }
                self.item_index = self.item_index + 1;
                return Some(item);
            } else {
                proof {
                    lemma_flatten_take_succ(chunk_views(chunks@), self.chunk_index as int);
                }
                self.chunk_index = self.chunk_index + 1;
                self.item_index = 0;
            }
        }
    }
}

} // verus!
