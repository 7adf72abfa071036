//! The chunk layout of an arena as a mathematical object: a sequence of
//! chunks, each a sequence of items, read in order as one flat sequence.

use vstd::prelude::*;

verus! {

/// The items of `chunks` read chunk after chunk, each chunk in order.
pub open spec fn flatten<T>(chunks: Seq<Seq<T>>) -> Seq<T>
    decreases chunks.len(),
{
    if chunks.len() == 0 {
        Seq::empty()
    } else {
        flatten(chunks.drop_last()) + chunks.last()
    }
}

/// Index in the flat sequence of the first item of chunk `c`.
pub open spec fn chunk_start<T>(chunks: Seq<Seq<T>>, c: int) -> int {
    flatten(chunks.take(c)).len() as int
}

/// Appending a chunk appends its items.
pub proof fn lemma_flatten_push<T>(chunks: Seq<Seq<T>>, chunk: Seq<T>)
    ensures
        flatten(chunks.push(chunk)) == flatten(chunks) + chunk,
{
    assert(chunks.push(chunk).drop_last() =~= chunks);
}

/// Replacing the last chunk replaces the tail of the flat sequence.
pub proof fn lemma_flatten_update_last<T>(chunks: Seq<Seq<T>>, chunk: Seq<T>)
    requires
        chunks.len() > 0,
    ensures
        flatten(chunks.update(chunks.len() - 1, chunk)) == flatten(chunks.drop_last()) + chunk,
{
    assert(chunks.update(chunks.len() - 1, chunk).drop_last() =~= chunks.drop_last());
}

/// Flattening distributes over concatenation of chunk sequences.
pub proof fn lemma_flatten_concat<T>(a: Seq<Seq<T>>, b: Seq<Seq<T>>)
    ensures
        flatten(a + b) == flatten(a) + flatten(b),
    decreases b.len(),
{
    if b.len() == 0 {
        assert(a + b =~= a);
        assert(flatten(a) + flatten(b) =~= flatten(a));
    } else {
        assert((a + b).drop_last() =~= a + b.drop_last());
        assert((a + b).last() == b.last());
        lemma_flatten_concat(a, b.drop_last());
        assert(flatten(a + b) =~= flatten(a) + flatten(b));
    }
}

/// Taking one more chunk adds that chunk's items.
pub proof fn lemma_flatten_take_succ<T>(chunks: Seq<Seq<T>>, k: int)
    requires
        0 <= k < chunks.len(),
    ensures
        flatten(chunks.take(k + 1)) == flatten(chunks.take(k)) + chunks[k],
{
    assert(chunks.take(k + 1).drop_last() =~= chunks.take(k));
}

/// The items of the first `k` chunks are a prefix of all items.
pub proof fn lemma_flatten_take_prefix<T>(chunks: Seq<Seq<T>>, k: int)
    requires
        0 <= k <= chunks.len(),
    ensures
        flatten(chunks) == flatten(chunks.take(k)) + flatten(chunks.skip(k)),
        flatten(chunks.take(k)).len() <= flatten(chunks).len(),
{
    assert(chunks.take(k) + chunks.skip(k) =~= chunks);
    lemma_flatten_concat(chunks.take(k), chunks.skip(k));
}

/// Item `e` of chunk `c` stands at `chunk_start(c) + e` in the flat sequence,
/// and the whole chunk `c` lies there.
pub proof fn lemma_flatten_index<T>(chunks: Seq<Seq<T>>, c: int, e: int)
    requires
        0 <= c < chunks.len(),
        0 <= e < chunks[c].len(),
    ensures
        chunk_start(chunks, c) + e < flatten(chunks).len(),
        flatten(chunks)[chunk_start(chunks, c) + e] == chunks[c][e],
{
    lemma_flatten_take_succ(chunks, c);
    lemma_flatten_take_prefix(chunks, c + 1);
    let pre = flatten(chunks.take(c + 1));
    assert(pre[chunk_start(chunks, c) + e] == chunks[c][e]);
}

/// Replacing item `e` of chunk `c` replaces the item at its flat index.
pub proof fn lemma_flatten_update<T>(chunks: Seq<Seq<T>>, c: int, e: int, v: T)
    requires
        0 <= c < chunks.len(),
        0 <= e < chunks[c].len(),
    ensures
        flatten(chunks.update(c, chunks[c].update(e, v))) == flatten(chunks).update(
            chunk_start(chunks, c) + e,
            v,
        ),
{
    let upd = chunks.update(c, chunks[c].update(e, v));
    assert(upd =~= chunks.take(c) + seq![chunks[c].update(e, v)] + chunks.skip(c + 1));
    assert(chunks =~= chunks.take(c) + seq![chunks[c]] + chunks.skip(c + 1));
    lemma_flatten_concat(chunks.take(c) + seq![chunks[c].update(e, v)], chunks.skip(c + 1));
    lemma_flatten_concat(chunks.take(c), seq![chunks[c].update(e, v)]);
    lemma_flatten_concat(chunks.take(c) + seq![chunks[c]], chunks.skip(c + 1));
    lemma_flatten_concat(chunks.take(c), seq![chunks[c]]);
    lemma_flatten_push(Seq::<Seq<T>>::empty(), chunks[c].update(e, v));
    lemma_flatten_push(Seq::<Seq<T>>::empty(), chunks[c]);
    assert(Seq::<Seq<T>>::empty().push(chunks[c]) =~= seq![chunks[c]]);
    assert(Seq::<Seq<T>>::empty().push(chunks[c].update(e, v)) =~= seq![chunks[c].update(e, v)]);
    assert(flatten(Seq::<Seq<T>>::empty()) =~= Seq::<T>::empty());
    assert(flatten(upd) =~= flatten(chunks).update(chunk_start(chunks, c) + e, v));
}

/// Replacing a chunk by one of the same length keeps the flat length.
pub proof fn lemma_flatten_replace_same_len<T>(chunks: Seq<Seq<T>>, c: int, chunk: Seq<T>)
    requires
        0 <= c < chunks.len(),
        chunk.len() == chunks[c].len(),
    ensures
        flatten(chunks.update(c, chunk)).len() == flatten(chunks).len(),
{
    let upd = chunks.update(c, chunk);
    assert(upd =~= chunks.take(c) + seq![chunk] + chunks.skip(c + 1));
    assert(chunks =~= chunks.take(c) + seq![chunks[c]] + chunks.skip(c + 1));
    lemma_flatten_concat(chunks.take(c) + seq![chunk], chunks.skip(c + 1));
    lemma_flatten_concat(chunks.take(c), seq![chunk]);
    lemma_flatten_concat(chunks.take(c) + seq![chunks[c]], chunks.skip(c + 1));
    lemma_flatten_concat(chunks.take(c), seq![chunks[c]]);
    lemma_flatten_push(Seq::<Seq<T>>::empty(), chunk);
    lemma_flatten_push(Seq::<Seq<T>>::empty(), chunks[c]);
    assert(Seq::<Seq<T>>::empty().push(chunks[c]) =~= seq![chunks[c]]);
    assert(Seq::<Seq<T>>::empty().push(chunk) =~= seq![chunk]);
    assert(flatten(Seq::<Seq<T>>::empty()) =~= Seq::<T>::empty());
}

/// The items of each chunk vector.
pub open spec fn chunk_views<T>(chunks: Seq<Vec<T>>) -> Seq<Seq<T>> {
    chunks.map_values(|c: Vec<T>| c@)
}

/// Replacing one chunk vector replaces that chunk's items.
pub proof fn lemma_chunk_views_update<T>(chunks: Seq<Vec<T>>, c: int, w: Vec<T>)
    requires
        0 <= c < chunks.len(),
    ensures
        chunk_views(chunks.update(c, w)) == chunk_views(chunks).update(c, w@),
{
    assert(chunk_views(chunks.update(c, w)) =~= chunk_views(chunks).update(c, w@));
}

/// Chunk sequences whose chunks have the same lengths flatten to
/// sequences of the same length.
pub proof fn lemma_flatten_replace_lens<T>(a: Seq<Seq<T>>, b: Seq<Seq<T>>)
    requires
        a.len() == b.len(),
        forall|j: int| 0 <= j < a.len() ==> #[trigger] a[j].len() == b[j].len(),
    ensures
        flatten(a).len() == flatten(b).len(),
    decreases a.len(),
{
    if a.len() > 0 {
        lemma_flatten_replace_lens(a.drop_last(), b.drop_last());
    }
}

} // verus!
