# chunked_arena

A chunked arena allocator and a stride sequencer, written in Verus.

- `src/arena/` — `Arena<T>`: items are appended to the last chunk while its
  vector has room (by `Vec::capacity`), else to a new chunk asked for twice
  that capacity (the model records every capacity asked for); they are counted against an item limit and a memory limit;
  snapshots mark how far the arena was filled and give those items back
  later.  `Arena::from_parts` rebuilds an arena from stored parts as they
  are, without checking them.
  `state.rs` holds the mathematical model (`ArenaState`) the contracts speak
  of, `layout.rs` the flattening of chunks and its lemmas, `laws.rs` the
  properties of single operations, `history.rs` those of whole sequences of
  operations, `iter.rs` the iterator.
- `src/utils/sequencer.rs` — `Sequencer`: hands out `offset`,
  `offset + step`, ... up to `max`, with laws over sequences of calls.
- `app/` — serde forms of both types, with conversions to and from the
  library's types, and the arena's `Debug` text.
- `tests/` — runtime tests.
