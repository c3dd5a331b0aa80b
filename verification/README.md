# arena

A bump-style arena allocator over blocks of memory mapped from the operating
system, verified with Verus.

- `src/` decides everything that concerns addresses: where an allocation goes,
  how large a new block must be, which blocks go back and which bytes move. It
  is written over plain integers and hands its caller the work that touches
  memory (`src/action.rs`).
- `src/model.rs` is the arena as mathematics, which the contracts speak of;
  `src/laws.rs` holds what is proved of whole histories of calls.
- `app/` does the work: it maps, unmaps, copies and stores, and offers the
  allocator with raw pointers.
- `tests/` runs the library over memory that the tests provide.
