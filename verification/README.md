# page_store

A small storage engine: a page file, a buffer pool with GCLOCK replacement, a
hash table that maps pages to frames, and a B+ tree of `u64` keys and values.

`src/` is the engine. Every function there has a contract that Verus proves.

- `hash_map`: the page table. Groups of sixteen slots, searched through their
  control bytes; readers check a group's version before and after a look.
- `hash_map::lockless`: why a reader that takes no lock gets an answer that the
  table had at one moment.
- `storage::page`: the state word of a frame and what pins and unpins do to it.
- `storage::clock`, `storage::lru_k`: two replacement policies.
- `storage::pool_state`: the state of the pool as a mathematical object, with
  one function for each operation.
- `storage::buffer_pool`: the operations, each proved to do what
  `pool_state` says.
- `storage::pool_laws`: what holds however the steps of threads interleave: no
  page is in two frames, a pinned frame is left alone, contents survive
  eviction, no wakeup is lost.
- `storage::disk`, `storage::arena`: the layout of the file and of the frames.
- `index`: the nodes of the tree, their layout in a page, search and insertion.
- `sync`: the flag of a spin lock, and what its holders see of each other.

The engine decides and never waits. A fetch, a search and an insertion run in
steps; where a page has to be read or written, the step says so, and the caller
reports back. `app/` is such a caller: it owns the file, the memory mapping, the
lock and the condition variables.

`tests/` runs the engine on concrete values.
