# dense_task_map

Storage for the state of tasks that are named by small, densely allocated ids, written and proved
in Verus.

A map has two namespaces, one for persistent and one for transient tasks. A namespace is an
append-only directory of chunks; a chunk has 1024 slots and a bitmap of hints that tells a scan
which slots are worth a look. Chunks are created on first use.

- `src/slot.rs`: slots, and what a value must offer to live in one
- `src/chunk.rs`: chunks, hints, and the walk over the hinted slots of a chunk
- `src/directory.rs`: the directory, a `boxcar::Vec`, and what is trusted of it
- `src/namespace.rs`: a namespace
- `src/task_id.rs`, `src/task_map.rs`, `src/guard.rs`: ids, the map, and guards
- `src/protocol.rs`: how threads that share slots, and the count of a namespace, take turns
- `src/growth.rs`: how threads that share a directory make it grow
- `src/laws.rs`: what holds of the map as a whole
- `src/shard_amount.rs`: the number of shards for snapshots
- `app/`: a map that threads share, which follows `src/protocol.rs`

The map in `src/task_map.rs` is used through exclusive references, so its contracts say exactly what
each call returns and changes. A value type implements `TaskSlotValue`. Outside Verus, the three
functions of that trait that only contracts use (`occupied`, `contents` and `blank`) are written as
ordinary functions; nothing calls them.
