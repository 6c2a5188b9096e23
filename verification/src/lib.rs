//! Dense task storage.
//!
//! A [`TaskMap`] keeps the state of tasks that are named by small, densely allocated
//! [`TaskId`]s. Each of its two namespaces (persistent and transient) is a directory of chunks of
//! `CHUNK_SIZE` slots; a chunk that nobody has written to costs one directory entry. Within a
//! chunk, a bitmap of hints tells a scan which slots are worth a look.

pub mod chunk;
pub mod directory;
pub mod growth;
pub mod guarantees;
pub mod guard;
pub mod laws;
pub mod namespace;
pub mod shard_amount;
pub mod protocol;
pub mod slot;
pub mod task_id;
pub mod task_map;

pub use chunk::{
    ProbablyOccupiedOffsets, TaskChunk, WalkStep, BITMAP_WORDS, CHUNK_SHIFT, CHUNK_SIZE,
};
pub use guard::TaskMapGuard;
pub use namespace::ChunkedVec;
pub use shard_amount::compute_snapshot_shard_amount;
pub use slot::{TaskSlot, TaskSlotGuard, TaskSlotValue};
pub use task_id::{TaskId, ZeroTaskId, TRANSIENT_TASK_BIT};
pub use task_map::{TaskChunkRef, TaskMap};
