//! What holds of the map as a whole.
//!
//! The laws speak of the views that the contracts of the map's functions use.

use vstd::prelude::*;

use crate::chunk::{ChunkView, ProbablyOccupiedOffsets, CHUNK_SIZE};
use crate::directory::MAX_CHUNKS;
use crate::namespace::NamespaceView;
use crate::protocol::{Phase, Request, SharedSlot};
use crate::slot::TaskSlotValue;
use crate::task_id::{TaskId, TRANSIENT_TASK_BIT};
use crate::task_map::{MapView, TaskChunkRef, TaskMap};

verus! {

/// Two ids never share a slot: persistent and transient tasks do not alias, nor do two tasks of
/// one namespace.
pub proof fn law_ids_do_not_alias(a: TaskId, b: TaskId)
    requires
        a.transient() == b.transient(),
        a.index() == b.index(),
    ensures
        a@ == b@,
{
}

/// A map without chunks, as a new one is, has no task.
pub proof fn law_new_map_is_empty<T: TaskSlotValue>(map: MapView<T>, key: TaskId)
    requires
        map.persistent.chunks.len() == 0,
        map.transient.chunks.len() == 0,
    ensures
        !map.has(key),
        map.ids() == Set::<u32>::empty(),
        map.chunk_refs() == Seq::<TaskChunkRef>::empty(),
{
    assert(map.ids() =~= Set::<u32>::empty());
    assert(map.chunk_refs() =~= Seq::<TaskChunkRef>::empty());
}

/// Where there is no chunk, nothing is there, hinted or counted as modified, be the task a persistent
/// or a transient one.
pub proof fn law_missing_chunk_is_blank<T: TaskSlotValue>(map: MapView<T>, key: TaskId)
    requires
        map.namespace(key.transient()).chunk_of(key.index()) is None,
    ensures
        !map.has(key),
        !map.hinted(key),
        map.modified_count(key) == 0,
{
}

/// To look at a task without writing to it changes nothing.
pub proof fn law_looking_changes_nothing<T: TaskSlotValue>(map: MapView<T>, key: TaskId)
    requires
        map.wf(),
        map.has(key),
    ensures
        map.with_entry(key, map.value(key), map.modified_count(key), map.total(key)) == map,
{
    map.namespace(key.transient()).lemma_unchanged_entry(key.index());
}

/// A task that was inserted is found, with the value that was written to it.
pub proof fn law_inserted_task_is_found<T: TaskSlotValue>(
    map: MapView<T>,
    key: TaskId,
    value: T,
    modified_count: u64,
    len: usize,
    after: MapView<T>,
)
    requires
        map.wf(),
        map.inserted(key, value, modified_count, len, after),
        value.occupied(),
    ensures
        after.has(key),
        after.value(key) == value,
        after.hinted(key),
        after.modified_count(key) == modified_count,
        after.total(key) == len,
{
    map.namespace(key.transient()).lemma_inserted(
        key.index(),
        value,
        modified_count,
        len,
        after.namespace(key.transient()),
    );
}

/// An insertion neither adds, removes nor changes any other task.
pub proof fn law_insertion_leaves_others_alone<T: TaskSlotValue>(
    map: MapView<T>,
    key: TaskId,
    value: T,
    modified_count: u64,
    len: usize,
    after: MapView<T>,
    other: TaskId,
)
    requires
        map.wf(),
        map.inserted(key, value, modified_count, len, after),
        other@ != key@,
    ensures
        after.has(other) == map.has(other),
        map.has(other) ==> after.value(other) == map.value(other),
{
    lemma_slots_differ(key, other);
    if other.transient() == key.transient() {
        map.namespace(key.transient()).lemma_inserted(
            key.index(),
            value,
            modified_count,
            len,
            after.namespace(key.transient()),
        );
        assert(after.namespace(key.transient()).occupied_at(other.index()) == map.namespace(
            key.transient(),
        ).occupied_at(other.index()));
    } else {
        assert(after.namespace(!key.transient()) == map.namespace(!key.transient()));
    }
}

proof fn lemma_slots_differ(a: TaskId, b: TaskId)
    requires
        a@ != b@,
    ensures
        a.transient() != b.transient() || a.index() != b.index(),
{
}

/// Whatever is written to a task is what is read of it. A task that is vacated is gone; its hint
/// stays. No other task and no hint is touched.
pub proof fn law_written_entry<T: TaskSlotValue>(
    map: MapView<T>,
    key: TaskId,
    value: T,
    modified_count: u64,
    len: usize,
    other: TaskId,
)
    requires
        map.wf(),
        map.has(key),
        other@ != key@,
    ensures
        ({
            let after = map.with_entry(key, value, modified_count, len);
            &&& after.has(key) == value.occupied()
            &&& after.value(key) == value
            &&& after.hinted(key)
            &&& after.has(other) == map.has(other)
            &&& map.has(other) ==> after.value(other) == map.value(other)
            &&& after.hinted(other) == map.hinted(other)
        }),
{
    let namespace = map.namespace(key.transient());
    let after = map.with_entry(key, value, modified_count, len);
    namespace.lemma_with_entry(key.index(), value, modified_count, len);
    namespace.lemma_unchanged_entry(key.index());
    lemma_slots_differ(key, other);
    assert(after.namespace(key.transient()).hinted_at(key.index()));
    if other.transient() == key.transient() {
        assert(after.namespace(key.transient()).occupied_at(other.index()) == namespace.occupied_at(
            other.index(),
        ));
        assert(after.namespace(key.transient()).hinted_at(other.index()) == namespace.hinted_at(
            other.index(),
        ));
    }
}

/// To remove a task that was just inserted restores the tasks and the count.
pub proof fn law_removal_undoes_insertion<T: TaskSlotValue>(
    map: MapView<T>,
    key: TaskId,
    value: T,
    modified_count: u64,
    inserted: MapView<T>,
    left: T,
    other: TaskId,
)
    requires
        map.wf(),
        key@ != 0,
        !map.has(key),
        value.occupied(),
        map.inserted(key, value, modified_count, (map.total(key) + 1) as usize, inserted),
        crate::slot::vacant(left),
    ensures
        ({
            let after = inserted.with_entry(key, left, modified_count, map.total(key));
            &&& after.wf()
            &&& !after.has(key)
            &&& after.total(key) == map.total(key)
            &&& after.has(other) == map.has(other)
            &&& map.has(other) ==> after.value(other) == map.value(other)
        }),
{
    let after = inserted.with_entry(key, left, modified_count, map.total(key));
    map.namespace(key.transient()).lemma_occupied_indices();
    map.lemma_inserted_wf(key);
    law_inserted_task_is_found(
        map,
        key,
        value,
        modified_count,
        (map.total(key) + 1) as usize,
        inserted,
    );
    inserted.lemma_entry_wf(key);
    inserted.namespace(key.transient()).lemma_with_entry(
        key.index(),
        left,
        modified_count,
        map.total(key),
    );
    if other@ != key@ {
        law_insertion_leaves_others_alone(
            map,
            key,
            value,
            modified_count,
            (map.total(key) + 1) as usize,
            inserted,
            other,
        );
        law_written_entry(inserted, key, left, modified_count, map.total(key), other);
    }
}

/// No occupied slot is hidden from a scan by a missing hint.
pub proof fn law_tasks_are_hinted<T: TaskSlotValue>(map: MapView<T>, key: TaskId)
    requires
        map.wf(),
        map.has(key),
    ensures
        map.hinted(key),
{
    map.namespace(key.transient()).lemma_unchanged_entry(key.index());
}

/// A scan that finds a slot vacant clears the hint of that slot, and changes nothing else.
pub proof fn law_scan_clears_one_hint<T: TaskSlotValue>(
    map: MapView<T>,
    transient: bool,
    index: int,
    other: TaskId,
)
    requires
        map.wf(),
        map.namespace(transient).chunk_of(index) is Some,
    ensures
        ({
            let after = map.with_namespace(
                transient,
                map.namespace(transient).with_hint(index, false),
            );
            &&& !after.namespace(transient).hinted_at(index)
            &&& after.has(other) == map.has(other)
            &&& map.has(other) ==> after.value(other) == map.value(other)
            &&& other.transient() != transient || other.index() != index ==> after.hinted(other)
                == map.hinted(other)
            &&& after.total(other) == map.total(other)
            &&& after.modified_count(other) == map.modified_count(other)
        }),
{
    let namespace = map.namespace(transient);
    let after = namespace.with_hint(index, false);
    namespace.lemma_without_hint(index);
    assert(after.occupied_at(other.index()) == namespace.occupied_at(other.index())
        && after.value_at(other.index()) == namespace.value_at(other.index()));
    assert(other.index() != index ==> after.hinted_at(other.index()) == namespace.hinted_at(
        other.index(),
    ));
}

/// A cleared map has no task. Its chunks stay, without a hint in them and without a modification
/// counted.
pub proof fn law_cleared_map_is_empty<T: TaskSlotValue>(
    map: MapView<T>,
    after: MapView<T>,
    key: TaskId,
)
    requires
        map.wf(),
        map.cleared(after),
    ensures
        !after.has(key),
        !after.hinted(key),
        after.modified_count(key) == 0,
        after.persistent.len + after.transient.len == 0,
        after.ids() == Set::<u32>::empty(),
        after.chunk_refs() == map.chunk_refs(),
{
    map.persistent.lemma_cleared(after.persistent);
    map.transient.lemma_cleared(after.transient);
    assert(!after.namespace(key.transient()).occupied_at(key.index()));
    assert(after.ids() =~= Set::<u32>::empty());
    lemma_same_created(map.persistent, after.persistent, map.persistent.chunks.len());
    lemma_same_created(map.transient, after.transient, map.transient.chunks.len());
    let namespace = after.namespace(key.transient());
    if namespace.chunk_of(key.index()) is Some {
        let c = key.index() / CHUNK_SIZE as int;
        assert(map.namespace(key.transient()).chunks[c]->0.cleared(namespace.chunks[c]->0));
    }
}

/// Namespaces with chunks at the same positions list the same positions.
proof fn lemma_same_created<T: TaskSlotValue>(a: NamespaceView<T>, b: NamespaceView<T>, end: nat)
    requires
        end <= a.chunks.len(),
        end <= b.chunks.len(),
        forall|c: int|
            0 <= c < end ==> (#[trigger] a.chunks[c] is Some) == (#[trigger] b.chunks[c] is Some),
    ensures
        a.created_below(end) == b.created_below(end),
    decreases end,
{
    if end > 0 {
        lemma_same_created(a, b, (end - 1) as nat);
        assert(a.chunks[end - 1] is Some == b.chunks[end - 1] is Some);
    }
}

/// The length of a map is the number of its tasks.
pub proof fn law_len_counts_tasks<T: TaskSlotValue>(map: MapView<T>)
    requires
        map.wf(),
    ensures
        map.ids().finite(),
        map.ids().len() == map.persistent.len + map.transient.len,
        !map.ids().contains(0),
{
    let persistent = map.persistent.occupied_indices();
    let transient = map.transient.occupied_indices();
    map.persistent.lemma_occupied_indices();
    map.transient.lemma_occupied_indices();
    let low = |index: int| index as u32;
    let high = |index: int| (index + TRANSIENT_TASK_BIT) as u32;
    assert forall|index: int| #[trigger] persistent.contains(index) implies 0 <= index
        < TRANSIENT_TASK_BIT by {
        assert(map.persistent.occupied_at(index));
    }
    assert forall|index: int| #[trigger] transient.contains(index) implies 0 <= index
        < TRANSIENT_TASK_BIT by {
        assert(map.transient.occupied_at(index));
    }
    vstd::set_lib::lemma_map_size(persistent, persistent.map(low), low);
    vstd::set_lib::lemma_map_size(transient, transient.map(high), high);
    assert(map.ids() =~= persistent.map(low) + transient.map(high)) by {
        assert forall|id: u32| #[trigger] map.ids().contains(id) implies (persistent.map(low)
            + transient.map(high)).contains(id) by {
            if crate::task_id::transient_id(id) {
                let index = id - TRANSIENT_TASK_BIT;
                assert(transient.contains(index));
                assert(high(index) == id);
            } else {
                assert(persistent.contains(id as int));
                assert(low(id as int) == id);
            }
        }
    }
    assert(persistent.map(low).disjoint(transient.map(high)));
    vstd::set_lib::lemma_set_disjoint_lens(persistent.map(low), transient.map(high));
}

/// The list of chunks names every chunk of the map, each of them once.
pub proof fn law_chunks_are_listed_once<T: TaskSlotValue>(map: MapView<T>)
    requires
        map.wf(),
    ensures
        forall|i: int|
            0 <= i < map.chunk_refs().len() ==> (#[trigger] map.chunk_refs()[i]).names(map),
        map.chunk_refs().no_duplicates(),
{
    assert forall|i: int| 0 <= i < map.chunk_refs().len() implies (
    #[trigger] map.chunk_refs()[i]).names(map) by {
        lemma_ref_at(map, i);
    }
    assert forall|i: int, j: int|
        0 <= i < map.chunk_refs().len() && 0 <= j < map.chunk_refs().len() && i
            != j implies map.chunk_refs()[i] != map.chunk_refs()[j] by {
        lemma_ref_at(map, i);
        lemma_ref_at(map, j);
        map.persistent.lemma_created_below(map.persistent.chunks.len());
        map.transient.lemma_created_below(map.transient.chunks.len());
    }
}

/// What the entry at `i` of the list of chunks is.
proof fn lemma_ref_at<T: TaskSlotValue>(map: MapView<T>, i: int)
    requires
        map.wf(),
        0 <= i < map.chunk_refs().len(),
    ensures
        ({
            let persistent = map.persistent.created();
            let chunk = map.chunk_refs()[i];
            let c = if i < persistent.len() {
                persistent[i]
            } else {
                map.transient.created()[i - persistent.len()]
            };
            &&& map.chunk_refs().len() == persistent.len() + map.transient.created().len()
            &&& chunk.transient == (i >= persistent.len())
            &&& 0 <= c < MAX_CHUNKS
            &&& chunk.base_id == c * CHUNK_SIZE
            &&& chunk.names(map)
        }),
{
    map.persistent.lemma_created_below(map.persistent.chunks.len());
    map.transient.lemma_created_below(map.transient.chunks.len());
}

/// A scan over the listed chunks comes by every task, and only once: exactly one of the chunks has
/// its slot, the slot is hinted, and the id that the chunk gives to the slot is the task's.
pub proof fn law_scan_meets_each_task_once<T: TaskSlotValue>(
    map: MapView<T>,
    key: TaskId,
) -> (found: int)
    requires
        map.wf(),
        map.has(key),
    ensures
        0 <= found < map.chunk_refs().len(),
        covers(map.chunk_refs()[found], key),
        map.hinted(key),
        forall|i: int|
            0 <= i < map.chunk_refs().len() && covers(#[trigger] map.chunk_refs()[i], key) ==> i
                == found,
{
    law_tasks_are_hinted(map, key);
    let namespace = map.namespace(key.transient());
    let c = key.index() / CHUNK_SIZE as int;
    map.persistent.lemma_created_below(map.persistent.chunks.len());
    map.transient.lemma_created_below(map.transient.chunks.len());
    assert(namespace.chunks[c] is Some);
    let created = namespace.created();
    let at = choose|at: int| 0 <= at < created.len() && created[at] == c;
    let found = if key.transient() {
        map.persistent.created().len() + at
    } else {
        at
    };
    lemma_ref_at(map, found);
    assert forall|i: int|
        0 <= i < map.chunk_refs().len() && covers(#[trigger] map.chunk_refs()[i], key) implies i
        == found by {
        lemma_ref_at(map, i);
    }
    found
}

/// The chunk has the slot of the task.
pub open spec fn covers(chunk: TaskChunkRef, key: TaskId) -> bool {
    &&& chunk.transient == key.transient()
    &&& chunk.base_id <= key.index() < chunk.base_id + CHUNK_SIZE
}

/// A chunk that was listed once stays good, whatever is done to the map: inserting, writing to or
/// removing tasks, clearing hints, and clearing the map.
pub proof fn law_listed_chunks_stay<T: TaskSlotValue>(
    map: MapView<T>,
    chunk: TaskChunkRef,
    key: TaskId,
    value: T,
    modified_count: u64,
    len: usize,
    index: int,
    after: MapView<T>,
)
    requires
        map.wf(),
        chunk.names(map),
        ({
            ||| map.inserted(key, value, modified_count, len, after)
            ||| map.has(key) && after == map.with_entry(key, value, modified_count, len)
            ||| map.namespace(chunk.transient).chunk_of(index) is Some && after
                == map.with_namespace(
                chunk.transient,
                map.namespace(chunk.transient).with_hint(index, false),
            )
            ||| map.cleared(after)
        }),
    ensures
        chunk.names(after),
{
    let c = chunk.base_id as int / CHUNK_SIZE as int;
    if map.inserted(key, value, modified_count, len, after) {
        if chunk.transient == key.transient() {
            assert(after.namespace(key.transient()).chunks[c] is Some);
        } else {
            assert(after.namespace(!key.transient()) == map.namespace(!key.transient()));
        }
    } else if map.cleared(after) {
        assert(after.namespace(chunk.transient).chunks[c] is Some);
    }
}

/// What one call does to a map.
pub enum Operation<T: TaskSlotValue> {
    /// The task is inserted if it was missing, and written to.
    Insert { key: TaskId, value: T, modified_count: u64, len: usize },
    /// The task, which the map has, is written to or removed.
    Write { key: TaskId, value: T, modified_count: u64, len: usize },
    /// A scan clears a stale hint.
    Unhint { transient: bool, index: int },
    Clear,
    /// Nothing changes.
    Look,
}

/// `after` is what an operation makes of a map.
pub open spec fn operated<T: TaskSlotValue>(
    map: MapView<T>,
    operation: Operation<T>,
    after: MapView<T>,
) -> bool {
    match operation {
        Operation::Insert { key, value, modified_count, len } => map.inserted(
            key,
            value,
            modified_count,
            len,
            after,
        ),
        Operation::Write { key, value, modified_count, len } => map.has(key) && after
            == map.with_entry(key, value, modified_count, len),
        Operation::Unhint { transient, index } => map.namespace(transient).chunk_of(index) is Some
            && after == map.with_namespace(
            transient,
            map.namespace(transient).with_hint(index, false),
        ),
        Operation::Clear => map.cleared(after),
        Operation::Look => after == map,
    }
}

/// Any number of operations, one after the other, and what they lead to.
pub open spec fn history<T: TaskSlotValue>(
    maps: Seq<MapView<T>>,
    operations: Seq<Operation<T>>,
) -> bool {
    &&& maps.len() == operations.len() + 1
    &&& forall|i: int| 0 <= i < maps.len() ==> (#[trigger] maps[i]).wf()
    &&& forall|i: int|
        #![trigger operations[i]]
        0 <= i < operations.len() ==> operated(maps[i], operations[i], maps[i + 1])
}

/// A history without its last operation is one too.
proof fn lemma_shorter_history<T: TaskSlotValue>(
    maps: Seq<MapView<T>>,
    operations: Seq<Operation<T>>,
)
    requires
        history(maps, operations),
        operations.len() > 0,
    ensures
        history(maps.drop_last(), operations.drop_last()),
{
    let before = maps.drop_last();
    let earlier = operations.drop_last();
    assert forall|i: int| 0 <= i < before.len() implies (#[trigger] before[i]).wf() by {
        assert(maps[i].wf());
    }
    assert forall|i: int| #![trigger earlier[i]] 0 <= i < earlier.len() implies operated(
        before[i],
        earlier[i],
        before[i + 1],
    ) by {
        assert(operated(maps[i], operations[i], maps[i + 1]));
    }
}

/// The operation inserts a task whose slot is in the chunk.
pub open spec fn inserts_into<T: TaskSlotValue>(
    operation: Operation<T>,
    chunk: TaskChunkRef,
) -> bool {
    operation matches Operation::Insert { key, .. } && covers(chunk, key)
}

/// The list of chunks names exactly the chunks of the map.
proof fn lemma_listed<T: TaskSlotValue>(map: MapView<T>, chunk: TaskChunkRef)
    requires
        map.wf(),
    ensures
        map.chunk_refs().contains(chunk) <==> chunk.names(map),
{
    map.persistent.lemma_created_below(map.persistent.chunks.len());
    map.transient.lemma_created_below(map.transient.chunks.len());
    if map.chunk_refs().contains(chunk) {
        let i = choose|i: int| 0 <= i < map.chunk_refs().len() && map.chunk_refs()[i] == chunk;
        lemma_ref_at(map, i);
    }
    if chunk.names(map) {
        let c = chunk.base_id as int / CHUNK_SIZE as int;
        let created = map.namespace(chunk.transient).created();
        assert(map.namespace(chunk.transient).chunks[c] is Some);
        let at = choose|at: int| 0 <= at < created.len() && created[at] == c;
        let i = if chunk.transient {
            map.persistent.created().len() + at
        } else {
            at
        };
        lemma_ref_at(map, i);
        assert(map.chunk_refs()[i] == chunk);
    }
}

proof fn lemma_operated<T: TaskSlotValue>(
    map: MapView<T>,
    operation: Operation<T>,
    after: MapView<T>,
    chunk: TaskChunkRef,
)
    requires
        map.wf(),
        after.wf(),
        operated(map, operation, after),
    ensures
        chunk.names(map) ==> chunk.names(after),
        chunk.names(after) && !chunk.names(map) ==> inserts_into(operation, chunk),
{
    let c = chunk.base_id as int / CHUNK_SIZE as int;
    match operation {
        Operation::Insert { key, value, modified_count, len } => {
            if chunk.transient == key.transient() {
                let changed = after.namespace(key.transient());
                if chunk.names(map) {
                    assert(changed.chunks[c] is Some);
                }
                if chunk.names(after) && c != key.index() / CHUNK_SIZE as int {
                    assert(changed.chunks[c] is Some);
                }
            } else {
                assert(after.namespace(!key.transient()) == map.namespace(!key.transient()));
            }
        },
        Operation::Clear => {
            let changed = after.namespace(chunk.transient);
            if 0 <= c < changed.chunks.len() {
                assert((changed.chunks[c] is Some) == (map.namespace(chunk.transient).chunks[c]
                    is Some));
            }
        },
        _ => {},
    }
}

/// Whatever is done to a map, and however often, the list of its chunks only grows: every chunk that
/// was listed is listed for good, and a chunk that was not is only there because a task was inserted
/// into it meanwhile.
pub proof fn law_chunks_are_listed_for_good<T: TaskSlotValue>(
    maps: Seq<MapView<T>>,
    operations: Seq<Operation<T>>,
    chunk: TaskChunkRef,
)
    requires
        history(maps, operations),
    ensures
        maps.first().chunk_refs().contains(chunk) ==> maps.last().chunk_refs().contains(chunk),
        maps.last().chunk_refs().contains(chunk) && !maps.first().chunk_refs().contains(chunk)
            ==> exists|i: int|
            0 <= i < operations.len() && inserts_into(#[trigger] operations[i], chunk),
    decreases operations.len(),
{
    if operations.len() > 0 {
        let end = operations.len() - 1;
        let earlier = operations.drop_last();
        lemma_shorter_history(maps, operations);
        law_chunks_are_listed_for_good(maps.drop_last(), earlier, chunk);
        assert(operated(maps[end], operations[end], maps[end + 1]));
        assert(maps[end].wf() && maps[end + 1].wf());
        lemma_operated(maps[end], operations[end], maps[end + 1], chunk);
        lemma_listed(maps[end], chunk);
        lemma_listed(maps[end + 1], chunk);
        if exists|i: int| 0 <= i < earlier.len() && inserts_into(#[trigger] earlier[i], chunk) {
            let i = choose|i: int|
                0 <= i < earlier.len() && inserts_into(#[trigger] earlier[i], chunk);
            assert(inserts_into(operations[i], chunk));
        }
    }
}

/// Asking for the chunk of a slot gives the chunk that is there, and else a fresh one. Nothing else
/// comes or goes, and asking again changes nothing.
pub proof fn law_chunk_is_created_once<T: TaskSlotValue>(
    namespace: NamespaceView<T>,
    index: int,
    after: NamespaceView<T>,
    again: NamespaceView<T>,
    other: int,
)
    requires
        0 <= index,
        namespace.opened(index, after),
        after.opened(index, again),
    ensures
        after.chunk_of(index) is Some,
        namespace.chunk_of(index) is Some ==> after == namespace,
        namespace.chunk_of(index) is None ==> after.chunk_of(index)->0.fresh(),
        again == after,
        after.len == namespace.len,
        other / CHUNK_SIZE as int != index / CHUNK_SIZE as int ==> after.chunk_of(other)
            == namespace.chunk_of(other),
{
    if namespace.chunk_of(index) is Some {
        assert(after.chunks =~= namespace.chunks);
    }
    assert(again.chunks =~= after.chunks);
}

/// Two slots have their chunk in common if and only if they lie in the same stretch of the
/// namespace. What is written to a chunk is then seen from every slot of it, and from no slot of
/// another chunk.
pub proof fn law_slots_share_their_chunk<T: TaskSlotValue>(
    namespace: NamespaceView<T>,
    index: int,
    after: NamespaceView<T>,
    chunk: ChunkView<T>,
    other: int,
)
    requires
        0 <= index,
        0 <= other,
        namespace.opened(index, after),
    ensures
        other / CHUNK_SIZE as int == index / CHUNK_SIZE as int ==> {
            &&& after.chunk_of(other) == after.chunk_of(index)
            &&& after.opened(other, after)
            &&& after.with_chunk(index, chunk).chunk_of(other) == Some(chunk)
        },
        other / CHUNK_SIZE as int != index / CHUNK_SIZE as int ==> after.with_chunk(
            index,
            chunk,
        ).chunk_of(other) == namespace.chunk_of(other),
{
}

/// Two slots of a chunk can be held at once, and do not notice each other: what is written to the one
/// leaves the value of the other and all hints as they were, it does not matter which is written to
/// first, and whoever takes a slot next finds what was written to it last.
pub proof fn law_held_slots_are_independent<T: TaskSlotValue>(
    chunk: ChunkView<T>,
    a: int,
    x: T,
    b: int,
    y: T,
)
    requires
        chunk.wf(),
        0 <= a < CHUNK_SIZE,
        0 <= b < CHUNK_SIZE,
        a != b,
    ensures
        chunk.with_value(a, x).values[a] == x,
        chunk.with_value(a, x).values[b] == chunk.values[b],
        chunk.with_value(a, x).hints == chunk.hints,
        chunk.with_value(a, x).modified_count == chunk.modified_count,
        chunk.with_value(a, x).with_value(b, y) == chunk.with_value(b, y).with_value(a, x),
        chunk.with_value(a, x).with_value(b, y).values[a] == x,
        chunk.with_value(a, x).with_value(a, y) == chunk.with_value(a, y),
{
    assert(chunk.with_value(a, x).with_value(b, y) =~= chunk.with_value(b, y).with_value(a, x));
    assert(chunk.with_value(a, x).with_value(a, y) =~= chunk.with_value(a, y));
}

/// The first use of a chunk costs that chunk and no other, however far it lies beyond the end of
/// the directory: no other chunk is listed, and no other takes up memory.
pub proof fn law_insertion_creates_one_chunk_at_most<T: TaskSlotValue>(
    map: TaskMap<T>,
    key: TaskId,
    value: T,
    modified_count: u64,
    len: usize,
    after: TaskMap<T>,
)
    requires
        map.wf(),
        map@.inserted(key, value, modified_count, len, after@),
        after.wf(),
    ensures
        forall|c: int|
            0 <= c < after@.namespace(key.transient()).chunks.len() && (
            #[trigger] after@.namespace(key.transient()).chunks[c]) is Some ==> c == key.index()
                / CHUNK_SIZE as int || (c < map@.namespace(key.transient()).chunks.len()
                && map@.namespace(key.transient()).chunks[c] is Some),
        after.stored_chunks() == map.stored_chunks() + if map@.namespace(
            key.transient(),
        ).chunk_of(key.index()) is Some {
            0nat
        } else {
            1
        },
{
    map.law_only_listed_chunks_are_stored();
    after.law_only_listed_chunks_are_stored();
    let namespace = map@.namespace(key.transient());
    let changed = after@.namespace(key.transient());
    lemma_created_once(
        namespace,
        key.index() / CHUNK_SIZE as int,
        changed,
        changed.chunks.len(),
    );
    assert(after@.namespace(!key.transient()) == map@.namespace(!key.transient()));
}

/// A namespace in which one more chunk may have been created lists one position more at most.
proof fn lemma_created_once<T: TaskSlotValue>(
    namespace: NamespaceView<T>,
    c: int,
    after: NamespaceView<T>,
    end: nat,
)
    requires
        0 <= c < after.chunks.len(),
        after.chunks[c] is Some,
        namespace.chunks.len() <= after.chunks.len(),
        forall|k: int|
            0 <= k < after.chunks.len() && k != c ==> (#[trigger] after.chunks[k] is Some) == (k
                < namespace.chunks.len() && namespace.chunks[k] is Some),
        end <= after.chunks.len(),
    ensures
        after.created_below(end).len() == namespace.created_below(
            if end < namespace.chunks.len() {
                end
            } else {
                namespace.chunks.len()
            },
        ).len() + if c < end && !(c < namespace.chunks.len() && namespace.chunks[c] is Some) {
            1nat
        } else {
            0
        },
    decreases end,
{
    if end > 0 {
        lemma_created_once(namespace, c, after, (end - 1) as nat);
    }
}

/// One step of a scan: the slot at `offset` in the chunk is visited. A task there may be written to
/// or removed; at a vacant slot the hint is cleared.
pub open spec fn scan_step<T: TaskSlotValue>(
    map: MapView<T>,
    chunk: TaskChunkRef,
    offset: int,
    after: MapView<T>,
) -> bool {
    let index = chunk.base_id + offset;
    let namespace = map.namespace(chunk.transient);
    let changed = after.namespace(chunk.transient);
    after == map.with_namespace(
        chunk.transient,
        if namespace.occupied_at(index) {
            namespace.with_entry(
                index,
                changed.value_at(index),
                changed.chunk_of(index)->0.modified_count,
                changed.len,
            )
        } else {
            namespace.with_hint(index, false)
        },
    )
}

/// A scan of a chunk from its beginning to its end. `maps` and `walks` tell what the map and the walk
/// over the hints are before each step, and after the last; `visited` are the offsets that the walk
/// returns.
pub open spec fn complete_scan<T: TaskSlotValue>(
    chunk: TaskChunkRef,
    maps: Seq<MapView<T>>,
    walks: Seq<ProbablyOccupiedOffsets>,
    visited: Seq<int>,
) -> bool {
    &&& maps.len() == visited.len() + 1
    &&& walks.len() == visited.len() + 1
    &&& walks[0].taken() == 0
    &&& forall|n: int|
        #![trigger visited[n]]
        0 <= n < visited.len() ==> {
            let hints = scanned(chunk, maps[n]).hints;
            let pending = walks[n].pending(hints);
            &&& 0 <= visited[n] < CHUNK_SIZE
            &&& pending[visited[n]]
            &&& walks[n + 1].pending(hints) == pending.update(visited[n], false)
            &&& scan_step(maps[n], chunk, visited[n], maps[n + 1])
        }
    &&& forall|i: int|
        0 <= i < CHUNK_SIZE ==> !#[trigger] walks.last().pending(
            scanned(chunk, maps.last()).hints,
        )[i]
}

/// None of the steps of a scan removes the task that it comes to.
pub open spec fn keeps_tasks<T: TaskSlotValue>(
    chunk: TaskChunkRef,
    maps: Seq<MapView<T>>,
    visited: Seq<int>,
) -> bool {
    forall|n: int|
        #![trigger visited[n]]
        0 <= n < visited.len() && scanned(chunk, maps[n]).values[visited[n]].occupied()
            ==> scanned(chunk, maps[n + 1]).values[visited[n]].occupied()
}

/// What the chunk holds in a map that has it.
pub open spec fn scanned<T: TaskSlotValue>(chunk: TaskChunkRef, map: MapView<T>) -> ChunkView<T> {
    map.namespace(chunk.transient).chunk_of(chunk.base_id as int)->0
}

/// After `n` steps of a scan, a slot is still to be visited and as it was, or its hint tells whether
/// there was a task in it when the scan began.
proof fn lemma_scan<T: TaskSlotValue>(
    chunk: TaskChunkRef,
    maps: Seq<MapView<T>>,
    walks: Seq<ProbablyOccupiedOffsets>,
    visited: Seq<int>,
    n: int,
    i: int,
)
    requires
        maps[0].wf(),
        chunk.names(maps[0]),
        complete_scan(chunk, maps, walks, visited),
        0 <= n <= visited.len(),
        0 <= i < CHUNK_SIZE,
    ensures
        chunk.names(maps[n]),
        scanned(chunk, maps[n]).wf(),
        ({
            let first = scanned(chunk, maps[0]);
            let now = scanned(chunk, maps[n]);
            if walks[n].pending(now.hints)[i] {
                now.values[i] == first.values[i] && now.hints[i]
            } else {
                now.hints[i] == first.values[i].occupied()
            }
        }),
        scanned(chunk, maps[n]).values[i].occupied() ==> scanned(
            chunk,
            maps[0],
        ).values[i].occupied(),
        keeps_tasks(chunk, maps, visited) ==> scanned(chunk, maps[n]).values[i].occupied()
            == scanned(chunk, maps[0]).values[i].occupied(),
    decreases n,
{
    let now = scanned(chunk, maps[n]);
    if n == 0 {
        assert(now.consistent());
        assert(now.values[i].occupied() || crate::slot::vacant(now.values[i]));
    } else {
        lemma_scan(chunk, maps, walks, visited, n - 1, i);
        let before = scanned(chunk, maps[n - 1]);
        let offset = visited[n - 1];
        lemma_scan(chunk, maps, walks, visited, n - 1, offset);
        let index = chunk.base_id + offset;
        assert(index / CHUNK_SIZE as int == chunk.base_id as int / CHUNK_SIZE as int);
        assert(index % CHUNK_SIZE as int == offset);
        assert(scan_step(maps[n - 1], chunk, offset, maps[n]));
        if before.values[offset].occupied() {
            assert(now.hints == before.hints);
        } else {
            assert(now.hints == before.hints.update(offset, false));
            walks[n].lemma_pending_without_hint(before.hints, offset);
        }
    }
}

/// After a complete scan of a chunk, a slot is hinted if and only if there was a task in it when the
/// scan began; and if and only if it is occupied, where the scan removes none of the tasks that it
/// comes to. No occupied slot is ever left without its hint.
pub proof fn law_scan_leaves_hints_at_tasks_only<T: TaskSlotValue>(
    chunk: TaskChunkRef,
    maps: Seq<MapView<T>>,
    walks: Seq<ProbablyOccupiedOffsets>,
    visited: Seq<int>,
    i: int,
)
    requires
        maps[0].wf(),
        chunk.names(maps[0]),
        complete_scan(chunk, maps, walks, visited),
        0 <= i < CHUNK_SIZE,
    ensures
        scanned(chunk, maps.last()).hints[i] == scanned(chunk, maps[0]).values[i].occupied(),
        scanned(chunk, maps.last()).values[i].occupied() ==> scanned(
            chunk,
            maps.last(),
        ).hints[i],
        keeps_tasks(chunk, maps, visited) ==> scanned(chunk, maps.last()).hints[i] == scanned(
            chunk,
            maps.last(),
        ).values[i].occupied(),
{
    let end = visited.len() as int;
    lemma_scan(chunk, maps, walks, visited, end, i);
    assert(!walks.last().pending(scanned(chunk, maps.last()).hints)[i]);
}

/// What a series of operations on an empty map leaves of a task: the value that was last written to
/// it, if it was not removed or cleared since.
pub open spec fn remembered<T: TaskSlotValue>(operations: Seq<Operation<T>>, key: TaskId) -> Option<
    T,
>
    decreases operations.len(),
{
    if operations.len() == 0 {
        None
    } else {
        match operations.last() {
            Operation::Insert { key: written, value, .. } if written@ == key@ => {
                if value.occupied() {
                    Some(value)
                } else {
                    None
                }
            },
            Operation::Write { key: written, value, .. } if written@ == key@ => {
                if value.occupied() {
                    Some(value)
                } else {
                    None
                }
            },
            Operation::Clear => None,
            _ => remembered(operations.drop_last(), key),
        }
    }
}

/// A map that was empty at first has a task if and only if the task was inserted and was neither
/// removed nor cleared since, and it has the value that was last written to it.
pub proof fn law_map_remembers_what_was_written<T: TaskSlotValue>(
    maps: Seq<MapView<T>>,
    operations: Seq<Operation<T>>,
    key: TaskId,
)
    requires
        history(maps, operations),
        maps[0].persistent.chunks.len() == 0,
        maps[0].transient.chunks.len() == 0,
    ensures
        maps.last().has(key) == (remembered(operations, key) is Some),
        maps.last().has(key) ==> remembered(operations, key) == Some(maps.last().value(key)),
    decreases operations.len(),
{
    if operations.len() == 0 {
        law_new_map_is_empty(maps[0], key);
    } else {
        let end = operations.len() - 1;
        lemma_shorter_history(maps, operations);
        law_map_remembers_what_was_written(maps.drop_last(), operations.drop_last(), key);
        let map = maps[end];
        let after = maps[end + 1];
        assert(map.wf());
        assert(operated(map, operations[end], after));
        match operations[end] {
            Operation::Insert { key: written, value, modified_count, len } => {
                if written@ == key@ {
                    map.namespace(key.transient()).lemma_inserted(
                        key.index(),
                        value,
                        modified_count,
                        len,
                        after.namespace(key.transient()),
                    );
                } else {
                    law_insertion_leaves_others_alone(
                        map,
                        written,
                        value,
                        modified_count,
                        len,
                        after,
                        key,
                    );
                }
            },
            Operation::Write { key: written, value, modified_count, len } => {
                if written@ == key@ {
                    map.namespace(key.transient()).lemma_with_entry(
                        key.index(),
                        value,
                        modified_count,
                        len,
                    );
                } else {
                    law_written_entry(map, written, value, modified_count, len, key);
                }
            },
            Operation::Unhint { transient, index } => {
                law_scan_clears_one_hint(map, transient, index, key);
            },
            Operation::Clear => {
                law_cleared_map_is_empty(map, after, key);
            },
            Operation::Look => {},
        }
    }
}

/// Two slots of a chunk never share the place of their hint.
pub proof fn law_hints_do_not_overlap(a: usize, b: usize)
    requires
        a / 64 == b / 64,
        1u64 << (a % 64) == 1u64 << (b % 64),
    ensures
        a == b,
{
    let x = (a % 64) as u64;
    let y = (b % 64) as u64;
    assert(x == y) by (bit_vector)
        requires
            x < 64,
            y < 64,
            1u64 << x == 1u64 << y,
    ;
}

/// A walk over the hinted slots of a chunk that nobody changes meanwhile. `pending` tells before
/// each step, and after the last, which slots are still to be visited; `visited` are the offsets
/// that the steps return.
pub open spec fn complete_walk(
    hints: Seq<bool>,
    pending: Seq<Seq<bool>>,
    visited: Seq<int>,
) -> bool {
    &&& pending.len() == visited.len() + 1
    &&& pending[0] == hints
    &&& forall|n: int|
        #![trigger visited[n]]
        0 <= n < visited.len() ==> {
            &&& 0 <= visited[n] < CHUNK_SIZE
            &&& pending[n][visited[n]]
            &&& forall|i: int| 0 <= i < visited[n] ==> !#[trigger] pending[n][i]
            &&& pending[n + 1] == pending[n].update(visited[n], false)
        }
    &&& forall|i: int| 0 <= i < CHUNK_SIZE ==> !#[trigger] pending[visited.len() as int][i]
}

/// A walk visits the hinted slots, each of them once and in ascending order, and no others.
pub proof fn law_walk_visits_each_hint_once(
    hints: Seq<bool>,
    pending: Seq<Seq<bool>>,
    visited: Seq<int>,
)
    requires
        hints.len() == CHUNK_SIZE,
        complete_walk(hints, pending, visited),
    ensures
        forall|m: int, n: int|
            0 <= m < n < visited.len() ==> #[trigger] visited[m] < #[trigger] visited[n],
        forall|i: int| 0 <= i < CHUNK_SIZE ==> (#[trigger] hints[i] <==> visited.contains(i)),
{
    assert forall|m: int, n: int|
        0 <= m < n < visited.len() implies #[trigger] visited[m] < #[trigger] visited[n] by {
        lemma_walk_ascends(hints, pending, visited, m, n);
    }
    assert forall|i: int| 0 <= i < CHUNK_SIZE implies (#[trigger] hints[i]
        <==> visited.contains(i)) by {
        lemma_walk_reaches(hints, pending, visited, i, visited.len());
        if visited.contains(i) {
            let n = choose|n: int| 0 <= n < visited.len() && visited[n] == i;
            lemma_walk_reaches(hints, pending, visited, i, n as nat);
        }
    }
}

/// After `n` steps, a slot is pending if it is hinted and was not visited.
proof fn lemma_walk_reaches(
    hints: Seq<bool>,
    pending: Seq<Seq<bool>>,
    visited: Seq<int>,
    i: int,
    n: nat,
)
    requires
        hints.len() == CHUNK_SIZE,
        complete_walk(hints, pending, visited),
        0 <= i < CHUNK_SIZE,
        n <= visited.len(),
    ensures
        pending[n as int].len() == CHUNK_SIZE,
        pending[n as int][i] ==> hints[i],
        hints[i] && !pending[n as int][i] ==> visited.take(n as int).contains(i),
    decreases n,
{
    if n > 0 {
        lemma_walk_reaches(hints, pending, visited, i, (n - 1) as nat);
        assert(pending[n as int] == pending[n - 1].update(visited[n - 1], false));
        if hints[i] && !pending[n as int][i] {
            if visited[n - 1] == i {
                assert(visited.take(n as int)[n - 1] == i);
            } else {
                let earlier = visited.take(n - 1);
                let m = choose|m: int| 0 <= m < earlier.len() && earlier[m] == i;
                assert(visited.take(n as int)[m] == i);
            }
        }
    }
}

/// Once a slot has been visited, neither it nor any slot before it is pending again.
proof fn lemma_walk_ascends(
    hints: Seq<bool>,
    pending: Seq<Seq<bool>>,
    visited: Seq<int>,
    m: int,
    n: int,
)
    requires
        hints.len() == CHUNK_SIZE,
        complete_walk(hints, pending, visited),
        0 <= m < n <= visited.len(),
    ensures
        forall|i: int| 0 <= i <= visited[m] ==> !#[trigger] pending[n][i],
        n < visited.len() ==> visited[m] < visited[n],
    decreases n - m,
{
    lemma_walk_reaches(hints, pending, visited, 0, (n - 1) as nat);
    if m < n - 1 {
        lemma_walk_ascends(hints, pending, visited, m, n - 1);
    }
    assert(pending[n] == pending[n - 1].update(visited[n - 1], false));
}

/// There is a shard for each worker, as far as the limit on the number of shards allows.
pub proof fn law_one_shard_per_worker(
    num_workers: Option<usize>,
    available_parallelism: Option<usize>,
    shards: int,
)
    requires
        crate::shard_amount::smallest_power_of_two(
            shards,
            crate::shard_amount::clamped(
                crate::shard_amount::workers(num_workers, available_parallelism),
                crate::shard_amount::MIN_SHARDS as int,
                crate::shard_amount::MAX_SHARDS as int,
            ),
        ),
    ensures
        ({
            let workers = crate::shard_amount::workers(num_workers, available_parallelism);
            &&& workers <= crate::shard_amount::MAX_SHARDS ==> workers <= shards
            &&& workers >= crate::shard_amount::MAX_SHARDS ==> shards
                == crate::shard_amount::MAX_SHARDS
            &&& crate::shard_amount::MIN_SHARDS < workers ==> shards < 2 * workers
        }),
{
    vstd::arithmetic::power2::lemma2_to64();
    assert(vstd::arithmetic::power2::pow2(8) == crate::shard_amount::MAX_SHARDS);
    let e = choose|e: nat| shards == #[trigger] vstd::arithmetic::power2::pow2(e);
    if e > 0 {
        vstd::arithmetic::power2::lemma_pow2_unfold(e);
        let half = vstd::arithmetic::power2::pow2((e - 1) as nat);
        assert(half < shards);
    }
}

/// What threads that share a map would see of the slot of a task.
pub open spec fn shared_slot<T: TaskSlotValue>(map: MapView<T>, key: TaskId) -> SharedSlot {
    SharedSlot {
        hint: map.hinted(key),
        occupied: map.has(key),
        count: map.total(key) as int,
        fills: 0,
        empties: 0,
    }
}

/// The two slots look alike, however often they were in use.
pub open spec fn alike(a: SharedSlot, b: SharedSlot) -> bool {
    &&& a.hint == b.hint
    &&& a.occupied == b.occupied
    &&& a.count == b.count
}

/// A lookup in the map comes out as one by a thread that nobody disturbs.
pub proof fn law_lookup_follows_the_protocol<T: TaskSlotValue>(map: MapView<T>, key: TaskId)
    requires
        map.wf(),
    ensures
        ({
            let (phase, slot) = undisturbed_request(Request::Lookup, shared_slot(map, key));
            &&& (phase is Held) == map.has(key)
            &&& slot == shared_slot(map, key)
        }),
{
    map.namespace(key.transient()).lemma_unchanged_entry(key.index());
    crate::protocol::law_undisturbed_requests(shared_slot(map, key));
}

/// An insertion into the map comes out as one by a thread that nobody disturbs.
pub proof fn law_insertion_follows_the_protocol<T: TaskSlotValue>(
    map: MapView<T>,
    key: TaskId,
    value: T,
    modified_count: u64,
    len: usize,
    after: MapView<T>,
)
    requires
        map.wf(),
        map.inserted(key, value, modified_count, len, after),
        value.occupied(),
        len == map.total(key) + if map.has(key) {
            0int
        } else {
            1
        },
    ensures
        ({
            let (phase, slot) = undisturbed_request(Request::Insert, shared_slot(map, key));
            &&& phase is Held
            &&& alike(slot, shared_slot(after, key))
        }),
{
    map.namespace(key.transient()).lemma_unchanged_entry(key.index());
    crate::protocol::law_undisturbed_requests(shared_slot(map, key));
    law_inserted_task_is_found(map, key, value, modified_count, len, after);
}

/// A removal from the map comes out as one by a thread that holds the task and that nobody disturbs.
pub proof fn law_removal_follows_the_protocol<T: TaskSlotValue>(
    map: MapView<T>,
    key: TaskId,
    left: T,
    modified_count: u64,
)
    requires
        map.wf(),
        map.has(key),
        crate::slot::vacant(left),
    ensures
        ({
            let after = map.with_entry(
                key,
                left,
                modified_count,
                (map.total(key) - 1) as usize,
            );
            let (phase, slot) = crate::protocol::undisturbed(
                Phase::Remove,
                shared_slot(map, key),
                crate::protocol::MAX_ACTIONS as nat,
            );
            &&& phase is Done
            &&& alike(slot, shared_slot(after, key))
        }),
{
    map.namespace(key.transient()).lemma_unchanged_entry(key.index());
    crate::protocol::law_undisturbed_requests(shared_slot(map, key));
    map.namespace(key.transient()).lemma_with_entry(
        key.index(),
        left,
        modified_count,
        (map.total(key) - 1) as usize,
    );
    assert(map.with_entry(
        key,
        left,
        modified_count,
        (map.total(key) - 1) as usize,
    ).namespace(key.transient()).hinted_at(key.index()));
}

/// A scan of a vacant slot of the map comes out as one by a thread that nobody disturbs.
pub proof fn law_scan_follows_the_protocol<T: TaskSlotValue>(map: MapView<T>, key: TaskId)
    requires
        map.wf(),
        map.namespace(key.transient()).chunk_of(key.index()) is Some,
    ensures
        ({
            let namespace = map.namespace(key.transient());
            let after = map.with_namespace(
                key.transient(),
                namespace.with_hint(key.index(), false),
            );
            let (phase, slot) = undisturbed_request(Request::Scan, shared_slot(map, key));
            &&& (phase is Held) == map.has(key)
            &&& map.has(key) ==> slot == shared_slot(map, key)
            &&& !map.has(key) ==> alike(slot, shared_slot(after, key))
        }),
{
    map.namespace(key.transient()).lemma_unchanged_entry(key.index());
    crate::protocol::law_undisturbed_requests(shared_slot(map, key));
    law_scan_clears_one_hint(map, key.transient(), key.index(), key);
}

/// To clear the map leaves a slot as a thread does that nobody disturbs, but for the count, which is
/// set once for all slots.
pub proof fn law_clearing_follows_the_protocol<T: TaskSlotValue>(
    map: MapView<T>,
    after: MapView<T>,
    key: TaskId,
)
    requires
        map.wf(),
        map.cleared(after),
    ensures
        ({
            let (phase, slot) = undisturbed_request(Request::Clear, shared_slot(map, key));
            &&& phase is Done
            &&& slot.hint == after.hinted(key)
            &&& slot.occupied == after.has(key)
        }),
{
    map.namespace(key.transient()).lemma_unchanged_entry(key.index());
    crate::protocol::law_undisturbed_requests(shared_slot(map, key));
    law_cleared_map_is_empty(map, after, key);
}

/// Where a thread gets with a request that nobody disturbs, and what becomes of the slot.
pub open spec fn undisturbed_request(request: Request, slot: SharedSlot) -> (Phase, SharedSlot) {
    crate::protocol::undisturbed(
        Phase::first(request),
        slot,
        crate::protocol::MAX_ACTIONS as nat,
    )
}

} // verus!
