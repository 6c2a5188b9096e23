//! What each call comes down to, in terms of what goes in and what comes out.
//!
//! The laws below are put in numbers and in the fields of the views. Where they do use a notion of
//! the contracts, such as that of a well-formed map, another law says what it comes down to.

use vstd::prelude::*;

use crate::chunk::{ChunkView, ProbablyOccupiedOffsets, TaskChunk, WalkStep};
use crate::directory::{growth_step, GrowthStep};
use crate::guard::TaskMapGuard;
use crate::namespace::{ChunkedVec, NamespaceView};
use crate::shard_amount::compute_snapshot_shard_amount;
use crate::slot::{TaskSlotGuard, TaskSlotValue};
use crate::task_id::{TaskId, ZeroTaskId};
use crate::task_map::{MapView, TaskChunkRef, TaskMap};

verus! {

/// The number of shards is a power of two from 4 to 256, and 4 where memory is short. Otherwise it is
/// the first one that is not below the number of workers, as far as the limits allow; where that
/// number is not given, what the machine offers counts, and where that is unknown too, it is 4.
pub proof fn law_shards(
    num_workers: Option<usize>,
    small_preallocation: bool,
    available_parallelism: Option<usize>,
    shards: usize,
)
    requires
        call_ensures(
            compute_snapshot_shard_amount,
            (num_workers, small_preallocation, available_parallelism),
            shards,
        ),
    ensures
        shards == 4 || shards == 8 || shards == 16 || shards == 32 || shards == 64 || shards == 128
            || shards == 256,
        small_preallocation ==> shards == 4,
        !small_preallocation ==> match num_workers {
            Some(n) => {
                &&& n <= 4 ==> shards == 4
                &&& 4 <= n <= 256 ==> n <= shards < 2 * n
                &&& n >= 256 ==> shards == 256
            },
            None => match available_parallelism {
                Some(n) => {
                    &&& n <= 4 ==> shards == 4
                    &&& 4 <= n <= 256 ==> n <= shards < 2 * n
                    &&& n >= 256 ==> shards == 256
                },
                None => shards == 4,
            },
        },
{
    vstd::arithmetic::power2::lemma2_to64();
    assert(vstd::arithmetic::power2::pow2(8) == 256);
    if !small_preallocation {
        let e = choose|e: nat| shards == #[trigger] vstd::arithmetic::power2::pow2(e);
        if e > 8 {
            vstd::arithmetic::power2::lemma_pow2_strictly_increases(8, e);
        }
        if e > 0 {
            vstd::arithmetic::power2::lemma_pow2_unfold(e);
            let half = vstd::arithmetic::power2::pow2((e - 1) as nat);
            assert(half < shards);
        }
    }
}

/// More workers never get fewer shards, whatever the machine offers.
pub proof fn law_more_workers_get_no_fewer_shards(
    fewer: usize,
    more: usize,
    a: Option<usize>,
    b: Option<usize>,
    shards: usize,
    more_shards: usize,
)
    requires
        fewer <= more,
        call_ensures(compute_snapshot_shard_amount, (Some(fewer), false, a), shards),
        call_ensures(compute_snapshot_shard_amount, (Some(more), false, b), more_shards),
    ensures
        shards <= more_shards,
{
    law_shards(Some(fewer), false, a, shards);
    law_shards(Some(more), false, b, more_shards);
}

/// The place of a task: which namespace it is in is told by the highest bit of its id, where in the
/// namespace by the others.
pub proof fn law_place_of_a_task<T: TaskSlotValue>(key: TaskId, place: (bool, usize))
    requires
        call_ensures(TaskMap::<T>::namespace_and_index, (key,), place),
    ensures
        place.0 == (key@ >= 0x8000_0000),
        place.1 == key@ as int % 0x8000_0000,
        key@ != 0,
        key.transient() == (key@ >= 0x8000_0000),
        key.index() == key@ as int % 0x8000_0000,
{
}

/// The two namespaces of a map.
pub proof fn law_namespaces<T: TaskSlotValue>(map: MapView<T>)
    ensures
        map.namespace(false) == map.persistent,
        map.namespace(true) == map.transient,
{
}

/// A lookup finds a task if and only if its slot is occupied. It then gives access to that slot, to
/// the modification count of its chunk and to the count of its namespace: what is in them is seen,
/// what is written to them stays, and nothing else changes. A miss changes nothing. The map is left
/// well-formed if the task is still there and counted, or was vacated and counted out.
pub proof fn law_get<T: TaskSlotValue>(key: TaskId)
    ensures
        forall|map: &mut TaskMap<T>, found: Option<TaskMapGuard<'_, T>>|
            #[trigger] call_ensures(TaskMap::<T>::get, (map, key), found) && map.wf() ==> {
                let transient = key@ >= 0x8000_0000;
                let c = key@ as int % 0x8000_0000 / 1024;
                let offset = key@ as int % 1024;
                let before = map@.namespace(transient);
                &&& found is Some <==> {
                    &&& c < before.chunks.len()
                    &&& before.chunks[c] is Some
                    &&& before.chunks[c]->0.values[offset].occupied()
                }
                &&& match found {
                    Some(guard) => {
                        let after = final(map)@.namespace(transient);
                        let old_chunk = before.chunks[c]->0;
                        let new_chunk = after.chunks[c]->0;
                        &&& guard.key == key
                        &&& guard.inner.slot.value == old_chunk.values[offset]
                        &&& *guard.modified_count == old_chunk.modified_count
                        &&& *guard.len == before.len
                        &&& after.chunks == before.chunks.update(c, Some(new_chunk))
                        &&& new_chunk.hints == old_chunk.hints
                        &&& new_chunk.values == old_chunk.values.update(
                            offset,
                            final(guard.inner.slot).value,
                        )
                        &&& new_chunk.modified_count == *final(guard.modified_count)
                        &&& after.len == *final(guard.len)
                        &&& final(map)@.namespace(!transient) == map@.namespace(!transient)
                        &&& ({
                            let last = final(guard.inner.slot).value;
                            ||| last.occupied() && *final(guard.len) == *guard.len
                            ||| !last.occupied() && last.contents() == T::blank() && *final(guard.len)
                                == *guard.len - 1
                        }) ==> final(map).wf()
                    },
                    None => final(map)@ == map@ && final(map).wf(),
                }
            },
{
}

/// An insertion gives access to the slot of the task as a lookup does, whether or not there was such
/// a task. If there was none, the slot is occupied first: with the value that `occupy` makes of the
/// vacant one, which holds blank contents, and the count of the namespace goes up by one. A chunk
/// that was missing is created: with a modification count of zero, with all hints set, and with
/// nothing but empty values in its other slots. The directory then reaches just up to it.
pub proof fn law_get_or_insert<T: TaskSlotValue>(key: TaskId)
    ensures
        forall|map: &mut TaskMap<T>, guard: TaskMapGuard<'_, T>|
            #[trigger] call_ensures(TaskMap::<T>::get_or_insert, (map, key), guard) && map.wf() ==> {
                let transient = key@ >= 0x8000_0000;
                let c = key@ as int % 0x8000_0000 / 1024;
                let offset = key@ as int % 1024;
                let before = map@.namespace(transient);
                let after = final(map)@.namespace(transient);
                let existed = c < before.chunks.len() && before.chunks[c] is Some;
                let old_chunk = before.chunks[c]->0;
                let new_chunk = after.chunks[c]->0;
                let value = guard.inner.slot.value;
                &&& guard.key == key
                &&& value.occupied()
                &&& *guard.modified_count == if existed {
                    old_chunk.modified_count
                } else {
                    0
                }
                &&& if existed && old_chunk.values[offset].occupied() {
                    &&& value == old_chunk.values[offset]
                    &&& *guard.len == before.len
                } else {
                    &&& value.contents() == T::blank()
                    &&& *guard.len == before.len + 1
                    &&& exists|slot: &mut T| #[trigger]
                        call_ensures(T::occupy, (slot,), ()) && *final(slot) == value && if existed {
                            *slot == old_chunk.values[offset]
                        } else {
                            call_ensures(T::empty, (), *slot)
                        }
                }
                &&& after.chunks.len() == if c < before.chunks.len() {
                    before.chunks.len() as int
                } else {
                    c + 1
                }
                &&& forall|k: int|
                    0 <= k < after.chunks.len() && k != c ==> #[trigger] after.chunks[k] == if k
                        < before.chunks.len() {
                        before.chunks[k]
                    } else {
                        None
                    }
                &&& after.chunks[c] is Some
                &&& new_chunk.hints.len() == 1024
                &&& new_chunk.values.len() == 1024
                &&& new_chunk.hints[offset]
                &&& new_chunk.values[offset] == final(guard.inner.slot).value
                &&& forall|i: int|
                    #![trigger new_chunk.hints[i]]
                    0 <= i < 1024 && i != offset ==> new_chunk.hints[i] == (if existed {
                        old_chunk.hints[i]
                    } else {
                        true
                    })
                &&& forall|i: int|
                    #![trigger new_chunk.values[i]]
                    0 <= i < 1024 && i != offset ==> if existed {
                        new_chunk.values[i] == old_chunk.values[i]
                    } else {
                        &&& call_ensures(T::empty, (), new_chunk.values[i])
                        &&& !new_chunk.values[i].occupied()
                        &&& new_chunk.values[i].contents() == T::blank()
                    }
                &&& new_chunk.modified_count == *final(guard.modified_count)
                &&& after.len == *final(guard.len)
                &&& final(map)@.namespace(!transient) == map@.namespace(!transient)
                &&& ({
                    let last = final(guard.inner.slot).value;
                    ||| last.occupied() && *final(guard.len) == *guard.len
                    ||| !last.occupied() && last.contents() == T::blank() && *final(guard.len)
                        == *guard.len - 1
                }) ==> final(map).wf()
            },
{
}

/// A removal finds a task as a lookup does. What it returns is the very value that
/// `take_and_vacate` detaches from the slot, with the contents of the task; what stays in the slot
/// is what `take_and_vacate` leaves there. The task is counted out. Its hint, the modification count
/// and all other slots stay as they were.
pub proof fn law_remove<T: TaskSlotValue>(key: TaskId)
    ensures
        forall|map: &mut TaskMap<T>, removed: Option<T>|
            #[trigger] call_ensures(TaskMap::<T>::remove, (map, key), removed) && map.wf() ==> {
                let transient = key@ >= 0x8000_0000;
                let c = key@ as int % 0x8000_0000 / 1024;
                let offset = key@ as int % 1024;
                let before = map@.namespace(transient);
                &&& final(map).wf()
                &&& removed is Some <==> {
                    &&& c < before.chunks.len()
                    &&& before.chunks[c] is Some
                    &&& before.chunks[c]->0.values[offset].occupied()
                }
                &&& match removed {
                    Some(detached) => {
                        let after = final(map)@.namespace(transient);
                        let old_chunk = before.chunks[c]->0;
                        let new_chunk = after.chunks[c]->0;
                        let left = new_chunk.values[offset];
                        &&& detached.contents() == old_chunk.values[offset].contents()
                        &&& exists|slot: &mut T, out: T| #[trigger]
                            call_ensures(T::take_and_vacate, (slot,), out) && out == detached
                                && *slot == old_chunk.values[offset] && *final(slot) == left
                        &&& !left.occupied()
                        &&& left.contents() == T::blank()
                        &&& after.chunks == before.chunks.update(c, Some(new_chunk))
                        &&& new_chunk.hints == old_chunk.hints
                        &&& new_chunk.values == old_chunk.values.update(offset, left)
                        &&& new_chunk.modified_count == old_chunk.modified_count
                        &&& after.len == before.len - 1
                        &&& final(map)@.namespace(!transient) == map@.namespace(!transient)
                    },
                    None => final(map)@ == map@,
                }
            },
{
    assert forall|map: &mut TaskMap<T>, removed: Option<T>|
        #[trigger] call_ensures(TaskMap::<T>::remove, (map, key), removed) && map.wf() implies {
        removed is Some ==> map@.namespace(key.transient()).len > 0
    } by {
        lemma_counted(map@, key);
    }
}

/// Where the map has a task, the count of its namespace is not zero.
proof fn lemma_counted<T: TaskSlotValue>(map: MapView<T>, key: TaskId)
    requires
        map.wf(),
    ensures
        map.has(key) ==> map.total(key) > 0,
{
    if map.has(key) {
        let namespace = map.namespace(key.transient());
        namespace.lemma_occupied_indices();
        assert(namespace.occupied_indices().contains(key.index()));
        if namespace.occupied_indices().len() == 0 {
            assert(namespace.occupied_indices() =~= Set::<int>::empty());
        }
    }
}

/// To discard a task is to remove it where it is: what stays in the slot is what `vacate_in_place`
/// makes of the task. The task is counted out. Its hint, the modification count and all other slots
/// stay as they were.
pub proof fn law_remove_discard<T: TaskSlotValue>(key: TaskId)
    ensures
        forall|map: &mut TaskMap<T>, removed: bool|
            #[trigger] call_ensures(TaskMap::<T>::remove_discard, (map, key), removed) && map.wf()
                ==> {
                let transient = key@ >= 0x8000_0000;
                let c = key@ as int % 0x8000_0000 / 1024;
                let offset = key@ as int % 1024;
                let before = map@.namespace(transient);
                let after = final(map)@.namespace(transient);
                let old_chunk = before.chunks[c]->0;
                let new_chunk = after.chunks[c]->0;
                let left = new_chunk.values[offset];
                &&& final(map).wf()
                &&& removed <==> {
                    &&& c < before.chunks.len()
                    &&& before.chunks[c] is Some
                    &&& old_chunk.values[offset].occupied()
                }
                &&& !removed ==> final(map)@ == map@
                &&& removed ==> {
                    &&& exists|slot: &mut T| #[trigger]
                        call_ensures(T::vacate_in_place, (slot,), ()) && *slot
                            == old_chunk.values[offset] && *final(slot) == left
                    &&& !left.occupied()
                    &&& left.contents() == T::blank()
                    &&& after.chunks == before.chunks.update(c, Some(new_chunk))
                    &&& new_chunk.hints == old_chunk.hints
                    &&& new_chunk.values == old_chunk.values.update(offset, left)
                    &&& new_chunk.modified_count == old_chunk.modified_count
                    &&& after.len == before.len - 1
                    &&& final(map)@.namespace(!transient) == map@.namespace(!transient)
                }
            },
{
    assert forall|map: &mut TaskMap<T>, removed: bool|
        #[trigger] call_ensures(TaskMap::<T>::remove_discard, (map, key), removed)
            && map.wf() implies {
        removed ==> map@.namespace(key.transient()).len > 0
    } by {
        lemma_counted(map@, key);
    }
}

/// To clear a map is to vacate every task of both namespaces where it is, with `vacate_in_place`; to
/// clear every hint; and to set every count to zero, whatever it was: those of the namespaces and
/// the modification counts of all chunks. Vacant slots stay as they are, and so do the chunks
/// themselves.
pub proof fn law_clear<T: TaskSlotValue>()
    ensures
        forall|map: &mut TaskMap<T>|
            #[trigger] call_ensures(TaskMap::<T>::clear, (map,), ()) && map.wf() ==> {
                &&& final(map).wf()
                &&& final(map)@.persistent.len == 0
                &&& final(map)@.persistent.chunks.len() == map@.persistent.chunks.len()
                &&& forall|c: int|
                    #![trigger map@.persistent.chunks[c]]
                    0 <= c < map@.persistent.chunks.len() ==> {
                        let after = final(map)@.persistent.chunks[c];
                        &&& after is Some <==> map@.persistent.chunks[c] is Some
                        &&& after is Some ==> {
                            &&& after->0.modified_count == 0
                            &&& after->0.hints.len() == 1024
                            &&& after->0.values.len() == 1024
                        }
                    }
                &&& forall|c: int, i: int|
                    #![trigger map@.persistent.chunks[c]->0.values[i]]
                    0 <= c < map@.persistent.chunks.len() && map@.persistent.chunks[c] is Some
                        && 0 <= i < 1024 ==> {
                        let was = map@.persistent.chunks[c]->0.values[i];
                        let left = final(map)@.persistent.chunks[c]->0.values[i];
                        &&& !final(map)@.persistent.chunks[c]->0.hints[i]
                        &&& !left.occupied()
                        &&& left.contents() == T::blank()
                        &&& !was.occupied() ==> left == was
                        &&& was.occupied() ==> exists|slot: &mut T| #[trigger]
                            call_ensures(T::vacate_in_place, (slot,), ()) && *slot == was
                                && *final(slot) == left
                    }
                &&& final(map)@.transient.len == 0
                &&& final(map)@.transient.chunks.len() == map@.transient.chunks.len()
                &&& forall|c: int|
                    #![trigger map@.transient.chunks[c]]
                    0 <= c < map@.transient.chunks.len() ==> {
                        let after = final(map)@.transient.chunks[c];
                        &&& after is Some <==> map@.transient.chunks[c] is Some
                        &&& after is Some ==> {
                            &&& after->0.modified_count == 0
                            &&& after->0.hints.len() == 1024
                            &&& after->0.values.len() == 1024
                        }
                    }
                &&& forall|c: int, i: int|
                    #![trigger map@.transient.chunks[c]->0.values[i]]
                    0 <= c < map@.transient.chunks.len() && map@.transient.chunks[c] is Some
                        && 0 <= i < 1024 ==> {
                        let was = map@.transient.chunks[c]->0.values[i];
                        let left = final(map)@.transient.chunks[c]->0.values[i];
                        &&& !final(map)@.transient.chunks[c]->0.hints[i]
                        &&& !left.occupied()
                        &&& left.contents() == T::blank()
                        &&& !was.occupied() ==> left == was
                        &&& was.occupied() ==> exists|slot: &mut T| #[trigger]
                            call_ensures(T::vacate_in_place, (slot,), ()) && *slot == was
                                && *final(slot) == left
                    }
            },
{
}

/// A new map has no chunk, and counts no task.
pub proof fn law_new<T: TaskSlotValue>(small_preallocation: bool, map: TaskMap<T>)
    requires
        call_ensures(TaskMap::<T>::new, (small_preallocation,), map),
    ensures
        map.wf(),
        map@.persistent.chunks == Seq::<Option<ChunkView<T>>>::empty(),
        map@.transient.chunks == Seq::<Option<ChunkView<T>>>::empty(),
        map@.persistent.len == 0,
        map@.transient.len == 0,
{
}

/// Room for one chunk where memory is short, and else for 1024.
pub proof fn law_persistent_chunk_capacity<T: TaskSlotValue>(
    small_preallocation: bool,
    capacity: usize,
)
    requires
        call_ensures(
            TaskMap::<T>::persistent_chunk_capacity,
            (small_preallocation,),
            capacity,
        ),
    ensures
        capacity == if small_preallocation {
            1
        } else {
            1024int
        },
{
}

/// What it takes for a namespace to be well-formed: it has no more chunks than ids can name, each of
/// 1024 slots; every occupied slot is hinted; every vacant one is blank; and the count is the number
/// of the occupied ones.
pub proof fn law_well_formed_namespace<T: TaskSlotValue>(namespace: NamespaceView<T>)
    ensures
        namespace.wf() <==> {
            &&& namespace.chunks.len() <= 0x20_0000
            &&& forall|c: int|
                0 <= c < namespace.chunks.len() && (#[trigger] namespace.chunks[c]) is Some ==> {
                    &&& namespace.chunks[c]->0.hints.len() == 1024
                    &&& namespace.chunks[c]->0.values.len() == 1024
                    &&& forall|i: int|
                        #![trigger namespace.chunks[c]->0.values[i]]
                        0 <= i < 1024 ==> if namespace.chunks[c]->0.values[i].occupied() {
                            namespace.chunks[c]->0.hints[i]
                        } else {
                            namespace.chunks[c]->0.values[i].contents() == T::blank()
                        }
                }
            &&& namespace.len == Set::new(
                |index: int|
                    {
                        &&& 0 <= index
                        &&& index / 1024 < namespace.chunks.len()
                        &&& namespace.chunks[index / 1024] is Some
                        &&& namespace.chunks[index / 1024]->0.values[index % 1024].occupied()
                    },
            ).len()
        },
{
    assert(namespace.occupied_indices() =~= Set::new(
        |index: int|
            {
                &&& 0 <= index
                &&& index / 1024 < namespace.chunks.len()
                &&& namespace.chunks[index / 1024] is Some
                &&& namespace.chunks[index / 1024]->0.values[index % 1024].occupied()
            },
    ));
    if namespace.wf() {
        assert forall|c: int|
            0 <= c < namespace.chunks.len() && (
            #[trigger] namespace.chunks[c]) is Some implies namespace.chunks[c]->0.consistent() by {
        }
    }
}

/// What it takes for a map to be well-formed: that both namespaces are, and that the slot of the id
/// zero, which is none, is not occupied.
pub proof fn law_well_formed_map<T: TaskSlotValue>(map: MapView<T>)
    ensures
        map.wf() <==> {
            &&& map.persistent.wf()
            &&& map.transient.wf()
            &&& map.persistent.chunks.len() > 0 && map.persistent.chunks[0] is Some
                ==> !map.persistent.chunks[0]->0.values[0].occupied()
        },
{
}

/// The length of a map is the number of ids whose slots are occupied.
pub proof fn law_len<T: TaskSlotValue>(map: &TaskMap<T>, len: usize)
    requires
        map.wf(),
        call_ensures(TaskMap::<T>::len, (map,), len),
    ensures
        len == Set::new(
            |id: u32|
                {
                    let chunks = if id < 0x8000_0000 {
                        map@.persistent.chunks
                    } else {
                        map@.transient.chunks
                    };
                    let c = id as int % 0x8000_0000 / 1024;
                    &&& c < chunks.len()
                    &&& chunks[c] is Some
                    &&& chunks[c]->0.values[id as int % 1024].occupied()
                },
        ).len(),
{
    crate::laws::law_len_counts_tasks(map@);
    assert(map@.ids() =~= Set::new(
        |id: u32|
            {
                let chunks = if id < 0x8000_0000 {
                    map@.persistent.chunks
                } else {
                    map@.transient.chunks
                };
                let c = id as int % 0x8000_0000 / 1024;
                &&& c < chunks.len()
                &&& chunks[c] is Some
                &&& chunks[c]->0.values[id as int % 1024].occupied()
            },
    ));
}

/// The list of chunks: a chunk is listed if and only if it was created, by the index of its first
/// slot; persistent ones come before transient ones, and each kind in ascending order.
pub proof fn law_chunks<T: TaskSlotValue>(map: &TaskMap<T>, refs: Vec<TaskChunkRef>)
    requires
        map.wf(),
        call_ensures(TaskMap::<T>::chunks, (map,), refs),
    ensures
        forall|i: int|
            #![trigger refs@[i]]
            0 <= i < refs@.len() ==> {
                let chunks = if refs@[i].transient {
                    map@.transient.chunks
                } else {
                    map@.persistent.chunks
                };
                &&& refs@[i].base_id % 1024 == 0
                &&& refs@[i].base_id as int / 1024 < chunks.len()
                &&& chunks[refs@[i].base_id as int / 1024] is Some
            },
        forall|c: int|
            0 <= c < map@.persistent.chunks.len() && (#[trigger] map@.persistent.chunks[c]) is Some
                ==> exists|i: int|
                0 <= i < refs@.len() && (#[trigger] refs@[i]).base_id == c * 1024
                    && !refs@[i].transient,
        forall|c: int|
            0 <= c < map@.transient.chunks.len() && (#[trigger] map@.transient.chunks[c]) is Some
                ==> exists|i: int|
                0 <= i < refs@.len() && (#[trigger] refs@[i]).base_id == c * 1024
                    && refs@[i].transient,
        forall|i: int, j: int|
            #![trigger refs@[i], refs@[j]]
            0 <= i < j < refs@.len() ==> {
                ||| !refs@[i].transient && refs@[j].transient
                ||| refs@[i].transient == refs@[j].transient && refs@[i].base_id < refs@[j].base_id
            },
{
    let persistent = map@.persistent.created();
    let transient = map@.transient.created();
    map@.persistent.lemma_created_below(map@.persistent.chunks.len());
    map@.transient.lemma_created_below(map@.transient.chunks.len());
    assert(refs@.len() == persistent.len() + transient.len());
    assert forall|i: int| #![trigger refs@[i]] 0 <= i < refs@.len() implies {
        let c = if i < persistent.len() {
            persistent[i]
        } else {
            transient[i - persistent.len()]
        };
        &&& refs@[i].base_id == c * 1024
        &&& refs@[i].transient == (i >= persistent.len())
    } by {}
    assert forall|c: int|
        0 <= c < map@.persistent.chunks.len() && (
        #[trigger] map@.persistent.chunks[c]) is Some implies exists|i: int|
        0 <= i < refs@.len() && (#[trigger] refs@[i]).base_id == c * 1024 && !refs@[i].transient by {
        let at = choose|at: int| 0 <= at < persistent.len() && persistent[at] == c;
        assert(refs@[at].base_id == c * 1024);
    }
    assert forall|c: int|
        0 <= c < map@.transient.chunks.len() && (
        #[trigger] map@.transient.chunks[c]) is Some implies exists|i: int|
        0 <= i < refs@.len() && (#[trigger] refs@[i]).base_id == c * 1024 && refs@[i].transient by {
        let at = choose|at: int| 0 <= at < transient.len() && transient[at] == c;
        assert(refs@[persistent.len() + at].base_id == c * 1024);
    }
}

/// A listed chunk is the one at its place in its namespace.
pub proof fn law_chunk_of_a_ref<T: TaskSlotValue>(
    chunk_ref: &TaskChunkRef,
    map: &TaskMap<T>,
    chunk: &TaskChunk<T>,
)
    requires
        map.wf(),
        chunk_ref.base_id % 1024 == 0,
        ({
            let chunks = if chunk_ref.transient {
                map@.transient.chunks
            } else {
                map@.persistent.chunks
            };
            &&& chunk_ref.base_id as int / 1024 < chunks.len()
            &&& chunks[chunk_ref.base_id as int / 1024] is Some
        }),
        call_ensures(TaskChunkRef::chunk::<T>, (chunk_ref, map), chunk),
    ensures
        chunk_ref.names(map@),
        Some(chunk@) == if chunk_ref.transient {
            map@.transient.chunks[chunk_ref.base_id as int / 1024]
        } else {
            map@.persistent.chunks[chunk_ref.base_id as int / 1024]
        },
{
}

/// The id of a slot: the index of the slot in its namespace, with the highest bit set if the
/// namespace is the transient one.
pub proof fn law_task_id_of_a_slot(chunk_ref: &TaskChunkRef, offset: usize, id: TaskId)
    requires
        chunk_ref.base_id + offset < 0x8000_0000,
        call_ensures(TaskChunkRef::task_id, (chunk_ref, offset), id),
    ensures
        id@ == chunk_ref.base_id + offset + if chunk_ref.transient {
            0x8000_0000int
        } else {
            0
        },
{
    let low = (chunk_ref.base_id + offset) as u32;
    assert(low < 0x8000_0000 ==> (low | 0x8000_0000u32) == low + 0x8000_0000u32) by (bit_vector);
}

/// A scan finds a task in a slot if and only if the slot is occupied. It then gives access to it as a
/// lookup does. Where the slot is vacant, its hint is cleared, and nothing else changes.
pub proof fn law_get_by_ref<T: TaskSlotValue>(chunk_ref: &TaskChunkRef, offset: usize)
    requires
        offset < 1024,
    ensures
        forall|map: &mut TaskMap<T>, found: Option<TaskMapGuard<'_, T>>|
            #[trigger] call_ensures(TaskChunkRef::get::<T>, (chunk_ref, map, offset), found)
                && map.wf() && chunk_ref.names(map@) ==> {
                let transient = chunk_ref.transient;
                let c = chunk_ref.base_id as int / 1024;
                let before = map@.namespace(transient);
                let after = final(map)@.namespace(transient);
                let old_chunk = before.chunks[c]->0;
                let new_chunk = after.chunks[c]->0;
                let o = offset as int;
                &&& found is Some <==> old_chunk.values[o].occupied()
                &&& after.chunks == before.chunks.update(c, Some(new_chunk))
                &&& final(map)@.namespace(!transient) == map@.namespace(!transient)
                &&& match found {
                    Some(guard) => {
                        &&& guard.key@ == chunk_ref.base_id + offset + if transient {
                            0x8000_0000int
                        } else {
                            0
                        }
                        &&& guard.inner.slot.value == old_chunk.values[o]
                        &&& *guard.modified_count == old_chunk.modified_count
                        &&& *guard.len == before.len
                        &&& new_chunk.hints == old_chunk.hints
                        &&& new_chunk.values == old_chunk.values.update(
                            o,
                            final(guard.inner.slot).value,
                        )
                        &&& new_chunk.modified_count == *final(guard.modified_count)
                        &&& after.len == *final(guard.len)
                        &&& ({
                            let last = final(guard.inner.slot).value;
                            ||| last.occupied() && *final(guard.len) == *guard.len
                            ||| !last.occupied() && last.contents() == T::blank() && *final(guard.len)
                                == *guard.len - 1
                        }) ==> final(map).wf()
                    },
                    None => {
                        &&& new_chunk.hints == old_chunk.hints.update(o, false)
                        &&& new_chunk.values == old_chunk.values
                        &&& new_chunk.modified_count == old_chunk.modified_count
                        &&& after.len == before.len
                        &&& final(map).wf()
                    },
                }
            },
{
    assert forall|map: &mut TaskMap<T>, found: Option<TaskMapGuard<'_, T>>|
        #[trigger] call_ensures(TaskChunkRef::get::<T>, (chunk_ref, map, offset), found)
            && map.wf() && chunk_ref.names(map@) implies {
        let index = chunk_ref.base_id + offset;
        &&& index / 1024 == chunk_ref.base_id as int / 1024
        &&& index % 1024 == offset
        &&& index < 0x8000_0000
    } by {}
}

/// The sizes that all else is measured in.
pub proof fn law_sizes()
    ensures
        crate::chunk::CHUNK_SIZE == 1024,
        crate::chunk::CHUNK_SHIFT == 10,
        crate::chunk::BITMAP_WORDS == 16,
        crate::directory::MAX_CHUNKS == 0x20_0000,
        crate::task_id::TRANSIENT_TASK_BIT == 0x8000_0000,
        crate::shard_amount::MIN_SHARDS == 4,
        crate::shard_amount::MAX_SHARDS == 256,
{
}

/// A new chunk has 1024 empty slots, all of them hinted, and a modification count of zero.
pub proof fn law_new_chunk<T: TaskSlotValue>(chunk: TaskChunk<T>)
    requires
        call_ensures(TaskChunk::<T>::new, (), chunk),
    ensures
        chunk.wf(),
        chunk@.modified_count == 0,
        chunk@.hints.len() == 1024,
        chunk@.values.len() == 1024,
        forall|i: int|
            #![trigger chunk@.values[i]]
            0 <= i < 1024 ==> {
                &&& chunk@.hints[i]
                &&& call_ensures(T::empty, (), chunk@.values[i])
                &&& !chunk@.values[i].occupied()
                &&& chunk@.values[i].contents() == T::blank()
            },
{
}

/// A chunk is well-formed if it has 1024 slots and as many hints.
pub proof fn law_well_formed_chunk<T: TaskSlotValue>(chunk: TaskChunk<T>)
    ensures
        chunk.wf() <==> chunk@.hints.len() == 1024 && chunk@.values.len() == 1024,
{
}

/// The hint of a slot is in the word that its offset gives when divided by 64, at the bit that the
/// remainder tells.
pub proof fn law_word_and_mask<T: TaskSlotValue>(offset: usize, place: (usize, u64))
    requires
        call_ensures(TaskChunk::<T>::word_and_mask, (offset,), place),
    ensures
        place.0 == offset / 64,
        forall|b: u64|
            b < 64 ==> (#[trigger] (place.1 & (1u64 << b)) != 0 <==> b == offset as int % 64),
{
    let s = (offset % 64) as u64;
    let mask = place.1;
    assert(mask == 1u64 << s);
    assert forall|b: u64| b < 64 implies (#[trigger] (mask & (1u64 << b)) != 0 <==> b
        == offset as int % 64) by {
        assert((1u64 << s) & (1u64 << b) != 0 <==> b == s) by (bit_vector)
            requires
                s < 64,
                b < 64,
        ;
    }
}

/// To set a hint sets that hint, to clear it clears it, and neither changes anything else.
pub proof fn law_hints<T: TaskSlotValue>(offset: usize)
    requires
        offset < 1024,
    ensures
        forall|chunk: &mut TaskChunk<T>|
            #[trigger] call_ensures(TaskChunk::<T>::mark_probably_occupied, (chunk, offset), ())
                && chunk.wf() ==> {
                &&& final(chunk)@.hints == chunk@.hints.update(offset as int, true)
                &&& final(chunk)@.values == chunk@.values
                &&& final(chunk)@.modified_count == chunk@.modified_count
            },
        forall|chunk: &mut TaskChunk<T>|
            #[trigger] call_ensures(TaskChunk::<T>::clear_probably_occupied, (chunk, offset), ())
                && chunk.wf() ==> {
                &&& final(chunk)@.hints == chunk@.hints.update(offset as int, false)
                &&& final(chunk)@.values == chunk@.values
                &&& final(chunk)@.modified_count == chunk@.modified_count
            },
        forall|chunk: &TaskChunk<T>, hint: bool| #[trigger]
            call_ensures(TaskChunk::<T>::is_probably_occupied, (chunk, offset), hint) && chunk.wf()
                ==> hint == chunk@.hints[offset as int],
        forall|chunk: &TaskChunk<T>, count: u64| #[trigger]
            call_ensures(TaskChunk::<T>::modified_count, (chunk,), count) ==> count
                == chunk@.modified_count,
{
}

/// To take a slot of a chunk gives access to its value: what is in it is seen, what is written to it
/// stays, and nothing else changes. The same holds of two slots that are taken at once, and of a slot
/// that is taken together with the modification count.
pub proof fn law_locks<T: TaskSlotValue>(a: usize, b: usize)
    requires
        a < 1024,
        b < 1024,
        a != b,
    ensures
        forall|chunk: &mut TaskChunk<T>, guard: TaskSlotGuard<'_, T>|
            #[trigger] call_ensures(TaskChunk::<T>::lock, (chunk, a), guard) && chunk.wf() ==> {
                &&& guard.slot.value == chunk@.values[a as int]
                &&& final(chunk)@.values == chunk@.values.update(a as int, final(guard.slot).value)
                &&& final(chunk)@.hints == chunk@.hints
                &&& final(chunk)@.modified_count == chunk@.modified_count
            },
        forall|chunk: &mut TaskChunk<T>, guards: (TaskSlotGuard<'_, T>, TaskSlotGuard<'_, T>)|
            #[trigger] call_ensures(TaskChunk::<T>::lock_pair, (chunk, a, b), guards) && chunk.wf()
                ==> {
                &&& guards.0.slot.value == chunk@.values[a as int]
                &&& guards.1.slot.value == chunk@.values[b as int]
                &&& final(chunk)@.values == chunk@.values.update(
                    a as int,
                    final(guards.0.slot).value,
                ).update(b as int, final(guards.1.slot).value)
                &&& final(chunk)@.hints == chunk@.hints
                &&& final(chunk)@.modified_count == chunk@.modified_count
            },
        forall|chunk: &mut TaskChunk<T>, locked: (TaskSlotGuard<'_, T>, &mut u64)|
            #[trigger] call_ensures(TaskChunk::<T>::lock_with_count, (chunk, a), locked)
                && chunk.wf() ==> {
                &&& locked.0.slot.value == chunk@.values[a as int]
                &&& *locked.1 == chunk@.modified_count
                &&& final(chunk)@.values == chunk@.values.update(
                    a as int,
                    final(locked.0.slot).value,
                )
                &&& final(chunk)@.hints == chunk@.hints
                &&& final(chunk)@.modified_count == *final(locked.1)
            },
{
}

/// To clear a chunk vacates every occupied slot that is hinted, with `vacate_in_place`, and leaves
/// the other values alone. No hint stays, and the modification count is zero, whatever it was.
pub proof fn law_clear_chunk<T: TaskSlotValue>()
    ensures
        forall|chunk: &mut TaskChunk<T>|
            #[trigger] call_ensures(TaskChunk::<T>::clear, (chunk,), ()) && chunk.wf() ==> {
                &&& final(chunk)@.modified_count == 0
                &&& final(chunk)@.hints.len() == 1024
                &&& final(chunk)@.values.len() == 1024
                &&& forall|i: int|
                    #![trigger chunk@.values[i]]
                    0 <= i < 1024 ==> {
                        let was = chunk@.values[i];
                        let left = final(chunk)@.values[i];
                        &&& !final(chunk)@.hints[i]
                        &&& if chunk@.hints[i] && was.occupied() {
                            &&& !left.occupied()
                            &&& left.contents() == T::blank()
                            &&& exists|slot: &mut T| #[trigger]
                                call_ensures(T::vacate_in_place, (slot,), ()) && *slot == was
                                    && *final(slot) == left
                        } else {
                            left == was
                        }
                    }
            },
{
}

/// The bit of a word that `bit` speaks of is the binary digit of that weight.
pub proof fn law_bit(word: u64, i: u64)
    requires
        i < 64,
    ensures
        crate::chunk::bit(word, i as int) <==> word & (1u64 << i) != 0,
{
    assert((word >> i) & 1 == 1 <==> word & (1u64 << i) != 0) by (bit_vector)
        requires
            i < 64,
    ;
}

/// A walk has still to visit what is hinted ahead of the words that it has taken, and of the word
/// that it took last what is left of it. What was hinted when it began is all to be visited.
pub proof fn law_walk<T: TaskSlotValue>(
    chunk: &TaskChunk<T>,
    offsets: ProbablyOccupiedOffsets,
    i: int,
)
    requires
        chunk.wf(),
        0 <= i < 1024,
    ensures
        offsets.pending(chunk@.hints)[i] <==> if i >= 64 * offsets.taken() {
            chunk@.hints[i]
        } else {
            i >= 64 * (offsets.taken() - 1) && crate::chunk::bit(offsets.rest(), i % 64)
        },
        offsets.wf() <==> 0 <= offsets.taken() <= 16 && (offsets.taken() == 0 ==> offsets.rest() == 0),
        call_ensures(TaskChunk::<T>::probably_occupied_offsets, (chunk,), offsets)
            ==> offsets.taken() == 0 && offsets.pending(chunk@.hints)[i] == chunk@.hints[i],
{
}

/// The next step of a walk leads to the first slot that it has still to visit, and that slot alone is
/// then visited. The walk ends only where there is none.
pub proof fn law_walk_step<T: TaskSlotValue>(chunk: &TaskChunk<T>)
    requires
        chunk.wf(),
    ensures
        forall|offsets: &mut ProbablyOccupiedOffsets, offset: usize|
            #[trigger] call_ensures(
                ProbablyOccupiedOffsets::next::<T>,
                (offsets, chunk),
                Some(offset),
            ) && offsets.wf() ==> {
                let before = offsets.pending(chunk@.hints);
                let after = final(offsets).pending(chunk@.hints);
                &&& final(offsets).wf()
                &&& final(offsets).taken() == offset as int / 64 + 1
                &&& offset < 1024
                &&& before[offset as int]
                &&& forall|i: int| 0 <= i < offset ==> !#[trigger] before[i]
                &&& after == before.update(offset as int, false)
            },
        forall|offsets: &mut ProbablyOccupiedOffsets|
            #[trigger] call_ensures(
                ProbablyOccupiedOffsets::next::<T>,
                (offsets, chunk),
                None::<usize>,
            ) && offsets.wf() ==> {
                &&& final(offsets).wf()
                &&& final(offsets).taken() == 16
                &&& final(offsets).rest() == 0
                &&& offsets.pending(chunk@.hints) == Seq::new(1024, |i: int| false)
            },
{
}

/// A walk that takes the words by itself visits the bits of a word in ascending order, and asks for
/// the next word when none is left, until there is no more.
pub proof fn law_walk_by_words(bits: u64)
    ensures
        forall|offsets: ProbablyOccupiedOffsets| #[trigger]
            call_ensures(ProbablyOccupiedOffsets::start, (), offsets) ==> {
                &&& offsets.wf()
                &&& offsets.taken() == 0
                &&& offsets.rest() == 0
            },
        forall|offsets: &mut ProbablyOccupiedOffsets| #[trigger]
            call_ensures(ProbablyOccupiedOffsets::take, (offsets, bits), ()) ==> {
                &&& final(offsets).wf()
                &&& final(offsets).taken() == offsets.taken() + 1
                &&& final(offsets).rest() == bits
            },
        forall|offsets: &mut ProbablyOccupiedOffsets, step: WalkStep|
            #[trigger] call_ensures(ProbablyOccupiedOffsets::step, (offsets,), step)
                && offsets.wf() ==> {
                let before = offsets.rest();
                let after = final(offsets).rest();
                &&& final(offsets).wf()
                &&& final(offsets).taken() == offsets.taken()
                &&& match step {
                    WalkStep::Visit(offset) => {
                        let b = offset as int % 64;
                        &&& offset as int / 64 == offsets.taken() - 1
                        &&& crate::chunk::bit(before, b)
                        &&& forall|j: int| 0 <= j < b ==> !#[trigger] crate::chunk::bit(before, j)
                        &&& forall|j: int|
                            0 <= j < 64 ==> #[trigger] crate::chunk::bit(after, j) == (
                            crate::chunk::bit(before, j) && j != b)
                    },
                    WalkStep::Take(word) => {
                        before == 0 && after == 0 && word == offsets.taken() && word < 16
                    },
                    WalkStep::End => before == 0 && after == 0 && offsets.taken() == 16,
                }
            },
{
}

/// A new namespace has no chunk, and counts no task.
pub proof fn law_new_namespace<T: TaskSlotValue>(chunk_capacity: usize, namespace: ChunkedVec<T>)
    requires
        call_ensures(ChunkedVec::<T>::with_chunk_capacity, (chunk_capacity,), namespace),
    ensures
        namespace.wf(),
        namespace@.chunks == Seq::<Option<ChunkView<T>>>::empty(),
        namespace@.len == 0,
{
}

/// What a namespace tells of itself: the chunk of a slot, if it was created, and its count.
pub proof fn law_namespace_readings<T: TaskSlotValue>(namespace: &ChunkedVec<T>, index: usize)
    requires
        namespace.linked(),
    ensures
        forall|chunk: &TaskChunk<T>| #[trigger]
            call_ensures(ChunkedVec::<T>::chunk, (namespace, index), Some(chunk)) ==> {
                &&& index as int / 1024 < namespace@.chunks.len()
                &&& namespace@.chunks[index as int / 1024] == Some(chunk@)
            },
        call_ensures(ChunkedVec::<T>::chunk, (namespace, index), None) ==> {
            index as int / 1024 < namespace@.chunks.len() ==> namespace@.chunks[index as int / 1024]
                is None
        },
        forall|len: usize| #[trigger]
            call_ensures(ChunkedVec::<T>::len, (namespace,), len) ==> len == namespace@.len,
{
}

/// The chunk of a slot is open to changes, together with the count of the namespace: what is in them
/// is seen, what is written to them stays, and nothing else changes.
pub proof fn law_chunk_mut<T: TaskSlotValue>(index: usize)
    ensures
        forall|namespace: &mut ChunkedVec<T>, found: Option<(&mut TaskChunk<T>, &mut usize)>|
            #[trigger] call_ensures(ChunkedVec::<T>::chunk_mut, (namespace, index), found)
                && namespace.linked() ==> {
                let c = index as int / 1024;
                &&& final(namespace).linked()
                &&& found is Some <==> c < namespace@.chunks.len() && namespace@.chunks[c] is Some
                &&& match found {
                    Some((chunk, len)) => {
                        &&& namespace@.chunks[c] == Some(chunk@)
                        &&& *len == namespace@.len
                        &&& final(namespace)@.chunks == namespace@.chunks.update(
                            c,
                            Some(final(chunk)@),
                        )
                        &&& final(namespace)@.len == *final(len)
                    },
                    None => final(namespace)@ == namespace@,
                }
            },
{
}

/// The chunk of a slot is created if it was missing, as a fresh one, and is then open to changes in
/// the same way. The directory reaches just up to it, and no other chunk comes or goes.
pub proof fn law_get_or_create_chunk<T: TaskSlotValue>(index: usize)
    ensures
        forall|namespace: &mut ChunkedVec<T>, found: (&mut TaskChunk<T>, &mut usize)|
            #[trigger] call_ensures(ChunkedVec::<T>::get_or_create_chunk, (namespace, index), found)
                && namespace.linked() ==> {
                let c = index as int / 1024;
                let before = namespace@;
                let after = final(namespace)@;
                let existed = c < before.chunks.len() && before.chunks[c] is Some;
                let chunk = found.0@;
                &&& final(namespace).linked()
                &&& *found.1 == before.len
                &&& after.len == *final(found.1)
                &&& after.chunks.len() == if c < before.chunks.len() {
                    before.chunks.len() as int
                } else {
                    c + 1
                }
                &&& after.chunks[c] == Some(final(found.0)@)
                &&& forall|k: int|
                    0 <= k < after.chunks.len() && k != c ==> #[trigger] after.chunks[k] == if k
                        < before.chunks.len() {
                        before.chunks[k]
                    } else {
                        None
                    }
                &&& existed ==> before.chunks[c] == Some(chunk)
                &&& !existed ==> {
                    &&& chunk.modified_count == 0
                    &&& chunk.hints.len() == 1024
                    &&& chunk.values.len() == 1024
                    &&& forall|i: int|
                        #![trigger chunk.values[i]]
                        0 <= i < 1024 ==> {
                            &&& chunk.hints[i]
                            &&& call_ensures(T::empty, (), chunk.values[i])
                            &&& !chunk.values[i].occupied()
                            &&& chunk.values[i].contents() == T::blank()
                        }
                }
            },
{
    assert forall|namespace: &mut ChunkedVec<T>, found: (&mut TaskChunk<T>, &mut usize)|
        #[trigger] call_ensures(ChunkedVec::<T>::get_or_create_chunk, (namespace, index), found)
            && namespace.linked() implies {
        let c = index as int / 1024;
        let after = final(namespace)@;
        let opened = after.with_chunk(index as int, found.0@).with_len(*found.1);
        &&& 0 <= c < after.chunks.len()
        &&& opened.chunks[c] == Some(found.0@)
        &&& forall|k: int|
            0 <= k < after.chunks.len() && k != c ==> #[trigger] after.chunks[k]
                == opened.chunks[k]
    } by {}
}

/// The chunks of a namespace: all that were created, with their positions, in ascending order.
pub proof fn law_chunks_of_a_namespace<T: TaskSlotValue>(
    namespace: &ChunkedVec<T>,
    created: Vec<(usize, &TaskChunk<T>)>,
)
    requires
        namespace.linked(),
        call_ensures(ChunkedVec::<T>::chunks, (namespace,), created),
    ensures
        forall|i: int|
            #![trigger created@[i]]
            0 <= i < created@.len() ==> {
                &&& created@[i].0 < namespace@.chunks.len()
                &&& namespace@.chunks[created@[i].0 as int] == Some(created@[i].1@)
            },
        forall|i: int, j: int|
            #![trigger created@[i], created@[j]]
            0 <= i < j < created@.len() ==> created@[i].0 < created@[j].0,
        forall|c: int|
            0 <= c < namespace@.chunks.len() && (#[trigger] namespace@.chunks[c]) is Some
                ==> exists|i: int| 0 <= i < created@.len() && (#[trigger] created@[i]).0 == c,
{
    let positions = namespace@.created();
    namespace@.lemma_created_below(namespace@.chunks.len());
    assert forall|i: int| 0 <= i < created@.len() implies (#[trigger] created@[i]).0
        == positions[i] by {
        assert(created@.map_values(|entry: (usize, &TaskChunk<T>)| entry.0 as int)[i]
            == positions[i]);
    }
    assert(created@.len() == positions.len());
    assert forall|c: int|
        0 <= c < namespace@.chunks.len() && (
        #[trigger] namespace@.chunks[c]) is Some implies exists|i: int|
        0 <= i < created@.len() && (#[trigger] created@[i]).0 == c by {
        let i = choose|i: int| 0 <= i < positions.len() && positions[i] == c;
        assert(created@[i].0 == c);
    }
}

/// To clear a namespace is to vacate each of its tasks with `vacate_in_place`, to clear every hint,
/// and to set its count and the modification counts of its chunks to zero, whatever they were.
pub proof fn law_clear_namespace<T: TaskSlotValue>()
    ensures
        forall|namespace: &mut ChunkedVec<T>|
            #[trigger] call_ensures(ChunkedVec::<T>::clear, (namespace,), ()) && namespace.wf() ==> {
                &&& final(namespace).wf()
                &&& final(namespace)@.len == 0
                &&& final(namespace)@.chunks.len() == namespace@.chunks.len()
                &&& forall|c: int|
                    #![trigger namespace@.chunks[c]]
                    0 <= c < namespace@.chunks.len() ==> {
                        let after = final(namespace)@.chunks[c];
                        &&& after is Some <==> namespace@.chunks[c] is Some
                        &&& after is Some ==> {
                            &&& after->0.modified_count == 0
                            &&& after->0.hints.len() == 1024
                            &&& after->0.values.len() == 1024
                        }
                    }
                &&& forall|c: int, i: int|
                    #![trigger namespace@.chunks[c]->0.values[i]]
                    0 <= c < namespace@.chunks.len() && namespace@.chunks[c] is Some && 0 <= i
                        < 1024 ==> {
                        let was = namespace@.chunks[c]->0.values[i];
                        let left = final(namespace)@.chunks[c]->0.values[i];
                        &&& !final(namespace)@.chunks[c]->0.hints[i]
                        &&& !left.occupied()
                        &&& left.contents() == T::blank()
                        &&& !was.occupied() ==> left == was
                        &&& was.occupied() ==> exists|slot: &mut T| #[trigger]
                            call_ensures(T::vacate_in_place, (slot,), ()) && *slot == was
                                && *final(slot) == left
                    }
            },
{
}

/// What a guard shows is what its references lead to.
pub proof fn law_guard_readings<T: TaskSlotValue>()
    ensures
        forall|guard: TaskMapGuard<'_, T>| #[trigger] guard.value() == guard.inner.slot.value,
        forall|guard: TaskMapGuard<'_, T>| #[trigger] guard.count() == *guard.modified_count,
        forall|guard: TaskMapGuard<'_, T>| #[trigger] guard.total() == *guard.len,
        forall|guard: TaskMapGuard<'_, T>|
            #[trigger] guard.holds_task() <==> guard.inner.slot.value.occupied() && *guard.len > 0,
        forall|guard: TaskSlotGuard<'_, T>| #[trigger] guard.value() == guard.slot.value,
{
}

/// A guard that is made for a slot leads to that slot, to the modification count of its chunk, and to
/// the count that it is given.
pub proof fn law_new_guard<T: TaskSlotValue>(key: TaskId, offset: usize)
    requires
        offset < 1024,
    ensures
        forall|chunk: &mut TaskChunk<T>, len: &mut usize, guard: TaskMapGuard<'_, T>|
            #[trigger] call_ensures(TaskMapGuard::<T>::new, (key, chunk, offset, len), guard)
                && chunk.wf() ==> {
                &&& guard.key == key
                &&& guard.inner.slot.value == chunk@.values[offset as int]
                &&& *guard.modified_count == chunk@.modified_count
                &&& *guard.len == *len
                &&& final(chunk)@.hints == chunk@.hints
                &&& final(chunk)@.values == chunk@.values.update(
                    offset as int,
                    final(guard.inner.slot).value,
                )
                &&& final(chunk)@.modified_count == *final(guard.modified_count)
                &&& *final(len) == *final(guard.len)
            },
{
}

/// A guard that gives its task away returns the very value that `take_and_vacate` detaches, leaves
/// what that leaves in the slot, and counts the task out.
pub proof fn law_guard_takes<T: TaskSlotValue>()
    ensures
        forall|guard: TaskMapGuard<'_, T>, detached: T|
            #[trigger] call_ensures(TaskMapGuard::<T>::take_and_vacate, (guard,), detached)
                && guard.holds_task() ==> {
                let left = final(guard.inner.slot).value;
                &&& detached.contents() == guard.inner.slot.value.contents()
                &&& exists|slot: &mut T| #[trigger]
                    call_ensures(T::take_and_vacate, (slot,), detached) && *slot
                        == guard.inner.slot.value && *final(slot) == left
                &&& !left.occupied()
                &&& left.contents() == T::blank()
                &&& *final(guard.modified_count) == *guard.modified_count
                &&& *final(guard.len) == *guard.len - 1
            },
{
}

/// A guard that drops its task does so where it is, with `vacate_in_place`, and counts it out.
pub proof fn law_guard_vacates<T: TaskSlotValue>()
    ensures
        forall|guard: TaskMapGuard<'_, T>|
            #[trigger] call_ensures(TaskMapGuard::<T>::vacate, (guard,), ()) && guard.holds_task()
                ==> {
                let left = final(guard.inner.slot).value;
                &&& exists|slot: &mut T| #[trigger]
                    call_ensures(T::vacate_in_place, (slot,), ()) && *slot
                        == guard.inner.slot.value && *final(slot) == left
                &&& !left.occupied()
                &&& left.contents() == T::blank()
                &&& *final(guard.modified_count) == *guard.modified_count
                &&& *final(guard.len) == *guard.len - 1
            },
{
}

/// Every number but zero is the id of a task, and the id of a transient one if and only if its
/// highest bit is set.
pub proof fn law_task_ids(id: u32, result: Result<TaskId, ZeroTaskId>)
    requires
        call_ensures(TaskId::try_from, (id,), result),
    ensures
        result is Err <==> id == 0,
        result matches Ok(task) ==> {
            &&& task@ == id
            &&& forall|transient: bool| #[trigger]
                call_ensures(TaskId::is_transient, (&task,), transient) ==> transient == (id
                    >= 0x8000_0000)
        },
{
}

/// An entry that can be read is gone on with; else the directory is extended if it counts no more
/// entries than lie before the one that is needed, and else the entry is waited for.
pub proof fn law_growth_step(visible: bool, count: usize, index: usize, step: GrowthStep)
    requires
        call_ensures(growth_step, (visible, count, index), step),
    ensures
        step is Ready <==> visible,
        step is Extend <==> !visible && count <= index,
        step is Wait <==> !visible && count > index,
{
}

/// A well-formed map takes any call, for any id, at any time.
pub proof fn law_map_takes_any_call<T: TaskSlotValue>(key: TaskId, small_preallocation: bool)
    ensures
        call_requires(TaskMap::<T>::new, (small_preallocation,)),
        call_requires(TaskMap::<T>::persistent_chunk_capacity, (small_preallocation,)),
        call_requires(TaskMap::<T>::namespace_and_index, (key,)),
        forall|map: &mut TaskMap<T>|
            map.wf() ==> #[trigger] call_requires(TaskMap::<T>::get, (map, key)),
        forall|map: &mut TaskMap<T>|
            map.wf() ==> #[trigger] call_requires(TaskMap::<T>::get_or_insert, (map, key)),
        forall|map: &mut TaskMap<T>|
            map.wf() ==> #[trigger] call_requires(TaskMap::<T>::remove, (map, key)),
        forall|map: &mut TaskMap<T>|
            map.wf() ==> #[trigger] call_requires(TaskMap::<T>::remove_discard, (map, key)),
        forall|map: &mut TaskMap<T>|
            map.wf() ==> #[trigger] call_requires(TaskMap::<T>::clear, (map,)),
        forall|map: &TaskMap<T>| map.wf() ==> #[trigger] call_requires(TaskMap::<T>::len, (map,)),
        forall|map: &TaskMap<T>| map.wf() ==> #[trigger] call_requires(TaskMap::<T>::chunks, (map,)),
{
}

/// A listed chunk can be looked at, and scanned at each of its slots.
pub proof fn law_listed_chunk_takes_any_call<T: TaskSlotValue>(
    chunk_ref: &TaskChunkRef,
    offset: usize,
)
    requires
        offset < 1024,
    ensures
        forall|map: &TaskMap<T>|
            map.wf() && chunk_ref.names(map@) ==> #[trigger] call_requires(
                TaskChunkRef::chunk::<T>,
                (chunk_ref, map),
            ),
        forall|map: &mut TaskMap<T>|
            map.wf() && chunk_ref.names(map@) ==> #[trigger] call_requires(
                TaskChunkRef::get::<T>,
                (chunk_ref, map, offset),
            ),
        chunk_ref.base_id + offset < 0x8000_0000 && (chunk_ref.transient || chunk_ref.base_id
            + offset != 0) ==> call_requires(TaskChunkRef::task_id, (chunk_ref, offset)),
{
}

/// A chunk takes any call at any of its slots, and two different slots can be taken at once.
pub proof fn law_chunk_takes_any_call<T: TaskSlotValue>(a: usize, b: usize)
    requires
        a < 1024,
        b < 1024,
        a != b,
    ensures
        call_requires(TaskChunk::<T>::new, ()),
        forall|chunk: &mut TaskChunk<T>|
            chunk.wf() ==> #[trigger] call_requires(
                TaskChunk::<T>::mark_probably_occupied,
                (chunk, a),
            ),
        forall|chunk: &mut TaskChunk<T>|
            chunk.wf() ==> #[trigger] call_requires(
                TaskChunk::<T>::clear_probably_occupied,
                (chunk, a),
            ),
        forall|chunk: &TaskChunk<T>|
            chunk.wf() ==> #[trigger] call_requires(
                TaskChunk::<T>::is_probably_occupied,
                (chunk, a),
            ),
        forall|chunk: &mut TaskChunk<T>|
            chunk.wf() ==> #[trigger] call_requires(TaskChunk::<T>::lock, (chunk, a)),
        forall|chunk: &mut TaskChunk<T>|
            chunk.wf() ==> #[trigger] call_requires(TaskChunk::<T>::lock_with_count, (chunk, a)),
        forall|chunk: &mut TaskChunk<T>|
            chunk.wf() ==> #[trigger] call_requires(TaskChunk::<T>::lock_pair, (chunk, a, b)),
        forall|chunk: &mut TaskChunk<T>|
            chunk.wf() ==> #[trigger] call_requires(TaskChunk::<T>::clear, (chunk,)),
{
}

/// A namespace takes any call, for any index.
pub proof fn law_namespace_takes_any_call<T: TaskSlotValue>(index: usize)
    ensures
        forall|namespace: &ChunkedVec<T>|
            namespace.wf() ==> #[trigger] call_requires(ChunkedVec::<T>::chunk, (namespace, index)),
        forall|namespace: &mut ChunkedVec<T>|
            namespace.wf() ==> #[trigger] call_requires(
                ChunkedVec::<T>::chunk_mut,
                (namespace, index),
            ),
        forall|namespace: &mut ChunkedVec<T>|
            namespace.wf() ==> #[trigger] call_requires(
                ChunkedVec::<T>::get_or_create_chunk,
                (namespace, index),
            ),
        forall|namespace: &ChunkedVec<T>|
            namespace.wf() ==> #[trigger] call_requires(ChunkedVec::<T>::chunks, (namespace,)),
        forall|namespace: &mut ChunkedVec<T>|
            namespace.wf() ==> #[trigger] call_requires(ChunkedVec::<T>::clear, (namespace,)),
{
}

/// The decisions that take plain values can be asked for with any.
pub proof fn law_decisions_take_any_call(
    num_workers: Option<usize>,
    small_preallocation: bool,
    available_parallelism: Option<usize>,
    visible: bool,
    count: usize,
    index: usize,
    id: u32,
)
    ensures
        call_requires(
            compute_snapshot_shard_amount,
            (num_workers, small_preallocation, available_parallelism),
        ),
        call_requires(growth_step, (visible, count, index)),
        call_requires(TaskId::try_from, (id,)),
{
}

} // verus!
