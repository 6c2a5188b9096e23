//! The map from task ids to task values.

use vstd::prelude::*;

use crate::chunk::{ChunkView, TaskChunk, CHUNK_SHIFT, CHUNK_SIZE};
use crate::directory::MAX_CHUNKS;
use crate::guard::TaskMapGuard;
use crate::namespace::{ChunkedVec, NamespaceView};
use crate::slot::TaskSlotValue;
use crate::task_id::{TaskId, TRANSIENT_TASK_BIT};

verus! {

/// What a map holds.
#[verifier::ext_equal]
pub struct MapView<T: TaskSlotValue> {
    pub persistent: NamespaceView<T>,
    pub transient: NamespaceView<T>,
}

impl<T: TaskSlotValue> MapView<T> {
    pub open spec fn namespace(self, transient: bool) -> NamespaceView<T> {
        if transient {
            self.transient
        } else {
            self.persistent
        }
    }

    pub open spec fn with_namespace(self, transient: bool, namespace: NamespaceView<T>) -> Self {
        if transient {
            MapView { transient: namespace, ..self }
        } else {
            MapView { persistent: namespace, ..self }
        }
    }

    /// Both namespaces are well-formed, and no slot is occupied that no id names.
    pub open spec fn wf(self) -> bool {
        &&& self.persistent.wf()
        &&& self.transient.wf()
        &&& !self.persistent.occupied_at(0)
    }

    /// Whether the map has the task `key`.
    pub open spec fn has(self, key: TaskId) -> bool {
        self.namespace(key.transient()).occupied_at(key.index())
    }

    /// The ids of all tasks of the map.
    pub open spec fn ids(self) -> Set<u32> {
        Set::new(
            |id: u32|
                self.namespace(crate::task_id::transient_id(id)).occupied_at(
                    crate::task_id::index_of_id(id),
                ),
        )
    }

    /// The value of the task `key`.
    pub open spec fn value(self, key: TaskId) -> T {
        self.namespace(key.transient()).value_at(key.index())
    }

    /// Whether a scan would look at the slot of `key`.
    pub open spec fn hinted(self, key: TaskId) -> bool {
        self.namespace(key.transient()).hinted_at(key.index())
    }

    /// The modification count of the chunk of `key`, zero where there is no chunk.
    pub open spec fn modified_count(self, key: TaskId) -> u64 {
        match self.namespace(key.transient()).chunk_of(key.index()) {
            Some(chunk) => chunk.modified_count,
            None => 0,
        }
    }

    /// The number of tasks in the namespace of `key`, as counted.
    pub open spec fn total(self, key: TaskId) -> usize {
        self.namespace(key.transient()).len
    }

    /// This map with another value for `key`, whose chunk exists, and with other counts.
    pub open spec fn with_entry(
        self,
        key: TaskId,
        value: T,
        modified_count: u64,
        len: usize,
    ) -> Self {
        self.with_namespace(
            key.transient(),
            self.namespace(key.transient()).with_entry(key.index(), value, modified_count, len),
        )
    }

    /// `after` is this map with a hinted value for `key`, in a chunk that is created if it was
    /// missing, and with other counts.
    pub open spec fn inserted(
        self,
        key: TaskId,
        value: T,
        modified_count: u64,
        len: usize,
        after: Self,
    ) -> bool {
        &&& after.namespace(!key.transient()) == self.namespace(!key.transient())
        &&& self.namespace(key.transient()).inserted(
            key.index(),
            value,
            modified_count,
            len,
            after.namespace(key.transient()),
        )
    }

    /// The chunks of the map: first those of persistent tasks, then those of transient ones, each
    /// in ascending order.
    pub open spec fn chunk_refs(self) -> Seq<TaskChunkRef> {
        refs_to(self.persistent, false) + refs_to(self.transient, true)
    }

    /// `after` is this map with every slot vacated. The chunks stay.
    pub open spec fn cleared(self, after: Self) -> bool {
        &&& self.persistent.cleared(after.persistent)
        &&& self.transient.cleared(after.transient)
    }
}

impl<T: TaskSlotValue> MapView<T> {
    /// A value that is written for a task is the one that is read for it.
    pub proof fn lemma_entry_value(self, key: TaskId)
        requires
            self.wf(),
        ensures
            self.namespace(key.transient()).chunk_of(key.index()) is Some ==> forall|
                value: T,
                modified_count: u64,
                len: usize,
            | (#[trigger] self.with_entry(key, value, modified_count, len)).value(key) == value,
    {
        let namespace = self.namespace(key.transient());
        if namespace.chunk_of(key.index()) is Some {
            assert forall|value: T, modified_count: u64, len: usize|
                (#[trigger] self.with_entry(key, value, modified_count, len)).value(key)
                    == value by {
                namespace.lemma_with_entry(key.index(), value, modified_count, len);
            }
        }
    }

    /// A map stays well-formed when a task gets another occupied value, and when it is vacated and
    /// counted out.
    pub proof fn lemma_entry_wf(self, key: TaskId)
        requires
            self.wf(),
            key@ != 0,
        ensures
            forall|value: T, modified_count: u64, len: usize|
                self.has(key) && crate::guard::settled(value, len, self.total(key)) ==> (
                #[trigger] self.with_entry(key, value, modified_count, len)).wf(),
    {
        let namespace = self.namespace(key.transient());
        assert forall|value: T, modified_count: u64, len: usize|
            self.has(key) && crate::guard::settled(value, len, self.total(key)) implies (
        #[trigger] self.with_entry(key, value, modified_count, len)).wf() by {
            namespace.lemma_with_entry_wf(key.index(), value, modified_count, len);
            namespace.lemma_with_entry(key.index(), value, modified_count, len);
            assert(key.index() != 0 ==> namespace.with_entry(
                key.index(),
                value,
                modified_count,
                len,
            ).occupied_at(0) == namespace.occupied_at(0));
        }
    }

    /// A map stays well-formed when a task is inserted and counted in, and when it is then vacated
    /// and counted out.
    pub proof fn lemma_inserted_wf(self, key: TaskId)
        requires
            self.wf(),
            key@ != 0,
        ensures
            forall|value: T, modified_count: u64, len: usize, after: Self|
                #[trigger] self.inserted(key, value, modified_count, len, after)
                    && crate::guard::settled(
                    value,
                    len,
                    if self.has(key) {
                        self.total(key)
                    } else {
                        (self.total(key) + 1) as usize
                    },
                ) ==> after.wf(),
    {
        let namespace = self.namespace(key.transient());
        assert forall|value: T, modified_count: u64, len: usize, after: Self|
            #[trigger] self.inserted(key, value, modified_count, len, after)
                && crate::guard::settled(
                value,
                len,
                if self.has(key) {
                    self.total(key)
                } else {
                    (self.total(key) + 1) as usize
                },
            ) implies after.wf() by {
            namespace.lemma_occupied_indices();
            let changed = after.namespace(key.transient());
            namespace.lemma_inserted_wf(key.index(), value, modified_count, len, changed);
            namespace.lemma_inserted(key.index(), value, modified_count, len, changed);
            assert(key.index() != 0 ==> changed.occupied_at(0) == namespace.occupied_at(0));
            assert(after.namespace(!key.transient()) == self.namespace(!key.transient()));
        }
    }

    /// The number of tasks fits into 32 bits.
    pub proof fn lemma_len(self)
        requires
            self.wf(),
        ensures
            self.persistent.len + self.transient.len <= u32::MAX,
    {
        self.transient.lemma_occupied_indices();
        self.persistent.lemma_occupied_indices();
        let range = vstd::set_lib::set_int_range(1, MAX_CHUNKS * CHUNK_SIZE);
        vstd::set_lib::lemma_int_range(1, MAX_CHUNKS * CHUNK_SIZE);
        assert(self.persistent.occupied_indices().subset_of(range));
        vstd::set_lib::lemma_len_subset(self.persistent.occupied_indices(), range);
    }
}

pub struct TaskMap<T: TaskSlotValue> {
    persistent: ChunkedVec<T>,
    transient: ChunkedVec<T>,
}

impl<T: TaskSlotValue> View for TaskMap<T> {
    type V = MapView<T>;

    closed spec fn view(&self) -> MapView<T> {
        MapView { persistent: self.persistent@, transient: self.transient@ }
    }
}

impl<T: TaskSlotValue> TaskMap<T> {
    pub closed spec fn linked(&self) -> bool {
        &&& self.persistent.linked()
        &&& self.transient.linked()
    }

    pub open spec fn wf(&self) -> bool {
        &&& self.linked()
        &&& self@.wf()
    }

    /// How many chunks take up memory.
    pub closed spec fn stored_chunks(&self) -> nat {
        self.persistent.stored_chunks() + self.transient.stored_chunks()
    }

    /// The chunks that take up memory are those of both namespaces.
    proof fn law_stored_chunks_are_owned(&self)
        ensures
            self.stored_chunks() == self.persistent.stored_chunks()
                + self.transient.stored_chunks(),
    {
    }

    /// Memory is taken up by the listed chunks, and by no others.
    pub proof fn law_only_listed_chunks_are_stored(&self)
        requires
            self.wf(),
        ensures
            self.stored_chunks() == self@.chunk_refs().len(),
    {
        self.persistent.law_only_created_chunks_are_stored();
        self.transient.law_only_created_chunks_are_stored();
    }

    /// How many chunks of persistent tasks to make room for in advance.
    pub fn persistent_chunk_capacity(small_preallocation: bool) -> (capacity: usize)
        ensures
            small_preallocation ==> capacity == 1,
            !small_preallocation ==> capacity * CHUNK_SIZE == 1024 * 1024,
    {
        if small_preallocation {
            1
        } else {
            (1024 * 1024) / CHUNK_SIZE
        }
    }

    /// An empty map. A small preallocation saves memory where few tasks are expected.
    pub fn new(small_preallocation: bool) -> (map: Self)
        ensures
            map.wf(),
            map@.persistent.chunks.len() == 0,
            map@.persistent.len == 0,
            map@.transient.chunks.len() == 0,
            map@.transient.len == 0,
    {
        TaskMap {
            persistent: ChunkedVec::with_chunk_capacity(
                Self::persistent_chunk_capacity(small_preallocation),
            ),
            transient: ChunkedVec::with_chunk_capacity(1),
        }
    }

    /// Whether a task is stored in the transient namespace, and where in its namespace.
    pub fn namespace_and_index(key: TaskId) -> (place: (bool, usize))
        ensures
            place.0 == key.transient(),
            place.1 == key.index(),
            place.1 < MAX_CHUNKS * CHUNK_SIZE,
            key@ != 0,
    {
        let raw: usize = *key as usize;
        let index: usize = raw & !(TRANSIENT_TASK_BIT as usize);
        assert(index == if raw >= 0x8000_0000 {
            raw - 0x8000_0000
        } else {
            raw as int
        }) by (bit_vector)
            requires
                raw <= 0xffff_ffff,
                index == raw & !(0x8000_0000u32 as usize),
        ;
        (key.is_transient(), index)
    }

    fn namespace_mut(&mut self, transient: bool) -> (namespace: &mut ChunkedVec<T>)
        ensures
            *namespace == if transient {
                old(self).transient
            } else {
                old(self).persistent
            },
            *final(self) == if transient {
                TaskMap { transient: *final(namespace), ..*old(self) }
            } else {
                TaskMap { persistent: *final(namespace), ..*old(self) }
            },
    {
        if transient {
            &mut self.transient
        } else {
            &mut self.persistent
        }
    }

    /// The task `key`, if the map has it.
    pub fn get(&mut self, key: TaskId) -> (found: Option<TaskMapGuard<'_, T>>)
        requires
            old(self).wf(),
        ensures
            match found {
                Some(guard) => {
                    &&& old(self)@.has(key)
                    &&& guard.key == key
                    &&& guard.holds_task()
                    &&& guard.value() == old(self)@.value(key)
                    &&& guard.count() == old(self)@.modified_count(key)
                    &&& guard.total() == old(self)@.total(key)
                    &&& final(self)@ == old(self)@.with_entry(
                        key,
                        final(guard.inner.slot).value,
                        *final(guard.modified_count),
                        *final(guard.len),
                    )
                    &&& crate::guard::settled(
                        final(guard.inner.slot).value,
                        *final(guard.len),
                        guard.total(),
                    ) ==> final(self).wf()
                },
                None => {
                    &&& !old(self)@.has(key)
                    &&& final(self)@ == old(self)@
                    &&& final(self).wf()
                },
            },
    {
        let (transient, index) = Self::namespace_and_index(key);
        proof {
            self@.lemma_entry_wf(key);
            self@.namespace(transient).lemma_unchanged_entry(index as int);
        }
        let offset: usize = index % CHUNK_SIZE;
        match self.namespace_mut(transient).chunk_mut(index) {
            Some((chunk, len)) => {
                if !chunk.is_probably_occupied(offset) {
                    return None;
                }
                let guard = TaskMapGuard::new(key, chunk, offset, len);
                if !guard.is_occupied() {
                    // Point misses leave stale hints alone; scans clean them up. A task that is
                    // inserted after a miss then finds its hint set.
                    return None;
                }
                Some(guard)
            },
            None => None,
        }
    }

    /// The task `key`, inserted with blank contents if the map does not have it.
    pub fn get_or_insert(&mut self, key: TaskId) -> (guard: TaskMapGuard<'_, T>)
        requires
            old(self).wf(),
        ensures
            guard.key == key,
            guard.holds_task(),
            guard.count() == old(self)@.modified_count(key),
            if old(self)@.has(key) {
                &&& guard.value() == old(self)@.value(key)
                &&& guard.total() == old(self)@.total(key)
            } else {
                &&& guard.value().contents() == T::blank()
                &&& guard.total() == old(self)@.total(key) + 1
                &&& exists|slot: &mut T| #[trigger]
                    call_ensures(T::occupy, (slot,), ()) && *final(slot) == guard.value() && if old(
                        self,
                    )@.namespace(key.transient()).chunk_of(key.index()) is Some {
                        *slot == old(self)@.value(key)
                    } else {
                        call_ensures(T::empty, (), *slot)
                    }
            },
            old(self)@.inserted(
                key,
                final(guard.inner.slot).value,
                *final(guard.modified_count),
                *final(guard.len),
                final(self)@,
            ),
            crate::guard::settled(
                final(guard.inner.slot).value,
                *final(guard.len),
                guard.total(),
            ) ==> final(self).wf(),
    {
        let (transient, index) = Self::namespace_and_index(key);
        let ghost before = self@.namespace(transient);
        proof {
            before.lemma_unchanged_entry(index as int);
            before.lemma_occupied_indices();
        }
        let offset: usize = index % CHUNK_SIZE;
        let (chunk, len) = self.namespace_mut(transient).get_or_create_chunk(index);
        let ghost opened = chunk@;
        if !chunk.lock(offset).is_occupied() {
            // Set the hint first, so that no occupied slot is ever without one.
            if !chunk.is_probably_occupied(offset) {
                chunk.mark_probably_occupied(offset);
            }
            chunk.lock(offset).occupy();
            *len = *len + 1;
        }
        proof {
            let now = chunk@;
            let total = *len;
            assert forall|after: NamespaceView<T>|
                before.opened(
                    index as int,
                    (#[trigger] after.with_chunk(index as int, opened)).with_len(before.len),
                ) && after.chunk_of(index as int) == Some(
                    now.with_value(offset as int, after.value_at(index as int)).with_modified_count(
                        after.chunk_of(index as int)->0.modified_count,
                    ),
                ) implies {
                let value = after.value_at(index as int);
                let modified_count = after.chunk_of(index as int)->0.modified_count;
                &&& before.inserted(index as int, value, modified_count, after.len, after)
                &&& crate::guard::settled(value, after.len, total) ==> {
                    &&& after.wf()
                    &&& index != 0 ==> after.occupied_at(0) == before.occupied_at(0)
                }
            } by {
                let value = after.value_at(index as int);
                let modified_count = after.chunk_of(index as int)->0.modified_count;
                assert(now.with_value(offset as int, value).with_modified_count(modified_count)
                    =~= opened.with_hint(offset as int, true).with_value(
                    offset as int,
                    value,
                ).with_modified_count(modified_count));
                before.lemma_opened_inserted(index as int, opened, value, modified_count, after);
                before.lemma_inserted(index as int, value, modified_count, after.len, after);
                if crate::guard::settled(value, after.len, total) {
                    before.lemma_inserted_wf(index as int, value, modified_count, after.len, after);
                }
            }
        }
        TaskMapGuard::new(key, chunk, offset, len)
    }

    /// Removes the task `key` and returns what it held.
    pub fn remove(&mut self, key: TaskId) -> (removed: Option<T>)
        requires
            old(self).wf(),
        ensures
            final(self).wf(),
            match removed {
                Some(detached) => {
                    &&& old(self)@.has(key)
                    &&& detached.contents() == old(self)@.value(key).contents()
                    &&& crate::slot::vacant(final(self)@.value(key))
                    &&& final(self)@ == old(self)@.with_entry(
                        key,
                        final(self)@.value(key),
                        old(self)@.modified_count(key),
                        (old(self)@.total(key) - 1) as usize,
                    )
                },
                None => !old(self)@.has(key) && final(self)@ == old(self)@,
            },
            removed is Some ==> exists|slot: &mut T, detached: T| #[trigger]
                call_ensures(T::take_and_vacate, (slot,), detached) && removed == Some(detached)
                    && *slot == old(self)@.value(key) && *final(slot) == final(self)@.value(key),
    {
        proof {
            old(self)@.lemma_entry_value(key);
        }
        match self.get(key) {
            Some(guard) => Some(guard.take_and_vacate()),
            None => None,
        }
    }

    /// Removes the task `key` and drops what it held. Returns whether there was such a task.
    pub fn remove_discard(&mut self, key: TaskId) -> (removed: bool)
        requires
            old(self).wf(),
        ensures
            final(self).wf(),
            removed == old(self)@.has(key),
            removed ==> {
                &&& crate::slot::vacant(final(self)@.value(key))
                &&& exists|slot: &mut T| #[trigger]
                    call_ensures(T::vacate_in_place, (slot,), ()) && *slot == old(self)@.value(key)
                        && *final(slot) == final(self)@.value(key)
                &&& final(self)@ == old(self)@.with_entry(
                    key,
                    final(self)@.value(key),
                    old(self)@.modified_count(key),
                    (old(self)@.total(key) - 1) as usize,
                )
            },
            !removed ==> final(self)@ == old(self)@,
    {
        proof {
            old(self)@.lemma_entry_value(key);
        }
        match self.get(key) {
            Some(guard) => {
                guard.vacate();
                true
            },
            None => false,
        }
    }

    /// The number of tasks.
    pub fn len(&self) -> (len: usize)
        requires
            self.wf(),
        ensures
            len == self@.persistent.len + self@.transient.len,
    {
        proof {
            self@.lemma_len();
        }
        self.persistent.len() + self.transient.len()
    }

    /// Removes all tasks.
    pub fn clear(&mut self)
        requires
            old(self).wf(),
        ensures
            final(self).wf(),
            old(self)@.cleared(final(self)@),
            forall|c: int, i: int|
                #![trigger old(self)@.persistent.chunks[c]->0.values[i]]
                0 <= c < old(self)@.persistent.chunks.len() && old(self)@.persistent.chunks[c] is Some && 0 <= i < CHUNK_SIZE && old(
                    self,
                )@.persistent.chunks[c]->0.values[i].occupied() ==> exists|slot: &mut T| #[trigger]
                    call_ensures(T::vacate_in_place, (slot,), ()) && *slot == old(
                        self,
                    )@.persistent.chunks[c]->0.values[i] && *final(slot) == final(self)@.persistent.chunks[c]->0.values[i],
            forall|c: int, i: int|
                #![trigger old(self)@.transient.chunks[c]->0.values[i]]
                0 <= c < old(self)@.transient.chunks.len() && old(self)@.transient.chunks[c] is Some && 0 <= i < CHUNK_SIZE && old(
                    self,
                )@.transient.chunks[c]->0.values[i].occupied() ==> exists|slot: &mut T| #[trigger]
                    call_ensures(T::vacate_in_place, (slot,), ()) && *slot == old(
                        self,
                    )@.transient.chunks[c]->0.values[i] && *final(slot) == final(self)@.transient.chunks[c]->0.values[i],
    {
        proof {
            assert forall|after: NamespaceView<T>| #[trigger]
                old(self)@.persistent.cleared(after) implies !after.occupied_at(0) by {
                old(self)@.persistent.lemma_cleared(after);
            }
        }
        self.persistent.clear();
        self.transient.clear();
    }

    /// The chunks of the map: first those of persistent tasks, then those of transient ones, each
    /// in ascending order.
    pub fn chunks(&self) -> (refs: Vec<TaskChunkRef>)
        requires
            self.wf(),
        ensures
            refs@ == self@.chunk_refs(),
    {
        let mut refs: Vec<TaskChunkRef> = Vec::new();
        Self::append_refs(&self.persistent, false, &mut refs);
        Self::append_refs(&self.transient, true, &mut refs);
        refs
    }

    /// Appends the chunks of one namespace to `refs`.
    fn append_refs(namespace: &ChunkedVec<T>, transient: bool, refs: &mut Vec<TaskChunkRef>)
        requires
            namespace.wf(),
        ensures
            final(refs)@ == old(refs)@ + refs_to(namespace@, transient),
    {
        let chunks = namespace.chunks();
        let ghost created = namespace@.created();
        let ghost appended = refs_to(namespace@, transient);
        proof {
            namespace@.lemma_created_below(namespace@.chunks.len());
            assert forall|i: int| 0 <= i < chunks@.len() implies (#[trigger] chunks@[i]).0
                == created[i] by {
                assert(chunks@.map_values(|entry: (usize, &TaskChunk<T>)| entry.0 as int)[i]
                    == created[i]);
            }
            assert(refs@ =~= old(refs)@ + appended.take(0));
        }
        let mut next: usize = 0;
        while next < chunks.len()
            invariant
                next <= chunks.len(),
                created == namespace@.created(),
                appended == refs_to(namespace@, transient),
                chunks@.len() == created.len(),
                forall|i: int| 0 <= i < chunks@.len() ==> (#[trigger] chunks@[i]).0 == created[i],
                forall|i: int| 0 <= i < created.len() ==> 0 <= #[trigger] created[i] < MAX_CHUNKS,
                refs@ == old(refs)@ + appended.take(next as int),
            decreases chunks.len() - next,
        {
            let (index, _) = chunks[next];
            assert(chunks@[next as int].0 == created[next as int]);
            assert(index << 10usize == index * 1024) by (bit_vector)
                requires
                    index < 0x20_0000,
            ;
            refs.push(TaskChunkRef { base_id: index << CHUNK_SHIFT, transient });
            next = next + 1;
            assert(appended.take(next as int) =~= appended.take(next - 1).push(appended[next - 1]));
            assert(refs@ =~= old(refs)@ + appended.take(next as int));
        }
        assert(appended.take(chunks.len() as int) =~= appended);
    }
}

/// The chunks of one namespace, in ascending order.
pub open spec fn refs_to<T: TaskSlotValue>(namespace: NamespaceView<T>, transient: bool) -> Seq<
    TaskChunkRef,
> {
    namespace.created().map_values(
        |c: int| TaskChunkRef { base_id: (c * CHUNK_SIZE) as usize, transient },
    )
}

/// A chunk of a map, by the index of its first slot.
#[derive(Clone, Copy, Debug)]
pub struct TaskChunkRef {
    pub base_id: usize,
    pub transient: bool,
}

impl TaskChunkRef {
    /// The chunk exists in `map`.
    pub open spec fn names<T: TaskSlotValue>(self, map: MapView<T>) -> bool {
        &&& self.base_id % CHUNK_SIZE == 0
        &&& map.namespace(self.transient).chunk_of(self.base_id as int) is Some
    }

    /// The chunk itself.
    pub fn chunk<'a, T: TaskSlotValue>(&self, map: &'a TaskMap<T>) -> (chunk: &'a TaskChunk<T>)
        requires
            map.wf(),
            self.names(map@),
        ensures
            map@.namespace(self.transient).chunk_of(self.base_id as int) == Some(chunk@),
    {
        let namespace = if self.transient {
            &map.transient
        } else {
            &map.persistent
        };
        namespace.chunk(self.base_id).unwrap()
    }

    /// The task at `offset` in the chunk, if there is one. A stale hint is cleared on the way.
    #[verifier::spinoff_prover]
    pub fn get<'a, T: TaskSlotValue>(
        &self,
        map: &'a mut TaskMap<T>,
        offset: usize,
    ) -> (found: Option<TaskMapGuard<'a, T>>)
        requires
            old(map).wf(),
            self.names(old(map)@),
            offset < CHUNK_SIZE,
        ensures
            match found {
                Some(guard) => {
                    &&& guard.key.transient() == self.transient
                    &&& guard.key.index() == self.base_id + offset
                    &&& old(map)@.has(guard.key)
                    &&& guard.holds_task()
                    &&& guard.value() == old(map)@.value(guard.key)
                    &&& guard.count() == old(map)@.modified_count(guard.key)
                    &&& guard.total() == old(map)@.total(guard.key)
                    &&& final(map)@ == old(map)@.with_entry(
                        guard.key,
                        final(guard.inner.slot).value,
                        *final(guard.modified_count),
                        *final(guard.len),
                    )
                    &&& crate::guard::settled(
                        final(guard.inner.slot).value,
                        *final(guard.len),
                        guard.total(),
                    ) ==> final(map).wf()
                },
                None => {
                    let namespace = old(map)@.namespace(self.transient);
                    &&& !namespace.occupied_at(self.base_id + offset)
                    &&& final(map)@ == old(map)@.with_namespace(
                        self.transient,
                        namespace.with_hint(self.base_id + offset, false),
                    )
                    &&& final(map).wf()
                },
            },
    {
        let ghost whole = map@;
        let ghost before = map@.namespace(self.transient);
        let ghost index = self.base_id + offset;
        proof {
            assert(index / CHUNK_SIZE as int == self.base_id as int / CHUNK_SIZE as int);
            assert(index % CHUNK_SIZE as int == offset);
            before.lemma_unchanged_entry(index);
            before.lemma_occupied_indices();
            before.lemma_without_hint(index);
        }
        match map.namespace_mut(self.transient).chunk_mut(self.base_id) {
            Some((chunk, len)) => {
                if !chunk.is_probably_occupied(offset) {
                    return None;
                }
                if !chunk.lock(offset).is_occupied() {
                    chunk.clear_probably_occupied(offset);
                    return None;
                }
                assert(before.occupied_at(index));
                let key = self.task_id(offset);
                proof {
                    whole.lemma_entry_wf(key);
                    assert forall|chunk: ChunkView<T>| #[trigger]
                        before.with_chunk(self.base_id as int, chunk) == before.with_chunk(
                            index,
                            chunk,
                        ) by {}
                }
                Some(TaskMapGuard::new(key, chunk, offset, len))
            },
            None => None,
        }
    }

    /// The id of the task at `offset` in the chunk. Occupied slots always have one.
    pub fn task_id(&self, offset: usize) -> (id: TaskId)
        requires
            self.base_id + offset <= usize::MAX,
            self.transient || (self.base_id + offset) as u32 != 0,
        ensures
            id@ == if self.transient {
                (self.base_id + offset) as u32 | TRANSIENT_TASK_BIT
            } else {
                (self.base_id + offset) as u32
            },
            self.base_id + offset < MAX_CHUNKS * CHUNK_SIZE ==> {
                &&& id.transient() == self.transient
                &&& id.index() == self.base_id + offset
            },
    {
        let index: usize = self.base_id + offset;
        let mut raw: u32 = index as u32;
        let ghost low = raw;
        proof {
            assert(low | 0x8000_0000 != 0) by (bit_vector);
            assert(low < 0x8000_0000 ==> (low | 0x8000_0000) == low + 0x8000_0000) by (bit_vector);
        }
        if self.transient {
            raw = raw | TRANSIENT_TASK_BIT;
        }
        TaskId::try_from(raw).unwrap()
    }
}

} // verus!
