//! One namespace of tasks: a directory of chunks.

use vstd::prelude::*;

use crate::chunk::{ChunkView, TaskChunk, CHUNK_SHIFT, CHUNK_SIZE};
use crate::directory::{
    directory_count, directory_get, directory_iter, directory_push, directory_set,
    directory_with_capacity, growth_step, GrowthStep, MAX_CHUNKS,
};
use crate::slot::TaskSlotValue;

verus! {

/// What a namespace holds.
#[verifier::ext_equal]
pub struct NamespaceView<T: TaskSlotValue> {
    /// The chunks by position; `None` where none was created yet.
    pub chunks: Seq<Option<ChunkView<T>>>,
    /// The number of occupied slots, as counted.
    pub len: usize,
}

impl<T: TaskSlotValue> NamespaceView<T> {
    /// The chunk that the slot at `index` belongs to.
    pub open spec fn chunk_of(self, index: int) -> Option<ChunkView<T>> {
        if 0 <= index && (index / CHUNK_SIZE as int) < self.chunks.len() {
            self.chunks[index / CHUNK_SIZE as int]
        } else {
            None
        }
    }

    /// The value at `index`, where its chunk exists.
    pub open spec fn value_at(self, index: int) -> T {
        self.chunk_of(index)->0.values[index % CHUNK_SIZE as int]
    }

    pub open spec fn hinted_at(self, index: int) -> bool {
        &&& self.chunk_of(index) is Some
        &&& self.chunk_of(index)->0.hints[index % CHUNK_SIZE as int]
    }

    pub open spec fn occupied_at(self, index: int) -> bool {
        &&& self.chunk_of(index) is Some
        &&& self.value_at(index).occupied()
    }

    pub open spec fn occupied_indices(self) -> Set<int> {
        Set::new(|index: int| self.occupied_at(index))
    }

    /// Every chunk is consistent, and the count is right.
    pub open spec fn wf(self) -> bool {
        &&& self.chunks.len() <= MAX_CHUNKS
        &&& forall|c: int|
            0 <= c < self.chunks.len() && (#[trigger] self.chunks[c]) is Some ==> {
                &&& self.chunks[c]->0.wf()
                &&& self.chunks[c]->0.consistent()
            }
        &&& self.len == self.occupied_indices().len()
    }

    pub open spec fn with_chunk(self, index: int, chunk: ChunkView<T>) -> Self {
        NamespaceView { chunks: self.chunks.update(index / CHUNK_SIZE as int, Some(chunk)), ..self }
    }

    pub open spec fn with_len(self, len: usize) -> Self {
        NamespaceView { len, ..self }
    }

    /// This namespace with another value at `index`, in a chunk that exists, and with other counts.
    pub open spec fn with_entry(
        self,
        index: int,
        value: T,
        modified_count: u64,
        len: usize,
    ) -> Self {
        self.with_chunk(
            index,
            self.chunk_of(index)->0.with_value(
                index % CHUNK_SIZE as int,
                value,
            ).with_modified_count(modified_count),
        ).with_len(len)
    }

    /// This namespace with another hint at `index`, in a chunk that exists.
    pub open spec fn with_hint(self, index: int, hint: bool) -> Self {
        self.with_chunk(index, self.chunk_of(index)->0.with_hint(index % CHUNK_SIZE as int, hint))
    }

    /// `after` is this namespace with a hinted value at `index`, in a chunk that is created if it
    /// was missing, and with other counts. The directory reaches just far enough; the entries in
    /// between stay empty.
    pub open spec fn inserted(
        self,
        index: int,
        value: T,
        modified_count: u64,
        len: usize,
        after: Self,
    ) -> bool {
        let c = index / CHUNK_SIZE as int;
        let offset = index % CHUNK_SIZE as int;
        &&& after.len == len
        &&& after.chunks.len() == if c < self.chunks.len() {
            self.chunks.len() as int
        } else {
            c + 1
        }
        &&& forall|k: int|
            0 <= k < after.chunks.len() && k != c ==> #[trigger] after.chunks[k] == if k
                < self.chunks.len() {
                self.chunks[k]
            } else {
                None
            }
        &&& after.chunks[c] is Some
        &&& match self.chunk_of(index) {
            Some(before) => after.chunks[c]->0 == before.with_hint(offset, true).with_value(
                offset,
                value,
            ).with_modified_count(modified_count),
            None => {
                let chunk = after.chunks[c]->0;
                &&& chunk.wf()
                &&& chunk.modified_count == modified_count
                &&& chunk.values[offset] == value
                &&& forall|i: int| 0 <= i < CHUNK_SIZE ==> #[trigger] chunk.hints[i]
                &&& forall|i: int|
                    #![trigger chunk.values[i]]
                    0 <= i < CHUNK_SIZE && i != offset ==> {
                        &&& crate::slot::vacant(chunk.values[i])
                        &&& call_ensures(T::empty, (), chunk.values[i])
                    }
            },
        }
    }

    /// The positions of the chunks that were created, in ascending order.
    pub open spec fn created(self) -> Seq<int> {
        self.created_below(self.chunks.len())
    }

    pub open spec fn created_below(self, end: nat) -> Seq<int>
        decreases end,
    {
        if end == 0 {
            Seq::empty()
        } else {
            let below = self.created_below((end - 1) as nat);
            if self.chunks[end - 1] is Some {
                below.push(end - 1)
            } else {
                below
            }
        }
    }

    /// `after` is this namespace with every slot vacated. The chunks stay.
    pub open spec fn cleared(self, after: Self) -> bool {
        &&& after.len == 0
        &&& after.chunks.len() == self.chunks.len()
        &&& forall|c: int|
            #![trigger after.chunks[c]]
            0 <= c < self.chunks.len() ==> match self.chunks[c] {
                Some(chunk) => after.chunks[c] is Some && chunk.cleared(after.chunks[c]->0),
                None => after.chunks[c] is None,
            }
    }

    /// `after` is this namespace once the chunk of the slot at `index` has been created, if it was
    /// missing. The directory reaches just far enough; the entries in between stay empty.
    pub open spec fn opened(self, index: int, after: Self) -> bool {
        let c = index / CHUNK_SIZE as int;
        &&& after.len == self.len
        &&& after.chunks.len() == if c < self.chunks.len() {
            self.chunks.len() as int
        } else {
            c + 1
        }
        &&& forall|k: int|
            0 <= k < after.chunks.len() && k != c ==> #[trigger] after.chunks[k] == if k
                < self.chunks.len() {
                self.chunks[k]
            } else {
                None
            }
        &&& if self.chunk_of(index) is Some {
            after.chunks[c] == self.chunks[c]
        } else {
            &&& after.chunks[c] is Some
            &&& after.chunks[c]->0.fresh()
        }
    }
}

impl<T: TaskSlotValue> NamespaceView<T> {
    /// The occupied indices are finitely many, and below the limit of a namespace.
    pub proof fn lemma_occupied_indices(self)
        requires
            self.chunks.len() <= MAX_CHUNKS,
        ensures
            self.occupied_indices().finite(),
            self.occupied_indices().len() <= MAX_CHUNKS * CHUNK_SIZE,
            forall|index: int| #[trigger]
                self.occupied_at(index) ==> 0 <= index < MAX_CHUNKS * CHUNK_SIZE,
    {
        let range = vstd::set_lib::set_int_range(0, MAX_CHUNKS * CHUNK_SIZE);
        vstd::set_lib::lemma_int_range(0, MAX_CHUNKS * CHUNK_SIZE);
        assert forall|index: int| #[trigger] self.occupied_at(index) implies 0 <= index < MAX_CHUNKS
            * CHUNK_SIZE by {
            assert(index / CHUNK_SIZE as int * CHUNK_SIZE + index % CHUNK_SIZE as int == index);
        }
        assert(self.occupied_indices().subset_of(range));
        vstd::set_lib::lemma_len_subset(self.occupied_indices(), range);
    }

    /// Where two namespaces agree on all slots but one, so do their occupied indices.
    pub proof fn lemma_one_slot(self, after: Self, index: int)
        requires
            self.chunks.len() <= MAX_CHUNKS,
            forall|i: int| i != index ==> #[trigger] self.occupied_at(i) == after.occupied_at(i),
        ensures
            after.occupied_indices() == if after.occupied_at(index) {
                self.occupied_indices().insert(index)
            } else {
                self.occupied_indices().remove(index)
            },
            after.occupied_indices().len() == self.occupied_indices().len() + (
            if after.occupied_at(index) {
                1int
            } else {
                0
            }) - (if self.occupied_at(index) {
                1int
            } else {
                0
            }),
    {
        self.lemma_occupied_indices();
        if after.occupied_at(index) {
            assert(after.occupied_indices() =~= self.occupied_indices().insert(index));
        } else {
            assert(after.occupied_indices() =~= self.occupied_indices().remove(index));
        }
        assert(self.occupied_indices().contains(index) == self.occupied_at(index));
    }

    /// A change of one slot leaves the others alone.
    pub proof fn lemma_with_entry(self, index: int, value: T, modified_count: u64, len: usize)
        requires
            self.wf(),
            self.chunk_of(index) is Some,
        ensures
            ({
                let after = self.with_entry(index, value, modified_count, len);
                &&& after.chunk_of(index) is Some
                &&& after.value_at(index) == value
                &&& forall|i: int|
                    i != index ==> {
                        &&& #[trigger] after.occupied_at(i) == self.occupied_at(i)
                        &&& after.value_at(i) == self.value_at(i)
                    }
                &&& forall|i: int| #[trigger] after.hinted_at(i) == self.hinted_at(i)
            }),
    {
        let after = self.with_entry(index, value, modified_count, len);
        assert forall|i: int| i != index implies {
            &&& #[trigger] after.occupied_at(i) == self.occupied_at(i)
            &&& after.value_at(i) == self.value_at(i)
        } by {
            if i / CHUNK_SIZE as int == index / CHUNK_SIZE as int {
                assert(i % CHUNK_SIZE as int != index % CHUNK_SIZE as int);
            }
        }
    }

    /// A namespace stays well-formed when an occupied slot gets another occupied value, and when it
    /// is vacated and counted out.
    pub proof fn lemma_with_entry_wf(self, index: int, value: T, modified_count: u64, len: usize)
        requires
            self.wf(),
            self.occupied_at(index),
            crate::guard::settled(value, len, self.len),
        ensures
            self.with_entry(index, value, modified_count, len).wf(),
    {
        let after = self.with_entry(index, value, modified_count, len);
        self.lemma_with_entry(index, value, modified_count, len);
        self.lemma_one_slot(after, index);
        assert(self.chunks[index / CHUNK_SIZE as int]->0.consistent());
    }

    /// What is known of a slot whose chunk exists: writing back what it holds changes nothing, a
    /// slot without a hint is vacant, and a namespace with an occupied slot counts at least one.
    pub proof fn lemma_unchanged_entry(self, index: int)
        requires
            self.wf(),
        ensures
            self.occupied_at(index) ==> self.hinted_at(index) && self.len > 0,
            self.chunk_of(index) is Some ==> {
                let chunk = self.chunk_of(index)->0;
                &&& chunk.wf()
                &&& self.with_chunk(index, chunk).with_len(self.len) == self
                &&& self.with_entry(
                    index,
                    self.value_at(index),
                    chunk.modified_count,
                    self.len,
                ) == self
            },
    {
        self.lemma_occupied_indices();
        if self.occupied_at(index) {
            assert(self.occupied_indices().contains(index));
            assert(self.occupied_indices().len() != 0);
        }
        if self.chunk_of(index) is Some {
            let chunk = self.chunk_of(index)->0;
            assert(self.chunks[index / CHUNK_SIZE as int]->0.consistent());
            assert(chunk.values[index % CHUNK_SIZE as int].occupied()
                ==> chunk.hints[index % CHUNK_SIZE as int]);
            assert(self.with_chunk(index, chunk).with_len(self.len) =~= self);
            assert(chunk.with_value(
                index % CHUNK_SIZE as int,
                self.value_at(index),
            ).with_modified_count(chunk.modified_count) =~= chunk);
        }
    }

    /// A namespace stays well-formed when the hint of a vacant slot is cleared.
    pub proof fn lemma_without_hint(self, index: int)
        requires
            self.wf(),
        ensures
            self.chunk_of(index) is Some ==> {
                let after = self.with_hint(index, false);
                &&& !self.hinted_at(index) ==> after == self
                &&& forall|i: int| #[trigger]
                    after.occupied_at(i) == self.occupied_at(i) && after.value_at(i)
                        == self.value_at(i)
                &&& forall|i: int|
                    i != index ==> #[trigger] after.hinted_at(i) == self.hinted_at(i)
                &&& !after.hinted_at(index)
                &&& !self.occupied_at(index) ==> after.wf()
            },
    {
        if self.chunk_of(index) is Some {
            let c = index / CHUNK_SIZE as int;
            let after = self.with_hint(index, false);
            assert forall|i: int| #[trigger]
                after.occupied_at(i) == self.occupied_at(i) && after.value_at(i)
                    == self.value_at(i) by {}
            assert(after.occupied_indices() =~= self.occupied_indices());
            assert(self.chunks[c]->0.consistent());
            assert forall|i: int| i != index implies #[trigger] after.hinted_at(i)
                == self.hinted_at(i) by {
                if i / CHUNK_SIZE as int == c {
                    assert(i % CHUNK_SIZE as int != index % CHUNK_SIZE as int);
                }
            }
            if !self.hinted_at(index) {
                assert(after.chunks[c]->0 =~= self.chunks[c]->0);
                assert(after =~= self);
            }
        }
    }

    /// To open the chunk of a slot and write a hinted value to the slot is an insertion.
    pub proof fn lemma_opened_inserted(
        self,
        index: int,
        opened: ChunkView<T>,
        value: T,
        modified_count: u64,
        after: Self,
    )
        requires
            self.wf(),
            0 <= index,
            self.opened(index, after.with_chunk(index, opened).with_len(self.len)),
            after.chunk_of(index) == Some(
                opened.with_hint(index % CHUNK_SIZE as int, true).with_value(
                    index % CHUNK_SIZE as int,
                    value,
                ).with_modified_count(modified_count),
            ),
        ensures
            self.inserted(index, value, modified_count, after.len, after),
    {
        let c = index / CHUNK_SIZE as int;
        let with_chunk = after.with_chunk(index, opened).with_len(self.len);
        assert(with_chunk.chunks[c] == Some(opened));
        assert forall|k: int|
            0 <= k < after.chunks.len() && k != c implies #[trigger] after.chunks[k] == if k
            < self.chunks.len() {
            self.chunks[k]
        } else {
            None
        } by {
            assert(with_chunk.chunks[k] == after.chunks[k]);
        }
    }

    /// An insertion leaves the other slots alone.
    pub proof fn lemma_inserted(
        self,
        index: int,
        value: T,
        modified_count: u64,
        len: usize,
        after: Self,
    )
        requires
            self.wf(),
            0 <= index,
            self.inserted(index, value, modified_count, len, after),
        ensures
            after.chunk_of(index) is Some,
            after.value_at(index) == value,
            after.hinted_at(index),
            forall|i: int|
                i != index ==> {
                    &&& #[trigger] after.occupied_at(i) == self.occupied_at(i)
                    &&& self.occupied_at(i) ==> after.value_at(i) == self.value_at(i)
                },
    {
        let c = index / CHUNK_SIZE as int;
        assert forall|i: int| i != index implies {
            &&& #[trigger] after.occupied_at(i) == self.occupied_at(i)
            &&& self.occupied_at(i) ==> after.value_at(i) == self.value_at(i)
        } by {
            let d = i / CHUNK_SIZE as int;
            if d == c {
                assert(i % CHUNK_SIZE as int != index % CHUNK_SIZE as int);
            }
        }
    }

    /// A namespace stays well-formed when a task is inserted and counted in, and when it is then
    /// vacated and counted out.
    pub proof fn lemma_inserted_wf(
        self,
        index: int,
        value: T,
        modified_count: u64,
        len: usize,
        after: Self,
    )
        requires
            self.wf(),
            0 <= index < MAX_CHUNKS * CHUNK_SIZE,
            self.inserted(index, value, modified_count, len, after),
            self.len < usize::MAX,
            crate::guard::settled(
                value,
                len,
                if self.occupied_at(index) {
                    self.len
                } else {
                    (self.len + 1) as usize
                },
            ),
        ensures
            after.wf(),
    {
        let c = index / CHUNK_SIZE as int;
        self.lemma_inserted(index, value, modified_count, len, after);
        self.lemma_one_slot(after, index);
        assert(after.chunks[c]->0.consistent()) by {
            if self.chunk_of(index) is Some {
                assert(self.chunks[c]->0.consistent());
            }
        }
    }

    /// The created chunks are listed in ascending order, each of them once, and nothing else is.
    pub proof fn lemma_created_below(self, end: nat)
        requires
            end <= self.chunks.len(),
        ensures
            forall|i: int|
                0 <= i < self.created_below(end).len() ==> {
                    &&& 0 <= #[trigger] self.created_below(end)[i] < end
                    &&& self.chunks[self.created_below(end)[i]] is Some
                },
            forall|i: int, j: int|
                0 <= i < j < self.created_below(end).len() ==> #[trigger] self.created_below(end)[i]
                    < #[trigger] self.created_below(end)[j],
            forall|c: int|
                0 <= c < end && (#[trigger] self.chunks[c]) is Some ==> self.created_below(
                    end,
                ).contains(c),
        decreases end,
    {
        if end > 0 {
            let shorter = self.created_below((end - 1) as nat);
            let list = self.created_below(end);
            self.lemma_created_below((end - 1) as nat);
            assert forall|c: int|
                0 <= c < end && (#[trigger] self.chunks[c]) is Some implies list.contains(c) by {
                if c < end - 1 {
                    let i = choose|i: int| 0 <= i < shorter.len() && shorter[i] == c;
                    assert(list[i] == c);
                } else {
                    assert(list[list.len() - 1] == c);
                }
            }
        }
    }

    /// A namespace with every slot vacated is well-formed and holds nothing.
    pub proof fn lemma_cleared(self, after: Self)
        requires
            self.wf(),
            self.cleared(after),
        ensures
            after.wf(),
            forall|index: int| !#[trigger] after.occupied_at(index),
    {
        assert forall|c: int, i: int|
            0 <= c < after.chunks.len() && after.chunks[c] is Some && 0 <= i
                < CHUNK_SIZE implies crate::slot::vacant(
            #[trigger] after.chunks[c]->0.values[i],
        ) by {
            assert(self.chunks[c]->0.cleared(after.chunks[c]->0));
            assert(self.chunks[c]->0.consistent());
        }
        assert forall|index: int| !#[trigger] after.occupied_at(index) by {
            if after.occupied_at(index) {
                let c = index / CHUNK_SIZE as int;
                assert(crate::slot::vacant(after.chunks[c]->0.values[index % CHUNK_SIZE as int]));
            }
        }
        assert forall|c: int|
            0 <= c < after.chunks.len() && (#[trigger] after.chunks[c]) is Some implies {
            &&& after.chunks[c]->0.wf()
            &&& after.chunks[c]->0.consistent()
        } by {
            assert(self.chunks[c]->0.cleared(after.chunks[c]->0));
        }
        assert(after.occupied_indices() =~= Set::<int>::empty());
    }
}

/// A namespace: the directory, the chunks in the order of their creation, and the number of
/// occupied slots. Each chunk has an allocation of its own, so it stays where it is as the namespace
/// grows.
pub struct ChunkedVec<T: TaskSlotValue> {
    directory: boxcar::Vec<Option<usize>>,
    chunks: Vec<Box<TaskChunk<T>>>,
    len: usize,
}

impl<T: TaskSlotValue> View for ChunkedVec<T> {
    type V = NamespaceView<T>;

    closed spec fn view(&self) -> NamespaceView<T> {
        NamespaceView { chunks: resolve(self.entries(), self.chunks@), len: self.len }
    }
}

/// A directory of `count` entries that grew from `entries`.
spec fn extended(entries: Seq<Option<usize>>, count: int) -> Seq<Option<usize>> {
    Seq::new(
        count as nat,
        |i: int|
            if i < entries.len() {
                entries[i]
            } else {
                None
            },
    )
}

/// An entry of a directory names the chunk at `position` among the stored ones.
spec fn named(entries: Seq<Option<usize>>, position: int) -> bool {
    exists|i: int| 0 <= i < entries.len() && #[trigger] entries[i] == Some(position as usize)
}

/// The chunks that the entries of a directory name.
spec fn resolve<T: TaskSlotValue>(
    entries: Seq<Option<usize>>,
    chunks: Seq<Box<TaskChunk<T>>>,
) -> Seq<Option<ChunkView<T>>> {
    Seq::new(
        entries.len(),
        |i: int|
            match entries[i] {
                Some(position) => Some(chunks[position as int]@),
                None => None,
            },
    )
}

impl<T: TaskSlotValue> ChunkedVec<T> {
    spec fn entries(&self) -> Seq<Option<usize>> {
        crate::directory::directory_entries(self.directory)
    }

    /// How many chunks take up memory.
    pub closed spec fn stored_chunks(&self) -> nat {
        self.chunks@.len()
    }

    /// Each directory entry names a chunk of its own, and no chunk is stored that none names.
    pub closed spec fn linked(&self) -> bool {
        let entries = self.entries();
        &&& forall|i: int|
            #![trigger entries[i]]
            0 <= i < entries.len() && entries[i] is Some ==> entries[i]->0 < self.chunks.len()
        &&& forall|i: int, j: int|
            #![trigger entries[i], entries[j]]
            0 <= i < j < entries.len() && entries[i] is Some ==> entries[i] != entries[j]
        &&& forall|position: int|
            0 <= position < self.chunks.len() ==> #[trigger] named(entries, position)
    }

    /// The chunks that take up memory are those that the namespace owns.
    proof fn law_stored_chunks_are_owned(&self)
        ensures
            self.stored_chunks() == self.chunks@.len(),
    {
    }

    /// Memory is taken up by the chunks that were created for some slot, and by no others.
    pub proof fn law_only_created_chunks_are_stored(&self)
        requires
            self.linked(),
        ensures
            self.stored_chunks() == self@.created().len(),
    {
        let entries = self.entries();
        let created = self@.created();
        let positions = vstd::set_lib::set_int_range(0, self.chunks@.len() as int);
        let position_of = |c: int| entries[c]->0 as int;
        self@.lemma_created_below(self@.chunks.len());
        vstd::set_lib::lemma_int_range(0, self.chunks@.len() as int);
        vstd::seq_lib::seq_to_set_is_finite(created);
        created.unique_seq_to_set();
        assert forall|c: int| #[trigger] created.to_set().contains(c) implies 0 <= c
            < entries.len() && entries[c] is Some by {
            let i = choose|i: int| 0 <= i < created.len() && created[i] == c;
            assert(self@.chunks[created[i]] is Some);
        }
        assert(created.to_set().map(position_of) =~= positions) by {
            assert forall|position: int| #[trigger] positions.contains(position) implies
            created.to_set().map(position_of).contains(position) by {
                assert(named(entries, position));
                let c = choose|c: int|
                    0 <= c < entries.len() && #[trigger] entries[c] == Some(position as usize);
                assert(self@.chunks[c] is Some);
                assert(created.to_set().contains(c));
                assert(position_of(c) == position);
            }
        }
        vstd::set_lib::lemma_map_size(created.to_set(), positions, position_of);
    }

    pub open spec fn wf(&self) -> bool {
        &&& self.linked()
        &&& self@.wf()
    }

    pub fn with_chunk_capacity(chunk_capacity: usize) -> (namespace: Self)
        requires
            chunk_capacity <= MAX_CHUNKS,
        ensures
            namespace.wf(),
            namespace@.chunks.len() == 0,
            namespace@.len == 0,
    {
        let namespace = ChunkedVec {
            directory: directory_with_capacity(chunk_capacity),
            chunks: Vec::new(),
            len: 0,
        };
        assert(namespace@.occupied_indices() =~= Set::<int>::empty());
        namespace
    }

    /// The chunk of the slot at `index`, if it was created.
    pub fn chunk(&self, index: usize) -> (chunk: Option<&TaskChunk<T>>)
        requires
            self.linked(),
        ensures
            match chunk {
                Some(chunk) => self@.chunk_of(index as int) == Some(chunk@),
                None => self@.chunk_of(index as int) is None,
            },
    {
        assert(index >> 10usize == index / 1024) by (bit_vector);
        match directory_get(&self.directory, index >> CHUNK_SHIFT) {
            Some(Some(position)) => Some(&*self.chunks[position]),
            _ => None,
        }
    }

    /// The chunk of the slot at `index`, if it was created, together with the count of occupied
    /// slots, both open to changes.
    pub fn chunk_mut(&mut self, index: usize) -> (found: Option<(&mut TaskChunk<T>, &mut usize)>)
        requires
            old(self).linked(),
        ensures
            final(self).linked(),
            match found {
                Some((chunk, len)) => {
                    &&& old(self)@.chunk_of(index as int) == Some(chunk@)
                    &&& *len == old(self)@.len
                    &&& final(self)@ == old(self)@.with_chunk(
                        index as int,
                        final(chunk)@,
                    ).with_len(*final(len))
                },
                None => {
                    &&& old(self)@.chunk_of(index as int) is None
                    &&& final(self)@ == old(self)@
                },
            },
    {
        assert(index >> 10usize == index / 1024) by (bit_vector);
        match directory_get(&self.directory, index >> CHUNK_SHIFT) {
            Some(Some(position)) => Some((&mut *self.chunks[position], &mut self.len)),
            _ => None,
        }
    }

    /// The chunk of the slot at `index`, created if it was missing, together with the count of
    /// occupied slots.
    pub fn get_or_create_chunk(&mut self, index: usize) -> (found: (&mut TaskChunk<T>, &mut usize))
        requires
            old(self).linked(),
        ensures
            final(self).linked(),
            *found.1 == old(self)@.len,
            old(self)@.opened(
                index as int,
                final(self)@.with_chunk(index as int, found.0@).with_len(*found.1),
            ),
            final(self)@.chunk_of(index as int) == Some(final(found.0)@),
            final(self)@.len == *final(found.1),
    {
        assert(index >> 10usize == index / 1024) by (bit_vector);
        let chunk_index: usize = index >> CHUNK_SHIFT;
        let ghost entries = self.entries();
        assert(entries =~= extended(entries, entries.len() as int));
        loop
            invariant
                chunk_index == index as int / CHUNK_SIZE as int,
                self.chunks == old(self).chunks,
                self.len == old(self).len,
                entries == old(self).entries(),
                entries.len() <= self.entries().len(),
                self.entries().len() <= entries.len() || self.entries().len() <= chunk_index + 1,
                self.entries() == extended(entries, self.entries().len() as int),
            ensures
                self.entries().len() == if chunk_index < entries.len() {
                    entries.len() as int
                } else {
                    chunk_index + 1
                },
            decreases chunk_index + 1 - self.entries().len(),
        {
            let visible: bool = directory_get(&self.directory, chunk_index).is_some();
            match growth_step(visible, directory_count(&self.directory), chunk_index) {
                GrowthStep::Ready => {
                    break;
                },
                GrowthStep::Extend => {
                    directory_push(&mut self.directory, None);
                    assert(self.entries() =~= extended(entries, self.entries().len() as int));
                },
                // Nobody else holds the directory, so no push is ever under way.
                GrowthStep::Wait => {
                    assert(false);
                },
            }
        }
        let position: usize = match directory_get(&self.directory, chunk_index) {
            Some(Some(position)) => position,
            _ => {
                let position: usize = self.chunks.len();
                self.chunks.push(Box::new(TaskChunk::new()));
                directory_set(&mut self.directory, chunk_index, Some(position));
                proof {
                    assert forall|p: int| 0 <= p < self.chunks.len() implies #[trigger] named(
                        self.entries(),
                        p,
                    ) by {
                        if p == position {
                            assert(self.entries()[chunk_index as int] == Some(p as usize));
                        } else {
                            assert(named(entries, p));
                            let i = choose|i: int|
                                0 <= i < entries.len() && #[trigger] entries[i] == Some(p as usize);
                            assert(self.entries()[i] == entries[i]);
                        }
                    }
                }
                position
            },
        };
        (&mut *self.chunks[position], &mut self.len)
    }

    /// The chunks that were created, with their positions, in ascending order.
    pub fn chunks(&self) -> (created: Vec<(usize, &TaskChunk<T>)>)
        requires
            self.linked(),
        ensures
            created@.map_values(|entry: (usize, &TaskChunk<T>)| entry.0 as int) == self@.created(),
            forall|i: int|
                0 <= i < created@.len() ==> self@.chunks[(#[trigger] created@[i]).0 as int] == Some(
                    created@[i].1@,
                ),
    {
        let entries = directory_iter(&self.directory);
        let mut created: Vec<(usize, &TaskChunk<T>)> = Vec::new();
        let mut next: usize = 0;
        while next < entries.len()
            invariant
                self.linked(),
                next <= entries.len(),
                entries@.len() == self@.chunks.len(),
                forall|i: int|
                    0 <= i < entries@.len() ==> #[trigger] entries@[i] == (
                        i as usize,
                        self.entries()[i],
                    ),
                created@.map_values(|entry: (usize, &TaskChunk<T>)| entry.0 as int)
                    == self@.created_below(next as nat),
                forall|i: int|
                    0 <= i < created@.len() ==> self@.chunks[(#[trigger] created@[i]).0 as int]
                        == Some(created@[i].1@),
            decreases entries.len() - next,
        {
            let (index, entry) = entries[next];
            assert(entries@[next as int] == (index, entry));
            if let Some(position) = entry {
                created.push((index, &*self.chunks[position]));
            }
            next = next + 1;
        }
        created
    }

    /// Vacates every slot.
    pub fn clear(&mut self)
        requires
            old(self).wf(),
        ensures
            final(self).wf(),
            old(self)@.cleared(final(self)@),
            forall|c: int, i: int|
                #![trigger old(self)@.chunks[c]->0.values[i]]
                0 <= c < old(self)@.chunks.len() && old(self)@.chunks[c] is Some && 0 <= i < CHUNK_SIZE && old(
                    self,
                )@.chunks[c]->0.values[i].occupied() ==> exists|slot: &mut T| #[trigger]
                    call_ensures(T::vacate_in_place, (slot,), ()) && *slot == old(
                        self,
                    )@.chunks[c]->0.values[i] && *final(slot) == final(self)@.chunks[c]->0.values[i],
    {
        let entries = directory_iter(&self.directory);
        let mut next: usize = 0;
        while next < entries.len()
            invariant
                old(self).wf(),
                next <= entries.len(),
                entries@.len() == old(self)@.chunks.len(),
                forall|i: int|
                    0 <= i < entries@.len() ==> #[trigger] entries@[i] == (
                        i as usize,
                        self.entries()[i],
                    ),
                self.directory == old(self).directory,
                self.chunks.len() == old(self).chunks.len(),
                forall|i: int|
                    #![trigger old(self)@.chunks[i]]
                    0 <= i < next && old(self)@.chunks[i] is Some ==> old(self)@.chunks[i]->0.cleared(
                        self@.chunks[i]->0,
                    ),
                forall|i: int|
                    #![trigger old(self)@.chunks[i]]
                    next <= i < entries.len() ==> self@.chunks[i] == old(self)@.chunks[i],
                forall|c: int, i: int|
                    #![trigger old(self)@.chunks[c]->0.values[i]]
                    0 <= c < next && old(self)@.chunks[c] is Some && 0 <= i < CHUNK_SIZE && old(
                        self,
                    )@.chunks[c]->0.values[i].occupied() ==> exists|slot: &mut T| #[trigger]
                        call_ensures(T::vacate_in_place, (slot,), ()) && *slot == old(
                            self,
                        )@.chunks[c]->0.values[i] && *final(slot) == self@.chunks[c]->0.values[i],
            decreases entries.len() - next,
        {
            let (_, entry) = entries[next];
            if let Some(position) = entry {
                assert(old(self)@.chunks[next as int] is Some);
                assert(self@.chunks[next as int] == Some(self.chunks@[position as int]@));
                self.chunks[position].clear();
            }
            next = next + 1;
        }
        self.len = 0;
        proof {
            assert(old(self)@.cleared(self@));
            old(self)@.lemma_cleared(self@);
        }
    }

    pub fn len(&self) -> (len: usize)
        ensures
            len == self@.len,
    {
        self.len
    }
}

} // verus!
