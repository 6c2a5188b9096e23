//! A chunk of slots with its bitmap of hints.

use vstd::prelude::*;

use crate::slot::{TaskSlot, TaskSlotGuard, TaskSlotValue};

verus! {

/// Binary logarithm of the number of slots in a chunk.
pub const CHUNK_SHIFT: usize = 10;

/// Number of slots in a chunk.
pub const CHUNK_SIZE: usize = 1024;

/// Number of bits in one word of the bitmap.
pub const BITMAP_WORD_BITS: usize = 64;

/// Number of words in the bitmap of a chunk.
pub const BITMAP_WORDS: usize = 16;

/// Whether bit `i` of `word` is set.
pub open spec fn bit(word: u64, i: int) -> bool {
    (word >> (i as u64)) & 1 == 1
}

/// What a chunk holds.
#[verifier::ext_equal]
pub struct ChunkView<T: TaskSlotValue> {
    /// For each slot, whether a scan should look at it. A hint may be stale: it may stand at a
    /// vacant slot.
    pub hints: Seq<bool>,
    /// For each slot, its value.
    pub values: Seq<T>,
    pub modified_count: u64,
}

impl<T: TaskSlotValue> ChunkView<T> {
    pub open spec fn wf(self) -> bool {
        &&& self.hints.len() == CHUNK_SIZE
        &&& self.values.len() == CHUNK_SIZE
    }

    /// No occupied slot is hidden by a missing hint, and no vacant slot holds contents.
    pub open spec fn consistent(self) -> bool {
        forall|i: int|
            #![trigger self.values[i]]
            0 <= i < CHUNK_SIZE ==> if self.values[i].occupied() {
                self.hints[i]
            } else {
                crate::slot::vacant(self.values[i])
            }
    }

    /// What a chunk holds before its first use. All hints are set.
    pub open spec fn fresh(self) -> bool {
        &&& self.wf()
        &&& self.modified_count == 0
        &&& forall|i: int| 0 <= i < CHUNK_SIZE ==> #[trigger] self.hints[i]
        &&& forall|i: int|
            #![trigger self.values[i]]
            0 <= i < CHUNK_SIZE ==> {
                &&& crate::slot::vacant(self.values[i])
                &&& call_ensures(T::empty, (), self.values[i])
            }
    }

    /// `after` is this chunk once every hinted slot has been emptied and all hints are cleared.
    pub open spec fn cleared(self, after: Self) -> bool {
        &&& after.wf()
        &&& after.modified_count == 0
        &&& forall|i: int| 0 <= i < CHUNK_SIZE ==> !#[trigger] after.hints[i]
        &&& forall|i: int|
            #![trigger after.values[i]]
            0 <= i < CHUNK_SIZE ==> if self.hints[i] && self.values[i].occupied() {
                crate::slot::vacant(after.values[i])
            } else {
                after.values[i] == self.values[i]
            }
    }

    pub open spec fn with_hint(self, offset: int, hint: bool) -> Self {
        ChunkView { hints: self.hints.update(offset, hint), ..self }
    }

    pub open spec fn with_value(self, offset: int, value: T) -> Self {
        ChunkView { values: self.values.update(offset, value), ..self }
    }

    pub open spec fn with_modified_count(self, modified_count: u64) -> Self {
        ChunkView { modified_count, ..self }
    }
}

pub struct TaskChunk<T: TaskSlotValue> {
    pub modified_count: u64,
    probably_occupied: [u64; BITMAP_WORDS],
    slots: Vec<TaskSlot<T>>,
}

impl<T: TaskSlotValue> View for TaskChunk<T> {
    type V = ChunkView<T>;

    closed spec fn view(&self) -> ChunkView<T> {
        ChunkView {
            hints: hints_of(self.probably_occupied),
            values: self.slots@.map_values(|slot: TaskSlot<T>| slot.value),
            modified_count: self.modified_count,
        }
    }
}

/// The hints that a bitmap stores, one per slot.
spec fn hints_of(words: [u64; BITMAP_WORDS]) -> Seq<bool> {
    Seq::new(
        CHUNK_SIZE as nat,
        |i: int| bit(words[i / BITMAP_WORD_BITS as int], i % BITMAP_WORD_BITS as int),
    )
}

impl<T: TaskSlotValue> TaskChunk<T> {
    pub open spec fn wf(&self) -> bool {
        self@.wf()
    }

    pub fn new() -> (chunk: Self)
        ensures
            chunk@.fresh(),
    {
        let mut slots: Vec<TaskSlot<T>> = Vec::new();
        while slots.len() < CHUNK_SIZE
            invariant
                slots.len() <= CHUNK_SIZE,
                forall|i: int|
                    #![trigger slots@[i]]
                    0 <= i < slots.len() ==> {
                        &&& crate::slot::vacant(slots@[i].value)
                        &&& call_ensures(T::empty, (), slots@[i].value)
                    },
            decreases CHUNK_SIZE - slots.len(),
        {
            slots.push(TaskSlot::empty());
        }
        // Start with all hints set so that neither construction nor dense first insertion has to
        // touch the bitmap. The first scan looks at the vacant slots once and clears their hints;
        // subsequent sparse scans skip them.
        let chunk = TaskChunk {
            modified_count: 0,
            probably_occupied: [u64::MAX; BITMAP_WORDS],
            slots,
        };
        assert forall|i: int| 0 <= i < CHUNK_SIZE implies #[trigger] chunk@.hints[i] by {
            let b = (i % BITMAP_WORD_BITS as int) as u64;
            assert((u64::MAX >> b) & 1 == 1) by (bit_vector)
                requires
                    b < 64,
            ;
        }
        chunk
    }

    /// The modification count that the view shows is the one in the chunk.
    proof fn law_modified_count_is_shown(&self)
        ensures
            self@.modified_count == self.modified_count,
    {
    }

    /// How often the tasks of the chunk were modified, as counted.
    pub fn modified_count(&self) -> (count: u64)
        ensures
            count == self@.modified_count,
    {
        self.modified_count
    }

    /// Where the hint of the slot at `offset` is stored: the word, and the bit in it.
    pub fn word_and_mask(offset: usize) -> (place: (usize, u64))
        ensures
            place.0 == offset / BITMAP_WORD_BITS,
            place.1 == 1u64 << (offset % BITMAP_WORD_BITS),
    {
        (offset / BITMAP_WORD_BITS, 1 << (offset % BITMAP_WORD_BITS))
    }

    pub fn mark_probably_occupied(&mut self, offset: usize)
        requires
            old(self).wf(),
            offset < CHUNK_SIZE,
        ensures
            final(self)@ == old(self)@.with_hint(offset as int, true),
    {
        let (word, mask) = Self::word_and_mask(offset);
        let bits = self.probably_occupied[word];
        self.probably_occupied[word] = bits | mask;
        proof {
            let s = (offset % BITMAP_WORD_BITS) as u64;
            assert forall|j: int| 0 <= j < 64 implies #[trigger] bit(bits | mask, j) == (bit(bits, j)
                || j == s) by {
                lemma_bit_or(bits, s, j as u64);
            }
            lemma_one_word(
                old(self).probably_occupied,
                self.probably_occupied,
                bits | mask,
                offset as int,
            );
            assert(bit(bits | mask, s as int));
            assert(self@ =~= old(self)@.with_hint(offset as int, true));
        }
    }

    pub fn clear_probably_occupied(&mut self, offset: usize)
        requires
            old(self).wf(),
            offset < CHUNK_SIZE,
        ensures
            final(self)@ == old(self)@.with_hint(offset as int, false),
    {
        let (word, mask) = Self::word_and_mask(offset);
        let bits = self.probably_occupied[word];
        self.probably_occupied[word] = bits & !mask;
        proof {
            let s = (offset % BITMAP_WORD_BITS) as u64;
            assert forall|j: int| 0 <= j < 64 implies #[trigger] bit(bits & !mask, j) == (bit(
                bits,
                j,
            ) && j != s) by {
                lemma_bit_and_not(bits, s, j as u64);
            }
            lemma_one_word(
                old(self).probably_occupied,
                self.probably_occupied,
                bits & !mask,
                offset as int,
            );
            assert(!bit(bits & !mask, s as int));
            assert(self@ =~= old(self)@.with_hint(offset as int, false));
        }
    }

    pub fn is_probably_occupied(&self, offset: usize) -> (hint: bool)
        requires
            self.wf(),
            offset < CHUNK_SIZE,
        ensures
            hint == self@.hints[offset as int],
    {
        let (word, mask) = Self::word_and_mask(offset);
        proof {
            let s = (offset % BITMAP_WORD_BITS) as u64;
            lemma_bit_test(self.probably_occupied[word as int], s);
        }
        self.probably_occupied[word] & mask != 0
    }

    /// Takes one slot for as long as the guard lives.
    pub fn lock(&mut self, offset: usize) -> (guard: TaskSlotGuard<'_, T>)
        requires
            old(self).wf(),
            offset < CHUNK_SIZE,
        ensures
            guard.value() == old(self)@.values[offset as int],
            final(self)@ == old(self)@.with_value(offset as int, final(guard.slot).value),
    {
        self.slots[offset].lock()
    }

    /// Takes two slots at once. Neither waits for the other, and what is written through one guard
    /// is not seen through the other.
    pub fn lock_pair(&mut self, a: usize, b: usize) -> (guards: (
        TaskSlotGuard<'_, T>,
        TaskSlotGuard<'_, T>,
    ))
        requires
            old(self).wf(),
            a < CHUNK_SIZE,
            b < CHUNK_SIZE,
            a != b,
        ensures
            guards.0.value() == old(self)@.values[a as int],
            guards.1.value() == old(self)@.values[b as int],
            final(self)@ == old(self)@.with_value(
                a as int,
                final(guards.0.slot).value,
            ).with_value(b as int, final(guards.1.slot).value),
    {
        if a < b {
            let (below, above) = self.slots.as_mut_slice().split_at_mut(b);
            (below[a].lock(), above[0].lock())
        } else {
            let (below, above) = self.slots.as_mut_slice().split_at_mut(a);
            (above[0].lock(), below[b].lock())
        }
    }

    /// Takes one slot for as long as the guard lives, and the count of modifications with it.
    pub fn lock_with_count(&mut self, offset: usize) -> (locked: (TaskSlotGuard<'_, T>, &mut u64))
        requires
            old(self).wf(),
            offset < CHUNK_SIZE,
        ensures
            locked.0.value() == old(self)@.values[offset as int],
            *locked.1 == old(self)@.modified_count,
            final(self)@ == old(self)@.with_value(
                offset as int,
                final(locked.0.slot).value,
            ).with_modified_count(*final(locked.1)),
    {
        (self.slots[offset].lock(), &mut self.modified_count)
    }

    /// Empties every slot that a hint leads to, and clears the hints on the way.
    pub fn clear(&mut self)
        requires
            old(self).wf(),
        ensures
            old(self)@.cleared(final(self)@),
            forall|i: int|
                #![trigger old(self)@.values[i]]
                0 <= i < CHUNK_SIZE && old(self)@.hints[i] && old(self)@.values[i].occupied()
                    ==> exists|slot: &mut T| #[trigger]
                    call_ensures(T::vacate_in_place, (slot,), ()) && *slot == old(self)@.values[i]
                        && *final(slot) == final(self)@.values[i],
    {
        let mut offsets = self.probably_occupied_offsets();
        let ghost mut from: int = 0;
        loop
            invariant_except_break
                self@.hints == offsets.pending(self@.hints),
            invariant
                self.wf(),
                offsets.wf(),
                0 <= from <= CHUNK_SIZE,
                forall|i: int| 0 <= i < from ==> !#[trigger] self@.hints[i],
                forall|i: int|
                    0 <= i < CHUNK_SIZE && self@.hints[i] ==> #[trigger] old(self)@.hints[i],
                forall|i: int|
                    #![trigger self@.values[i]]
                    0 <= i < CHUNK_SIZE ==> if self@.hints[i] || !old(self)@.hints[i]
                        || !old(self)@.values[i].occupied() {
                        self@.values[i] == old(self)@.values[i]
                    } else {
                        crate::slot::vacant(self@.values[i])
                    },
                forall|i: int|
                    #![trigger old(self)@.values[i]]
                    0 <= i < CHUNK_SIZE && !self@.hints[i] && old(self)@.hints[i] && old(
                        self,
                    )@.values[i].occupied() ==> exists|slot: &mut T| #[trigger]
                        call_ensures(T::vacate_in_place, (slot,), ()) && *slot == old(
                            self,
                        )@.values[i] && *final(slot) == self@.values[i],
            ensures
                forall|i: int| 0 <= i < CHUNK_SIZE ==> !#[trigger] self@.hints[i],
            decreases CHUNK_SIZE - from,
        {
            let ghost hints = self@.hints;
            let ghost values = self@.values;
            let offset: usize = match offsets.next(self) {
                Some(offset) => offset,
                None => break,
            };
            let mut value = self.lock(offset);
            if value.is_occupied() {
                value.vacate_in_place();
                assert(exists|slot: &mut T| #[trigger]
                    call_ensures(T::vacate_in_place, (slot,), ()) && *slot == values[offset as int]
                        && *final(slot) == value.value());
            }
            self.clear_probably_occupied(offset);
            proof {
                assert(values[offset as int].occupied() ==> exists|slot: &mut T| #[trigger]
                    call_ensures(T::vacate_in_place, (slot,), ()) && *slot == values[offset as int]
                        && *final(slot) == self@.values[offset as int]);
                assert forall|i: int|
                    #![trigger old(self)@.values[i]]
                    0 <= i < CHUNK_SIZE && !self@.hints[i] && old(self)@.hints[i] && old(
                        self,
                    )@.values[i].occupied() implies exists|slot: &mut T| #[trigger]
                    call_ensures(T::vacate_in_place, (slot,), ()) && *slot == old(self)@.values[i]
                        && *final(slot) == self@.values[i] by {
                    assert(i != offset ==> self@.values[i] == values[i]);
                }
                offsets.lemma_pending_without_hint(hints, offset as int);
                from = offset + 1;
            }
        }
        self.modified_count = 0;
    }

    /// Starts a walk over the hinted slots. No word of the bitmap is taken yet, so the walk also
    /// sees every hint that appears before its first step.
    pub fn probably_occupied_offsets(&self) -> (offsets: ProbablyOccupiedOffsets)
        ensures
            offsets.wf(),
            offsets.taken() == 0,
            offsets.rest() == 0,
            offsets.pending(self@.hints) == self@.hints,
    {
        let offsets = ProbablyOccupiedOffsets::start();
        assert(offsets.pending(self@.hints) =~= self@.hints);
        offsets
    }
}

/// A walk over the hinted slots of a chunk, in ascending order.
///
/// The walk takes a copy of each bitmap word when it reaches it. A hint that appears behind the
/// walk, or in the word that it is at, is not seen; one that appears ahead of it is.
pub struct ProbablyOccupiedOffsets {
    word_index: usize,
    bits: u64,
}

/// How a walk goes on.
#[derive(Clone, Copy, Debug, PartialEq, Eq, Structural)]
pub enum WalkStep {
    /// The slot at this offset is hinted.
    Visit(usize),
    /// The walk has reached this word of the bitmap, and wants a copy of it.
    Take(usize),
    /// The walk is over.
    End,
}

impl ProbablyOccupiedOffsets {
    /// How many words of the bitmap the walk has taken.
    pub closed spec fn taken(&self) -> int {
        self.word_index as int
    }

    /// What is left of the word that was taken last.
    pub closed spec fn rest(&self) -> u64 {
        self.bits
    }

    pub open spec fn wf(&self) -> bool {
        &&& 0 <= self.taken() <= BITMAP_WORDS
        &&& self.taken() == 0 ==> self.rest() == 0
    }

    /// For each slot, whether the walk has still to visit it, given the hints of the chunk.
    pub open spec fn pending(&self, hints: Seq<bool>) -> Seq<bool> {
        Seq::new(
            CHUNK_SIZE as nat,
            |i: int|
                if i / 64 + 1 == self.taken() {
                    bit(self.rest(), i % 64)
                } else {
                    i / 64 >= self.taken() && hints[i]
                },
        )
    }

    /// Taking away the hint of a slot that the walk has passed does not disturb the walk.
    pub proof fn lemma_pending_without_hint(&self, hints: Seq<bool>, offset: int)
        requires
            hints.len() == CHUNK_SIZE,
            0 <= offset < CHUNK_SIZE,
            !self.pending(hints)[offset],
        ensures
            self.pending(hints.update(offset, false)) == self.pending(hints),
    {
        assert(self.pending(hints.update(offset, false)) =~= self.pending(hints));
    }

    /// A walk that has not begun.
    pub fn start() -> (offsets: Self)
        ensures
            offsets.wf(),
            offsets.taken() == 0,
            offsets.rest() == 0,
    {
        ProbablyOccupiedOffsets { word_index: 0, bits: 0 }
    }

    /// Goes on to the next hinted slot of the word that was taken last. If there is none, tells
    /// which word to take next.
    pub fn step(&mut self) -> (step: WalkStep)
        requires
            old(self).wf(),
        ensures
            final(self).wf(),
            final(self).taken() == old(self).taken(),
            match step {
                WalkStep::Visit(offset) => {
                    &&& offset / 64 + 1 == old(self).taken()
                    &&& bit(old(self).rest(), offset as int % 64)
                    &&& forall|j: int|
                        0 <= j < offset as int % 64 ==> !#[trigger] bit(old(self).rest(), j)
                    &&& forall|j: int|
                        0 <= j < 64 ==> #[trigger] bit(final(self).rest(), j) == (bit(
                            old(self).rest(),
                            j,
                        ) && j != offset as int % 64)
                },
                WalkStep::Take(word) => {
                    &&& old(self).rest() == 0
                    &&& final(self).rest() == 0
                    &&& word == old(self).taken()
                    &&& word < BITMAP_WORDS
                },
                WalkStep::End => {
                    &&& old(self).rest() == 0
                    &&& final(self).rest() == 0
                    &&& old(self).taken() == BITMAP_WORDS
                },
            },
    {
        if self.bits != 0 {
            let lowest: usize = self.bits.trailing_zeros() as usize;
            proof {
                lemma_lowest_bit(self.bits);
            }
            self.bits = self.bits & (self.bits - 1);
            return WalkStep::Visit((self.word_index - 1) * BITMAP_WORD_BITS + lowest);
        }
        if self.word_index < BITMAP_WORDS {
            WalkStep::Take(self.word_index)
        } else {
            WalkStep::End
        }
    }

    /// Takes the word that the walk has reached.
    pub fn take(&mut self, bits: u64)
        requires
            old(self).wf(),
            old(self).rest() == 0,
            old(self).taken() < BITMAP_WORDS,
        ensures
            final(self).wf(),
            final(self).taken() == old(self).taken() + 1,
            final(self).rest() == bits,
    {
        self.word_index = self.word_index + 1;
        self.bits = bits;
    }

    /// Goes on to the next hinted slot and returns its offset.
    pub fn next<T: TaskSlotValue>(&mut self, chunk: &TaskChunk<T>) -> (offset: Option<usize>)
        requires
            old(self).wf(),
            chunk.wf(),
        ensures
            final(self).wf(),
            match offset {
                Some(offset) => {
                    let before = old(self).pending(chunk@.hints);
                    &&& offset < CHUNK_SIZE
                    &&& before[offset as int]
                    &&& forall|i: int| 0 <= i < offset ==> !#[trigger] before[i]
                    &&& final(self).pending(chunk@.hints) == before.update(offset as int, false)
                    &&& final(self).taken() == offset / 64 + 1
                },
                None => {
                    &&& forall|i: int|
                        0 <= i < CHUNK_SIZE ==> !#[trigger] old(self).pending(chunk@.hints)[i]
                    &&& final(self).taken() == BITMAP_WORDS
                    &&& final(self).rest() == 0
                },
            },
            offset is None ==> old(self).pending(chunk@.hints) == Seq::new(
                CHUNK_SIZE as nat,
                |i: int| false,
            ),
    {
        let ghost before = self.pending(chunk@.hints);
        loop
            invariant
                self.wf(),
                chunk.wf(),
                before == old(self).pending(chunk@.hints),
                self.pending(chunk@.hints) == before,
            decreases BITMAP_WORDS - self.taken(),
        {
            let ghost earlier = *self;
            proof {
                assert forall|j: int| 0 <= j < 64 implies !#[trigger] bit(0, j) by {
                    lemma_zero_bit(j as u64);
                }
            }
            match self.step() {
                WalkStep::Visit(offset) => {
                    proof {
                        let after = self.pending(chunk@.hints);
                        assert(before[offset as int]);
                        assert forall|i: int| 0 <= i < offset implies !#[trigger] before[i] by {
                            assert(i / 64 + 1 == self.taken() ==> i % 64 < offset as int % 64);
                        }
                        assert forall|i: int| 0 <= i < CHUNK_SIZE implies after[i] == before.update(
                            offset as int,
                            false,
                        )[i] by {
                            if i / 64 + 1 == self.taken() {
                                assert(i != offset ==> i % 64 != offset as int % 64);
                                assert(bit(self.rest(), i % 64) == (bit(earlier.rest(), i % 64) && i
                                    % 64 != offset as int % 64));
                            }
                        }
                        assert(after =~= before.update(offset as int, false));
                    }
                    return Some(offset);
                },
                WalkStep::Take(word) => {
                    self.take(chunk.probably_occupied[word]);
                    assert(self.pending(chunk@.hints) =~= before);
                },
                WalkStep::End => {
                    assert(before =~= Seq::new(CHUNK_SIZE as nat, |i: int| false));
                    return None;
                },
            }
        }
    }
}

proof fn lemma_zero_bit(j: u64)
    ensures
        !bit(0, j as int),
{
    assert((0u64 >> j) & 1 == 0) by (bit_vector);
}

/// The lowest set bit of a word is the one that `trailing_zeros` finds, and the one that
/// `bits & (bits - 1)` clears.
proof fn lemma_lowest_bit(bits: u64)
    requires
        bits != 0,
    ensures
        0 <= vstd::std_specs::bits::u64_trailing_zeros(bits) < 64,
        bit(bits, vstd::std_specs::bits::u64_trailing_zeros(bits) as int),
        forall|j: int|
            0 <= j < vstd::std_specs::bits::u64_trailing_zeros(bits) ==> !#[trigger] bit(bits, j),
        forall|j: int|
            0 <= j < 64 ==> #[trigger] bit((bits & (bits - 1) as u64), j) == (bit(bits, j) && j
                != vstd::std_specs::bits::u64_trailing_zeros(bits)),
{
    let low = vstd::std_specs::bits::u64_trailing_zeros(bits) as u64;
    vstd::std_specs::bits::axiom_u64_trailing_zeros(bits);
    let less = (bits - 1) as u64;
    assert forall|j: int| 0 <= j < low implies !#[trigger] bit(bits, j) by {
        assert((bits >> (j as u64)) & 1u64 == 0u64);
    }
    assert forall|j: int| 0 <= j < 64 implies #[trigger] bit(bits & less, j) == (bit(bits, j) && j
        != low) by {
        let k = j as u64;
        assert(((bits & less) >> k) & 1 == 1 <==> ((bits >> k) & 1 == 1 && k != low))
            by (bit_vector)
            requires
                low < 64,
                k < 64,
                less == bits - 1,
                (bits >> low) & 1 == 1,
                bits << ((64 - low) as u64) == 0,
        ;
    }
}

proof fn lemma_bit_or(bits: u64, s: u64, j: u64)
    requires
        s < 64,
        j < 64,
    ensures
        bit(bits | (1u64 << s), j as int) == (bit(bits, j as int) || j == s),
{
    assert(((bits | (1u64 << s)) >> j) & 1 == 1 <==> ((bits >> j) & 1 == 1 || j == s))
        by (bit_vector)
        requires
            s < 64,
            j < 64,
    ;
}

proof fn lemma_bit_and_not(bits: u64, s: u64, j: u64)
    requires
        s < 64,
        j < 64,
    ensures
        bit(bits & !(1u64 << s), j as int) == (bit(bits, j as int) && j != s),
{
    assert(((bits & !(1u64 << s)) >> j) & 1 == 1 <==> ((bits >> j) & 1 == 1 && j != s))
        by (bit_vector)
        requires
            s < 64,
            j < 64,
    ;
}

proof fn lemma_bit_test(bits: u64, s: u64)
    requires
        s < 64,
    ensures
        (bits & (1u64 << s) != 0) == bit(bits, s as int),
{
    assert((bits & (1u64 << s) != 0) <==> (bits >> s) & 1 == 1) by (bit_vector)
        requires
            s < 64,
    ;
}

/// A change of one bit in one word changes one hint.
proof fn lemma_one_word(
    before: [u64; BITMAP_WORDS],
    after: [u64; BITMAP_WORDS],
    word: u64,
    offset: int,
)
    requires
        0 <= offset < CHUNK_SIZE,
        after@ == before@.update(offset / 64, word),
        forall|j: int|
            0 <= j < 64 && j != offset % 64 ==> #[trigger] bit(word, j) == bit(
                before@[offset / 64],
                j,
            ),
    ensures
        hints_of(after) == hints_of(before).update(offset, bit(word, offset % 64)),
{
    let expected = hints_of(before).update(offset, bit(word, offset % 64));
    assert forall|i: int| 0 <= i < CHUNK_SIZE implies hints_of(after)[i] == expected[i] by {
        if i / 64 == offset / 64 && i != offset {
            assert(i % 64 != offset % 64);
        }
    }
    assert(hints_of(after) =~= expected);
}

} // verus!
