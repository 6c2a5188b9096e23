use dense_task_map::{
    ChunkedVec, ProbablyOccupiedOffsets, TaskChunk, TaskSlot, TaskSlotValue, WalkStep,
    BITMAP_WORDS, CHUNK_SHIFT, CHUNK_SIZE,
};

struct Flag {
    set: bool,
}

impl TaskSlotValue for Flag {
    type Contents = ();

    fn occupied(&self) -> bool {
        self.set
    }

    fn contents(&self) {}

    fn blank() {}

    fn empty() -> Self {
        Flag { set: false }
    }

    fn is_occupied(&self) -> bool {
        self.set
    }

    fn occupy(&mut self) {
        self.set = true;
    }

    fn take_and_vacate(&mut self) -> Self {
        self.set = false;
        Flag { set: true }
    }

    fn vacate_in_place(&mut self) {
        self.set = false;
    }
}

fn walk(chunk: &TaskChunk<Flag>) -> Vec<usize> {
    let mut visited = Vec::new();
    let mut offsets = chunk.probably_occupied_offsets();
    while let Some(offset) = offsets.next(chunk) {
        visited.push(offset);
    }
    visited
}

fn without_hints() -> TaskChunk<Flag> {
    let mut chunk = TaskChunk::new();
    for offset in 0..CHUNK_SIZE {
        chunk.clear_probably_occupied(offset);
    }
    chunk
}

#[test]
fn sizes_fit_together() {
    assert_eq!(CHUNK_SIZE, 1 << CHUNK_SHIFT);
    assert_eq!(BITMAP_WORDS * 64, CHUNK_SIZE);
}

#[test]
fn an_empty_slot_is_vacant() {
    let mut slot = TaskSlot::<Flag>::empty();
    assert!(!slot.lock().is_occupied());
    slot.lock().occupy();
    assert!(slot.lock().is_occupied());
}

#[test]
fn a_fresh_chunk_hints_at_every_slot() {
    let mut chunk = TaskChunk::<Flag>::new();
    assert_eq!(chunk.modified_count, 0);
    for offset in 0..CHUNK_SIZE {
        assert!(chunk.is_probably_occupied(offset));
        assert!(!chunk.lock(offset).is_occupied());
    }
    assert_eq!(walk(&chunk), (0..CHUNK_SIZE).collect::<Vec<_>>());
}

#[test]
fn hints_have_places_of_their_own() {
    assert_eq!(TaskChunk::<Flag>::word_and_mask(0), (0, 1));
    assert_eq!(TaskChunk::<Flag>::word_and_mask(63), (0, 1 << 63));
    assert_eq!(TaskChunk::<Flag>::word_and_mask(64), (1, 1));
    assert_eq!(TaskChunk::<Flag>::word_and_mask(1023), (15, 1 << 63));
    let mut places: Vec<_> = (0..CHUNK_SIZE)
        .map(TaskChunk::<Flag>::word_and_mask)
        .collect();
    places.sort_unstable();
    places.dedup();
    assert_eq!(places.len(), CHUNK_SIZE);
}

#[test]
fn marking_and_clearing_touch_one_hint() {
    let mut chunk = without_hints();
    for offset in [0, 63, 64, 500, 1023] {
        chunk.mark_probably_occupied(offset);
        chunk.mark_probably_occupied(offset);
    }
    assert_eq!(walk(&chunk), [0, 63, 64, 500, 1023]);
    chunk.clear_probably_occupied(64);
    chunk.clear_probably_occupied(65);
    assert_eq!(walk(&chunk), [0, 63, 500, 1023]);
    assert!(!chunk.is_probably_occupied(64));
    assert!(chunk.is_probably_occupied(500));
}

#[test]
fn a_walk_over_no_hints_ends_at_once() {
    let chunk = without_hints();
    let mut offsets = chunk.probably_occupied_offsets();
    assert_eq!(offsets.next(&chunk), None);
    assert_eq!(offsets.next(&chunk), None);
}

#[test]
fn a_walk_sees_hints_that_appear_in_words_ahead() {
    let mut chunk = without_hints();
    chunk.mark_probably_occupied(1);
    let mut offsets = chunk.probably_occupied_offsets();
    assert_eq!(offsets.next(&chunk), Some(1));
    chunk.mark_probably_occupied(2);
    chunk.mark_probably_occupied(700);
    chunk.clear_probably_occupied(1);
    assert_eq!(offsets.next(&chunk), Some(700));
    assert_eq!(offsets.next(&chunk), None);
}

#[test]
fn clearing_a_chunk_empties_hinted_slots() {
    let mut chunk = TaskChunk::<Flag>::new();
    for offset in [3, 4, 900] {
        chunk.lock(offset).occupy();
    }
    chunk.modified_count = 5;
    chunk.clear();
    assert_eq!(chunk.modified_count, 0);
    assert!(walk(&chunk).is_empty());
    for offset in 0..CHUNK_SIZE {
        assert!(!chunk.lock(offset).is_occupied());
    }
}

#[test]
fn a_walk_can_be_fed_word_by_word() {
    let mut offsets = ProbablyOccupiedOffsets::start();
    for word in 0..BITMAP_WORDS {
        assert_eq!(offsets.step(), WalkStep::Take(word));
        offsets.take(if word == 2 { 0b1001 } else { 0 });
        if word == 2 {
            assert_eq!(offsets.step(), WalkStep::Visit(128));
            assert_eq!(offsets.step(), WalkStep::Visit(131));
        }
    }
    assert_eq!(offsets.step(), WalkStep::End);
}

#[test]
fn two_slots_are_held_at_once() {
    for (a, b) in [(3, 900), (900, 3), (0, 1), (CHUNK_SIZE - 1, 0)] {
        let mut chunk = TaskChunk::<Flag>::new();
        chunk.lock(b).occupy();
        {
            let (mut first, mut second) = chunk.lock_pair(a, b);
            assert!(!first.is_occupied());
            assert!(second.is_occupied());
            first.occupy();
            assert!(second.is_occupied());
            second.vacate_in_place();
            assert!(first.is_occupied());
        }
        for offset in 0..CHUNK_SIZE {
            assert_eq!(chunk.lock(offset).is_occupied(), offset == a);
        }
    }
}

#[test]
fn slots_of_one_stretch_share_a_chunk_that_is_created_once() {
    let mut namespace = ChunkedVec::<Flag>::with_chunk_capacity(1);
    assert!(namespace.chunk(3000).is_none());
    let (chunk, _) = namespace.get_or_create_chunk(3000);
    chunk.modified_count = 7;
    let address = format!("{:p}", chunk);
    for index in [2 * CHUNK_SIZE, 3 * CHUNK_SIZE - 1, 3000] {
        let (chunk, len) = namespace.get_or_create_chunk(index);
        assert_eq!(chunk.modified_count, 7);
        assert_eq!(format!("{:p}", chunk), address);
        assert_eq!(*len, 0);
    }
    assert!(namespace.chunk(0).is_none());
    for index in [0, 2 * CHUNK_SIZE - 1, 3 * CHUNK_SIZE] {
        assert_eq!(namespace.get_or_create_chunk(index).0.modified_count, 0);
    }
    assert_eq!(namespace.chunk(3000).unwrap().modified_count, 7);
    assert_eq!(namespace.chunks().len(), 4);
}

#[test]
fn the_count_of_a_chunk_can_be_read() {
    let mut chunk = TaskChunk::<Flag>::new();
    assert_eq!(chunk.modified_count(), 0);
    *chunk.lock_with_count(17).1 += 3;
    assert_eq!(chunk.modified_count(), 3);
    chunk.clear();
    assert_eq!(chunk.modified_count(), 0);
}
