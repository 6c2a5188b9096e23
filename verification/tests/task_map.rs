use std::sync::atomic::{AtomicUsize, Ordering};
use std::sync::Arc;

use dense_task_map::{TaskChunkRef, TaskId, TaskMap, TaskSlotValue, CHUNK_SIZE, TRANSIENT_TASK_BIT};

struct TestValue {
    occupied: bool,
    value: usize,
    dropped: Option<Arc<AtomicUsize>>,
}

impl TestValue {
    fn set(&mut self, value: usize) {
        self.value = value;
    }
}

impl Drop for TestValue {
    fn drop(&mut self) {
        if let Some(dropped) = &self.dropped {
            dropped.fetch_add(1, Ordering::Relaxed);
        }
    }
}

impl TaskSlotValue for TestValue {
    type Contents = usize;

    fn occupied(&self) -> bool {
        self.occupied
    }

    fn contents(&self) -> usize {
        self.value
    }

    fn blank() -> usize {
        0
    }

    fn empty() -> Self {
        TestValue { occupied: false, value: 0, dropped: None }
    }

    fn is_occupied(&self) -> bool {
        self.occupied
    }

    fn occupy(&mut self) {
        assert!(!self.occupied);
        self.occupied = true;
    }

    fn take_and_vacate(&mut self) -> Self {
        assert!(self.occupied);
        let value = self.value;
        let dropped = self.dropped.take();
        self.value = 0;
        self.occupied = false;
        TestValue { occupied: false, value, dropped }
    }

    fn vacate_in_place(&mut self) {
        assert!(self.occupied);
        self.value = 0;
        self.dropped = None;
        self.occupied = false;
    }
}

fn task_id(raw: u32) -> TaskId {
    TaskId::try_from(raw).unwrap()
}

/// The ids that a scan over all chunks finds, in the order in which it finds them.
fn scan(map: &mut TaskMap<TestValue>) -> Vec<u32> {
    let mut seen = Vec::new();
    for chunk in map.chunks() {
        let mut offsets = chunk.chunk(map).probably_occupied_offsets();
        while let Some(offset) = offsets.next(chunk.chunk(map)) {
            if chunk.get(map, offset).is_some() {
                seen.push(*chunk.task_id(offset));
            }
        }
    }
    seen
}

#[test]
fn grows_across_chunk_boundaries_and_reuses_slots() {
    let mut map = TaskMap::<TestValue>::new(true);
    for raw in [
        1,
        CHUNK_SIZE as u32 - 1,
        CHUNK_SIZE as u32,
        CHUNK_SIZE as u32 + 1,
    ] {
        map.get_or_insert(task_id(raw)).set(raw as usize);
    }
    assert_eq!(map.len(), 4);
    assert_eq!(
        map.get(task_id(CHUNK_SIZE as u32)).unwrap().value,
        CHUNK_SIZE
    );
    assert_eq!(
        map.remove(task_id(CHUNK_SIZE as u32)).unwrap().value,
        CHUNK_SIZE
    );
    assert!(map.get(task_id(CHUNK_SIZE as u32)).is_none());
    map.get_or_insert(task_id(CHUNK_SIZE as u32)).set(7);
    assert_eq!(map.get(task_id(CHUNK_SIZE as u32)).unwrap().value, 7);
}

#[test]
fn clear_drops_all_namespaces_in_parallel() {
    let mut map = TaskMap::<TestValue>::new(true);
    for raw in [1, CHUNK_SIZE as u32 + 1, 7 | TRANSIENT_TASK_BIT] {
        map.get_or_insert(task_id(raw)).set(raw as usize);
    }
    map.clear();
    assert_eq!(map.len(), 0);
    assert!(map.get(task_id(1)).is_none());
    assert!(map.get(task_id(CHUNK_SIZE as u32 + 1)).is_none());
    assert!(map.get(task_id(7 | TRANSIENT_TASK_BIT)).is_none());
}

#[test]
fn persistent_and_transient_namespaces_do_not_alias() {
    let mut map = TaskMap::<TestValue>::new(true);
    map.get_or_insert(task_id(7)).set(1);
    map.get_or_insert(task_id(7 | TRANSIENT_TASK_BIT)).set(2);
    assert_eq!(map.get(task_id(7)).unwrap().value, 1);
    assert_eq!(map.get(task_id(7 | TRANSIENT_TASK_BIT)).unwrap().value, 2);
}

#[test]
fn stale_bitmap_bit_is_safely_rechecked() {
    let mut map = TaskMap::<TestValue>::new(true);
    let id = task_id(1);
    map.get_or_insert(id);
    let chunk = map.chunks()[0];
    {
        let mut value = chunk.get(&mut map, 1).unwrap();
        // Vacate by hand, which leaves the hint alone.
        drop(value.inner.take_and_vacate());
        *value.len -= 1;
    }
    assert!(chunk.chunk(&map).is_probably_occupied(1));
    assert!(map.get(id).is_none());
    assert!(
        chunk.chunk(&map).is_probably_occupied(1),
        "point misses leave hint cleanup to bulk scans"
    );
    assert!(chunk.get(&mut map, 1).is_none());
    assert!(!chunk.chunk(&map).is_probably_occupied(1));
}

#[test]
fn chunks_visit_dense_and_sparse_entries_once() {
    let mut map = TaskMap::<TestValue>::new(true);
    let ids = [1, 2, CHUNK_SIZE as u32 + 3, (CHUNK_SIZE * 4) as u32 + 5];
    for raw in ids {
        map.get_or_insert(task_id(raw)).set(raw as usize);
    }
    let mut seen = Vec::new();
    for chunk in map.chunks() {
        let mut offsets = chunk.chunk(&map).probably_occupied_offsets();
        while let Some(offset) = offsets.next(chunk.chunk(&map)) {
            if chunk.get(&mut map, offset).is_some() {
                seen.push(*chunk.task_id(offset));
            }
        }
    }
    seen.sort_unstable();
    assert_eq!(seen, ids);
}

#[test]
fn new_maps_are_empty_whatever_they_preallocate() {
    for small_preallocation in [true, false] {
        let mut map = TaskMap::<TestValue>::new(small_preallocation);
        assert_eq!(map.len(), 0);
        assert!(map.chunks().is_empty());
        assert!(map.get(task_id(1)).is_none());
        assert!(map.remove(task_id(1)).is_none());
        assert!(!map.remove_discard(task_id(1)));
    }
    assert_eq!(TaskMap::<TestValue>::persistent_chunk_capacity(true), 1);
    assert_eq!(TaskMap::<TestValue>::persistent_chunk_capacity(false), 1024);
}

#[test]
fn inserting_twice_yields_the_same_task() {
    let mut map = TaskMap::<TestValue>::new(true);
    {
        let mut guard = map.get_or_insert(task_id(9));
        assert_eq!(guard.value, 0);
        assert_eq!(**guard.key(), 9);
        guard.set(42);
        *guard.modified_count += 3;
    }
    {
        let guard = map.get_or_insert(task_id(9));
        assert_eq!(guard.value, 42);
        assert_eq!(*guard.modified_count, 3);
        assert_eq!(*guard.len, 1);
    }
    assert_eq!(map.len(), 1);
}

#[test]
fn reused_slots_start_blank() {
    let mut map = TaskMap::<TestValue>::new(true);
    map.get_or_insert(task_id(5)).set(50);
    map.get_or_insert(task_id(6)).set(60);
    assert!(map.remove_discard(task_id(5)));
    assert!(!map.remove_discard(task_id(5)));
    assert_eq!(map.len(), 1);
    assert_eq!(map.get_or_insert(task_id(5)).value, 0);
    assert_eq!(map.get(task_id(6)).unwrap().value, 60);
    assert_eq!(map.len(), 2);
}

#[test]
fn far_insertions_leave_chunks_between_uncreated() {
    let mut map = TaskMap::<TestValue>::new(true);
    let far = 4000 * CHUNK_SIZE as u32 + 17;
    map.get_or_insert(task_id(far | TRANSIENT_TASK_BIT)).set(1);
    map.get_or_insert(task_id(far)).set(2);
    map.get_or_insert(task_id(3)).set(3);
    let chunks: Vec<(usize, bool)> = map
        .chunks()
        .iter()
        .map(|chunk| (chunk.base_id, chunk.transient))
        .collect();
    assert_eq!(
        chunks,
        [
            (0, false),
            (4000 * CHUNK_SIZE, false),
            (4000 * CHUNK_SIZE, true)
        ]
    );
    assert!(map.get(task_id(2000 * CHUNK_SIZE as u32)).is_none());
    assert_eq!(scan(&mut map), [3, far, far | TRANSIENT_TASK_BIT]);
}

#[test]
fn the_first_scan_clears_the_hints_of_vacant_slots() {
    let mut map = TaskMap::<TestValue>::new(true);
    map.get_or_insert(task_id(64)).set(1);
    let chunk = map.chunks()[0];
    assert!((0..CHUNK_SIZE).all(|offset| chunk.chunk(&map).is_probably_occupied(offset)));
    assert_eq!(scan(&mut map), [64]);
    for offset in 0..CHUNK_SIZE {
        assert_eq!(chunk.chunk(&map).is_probably_occupied(offset), offset == 64);
    }
    map.get_or_insert(task_id(1023)).set(2);
    assert!(chunk.chunk(&map).is_probably_occupied(1023));
    assert_eq!(scan(&mut map), [64, 1023]);
}

#[test]
fn guards_take_and_vacate_their_task() {
    let mut map = TaskMap::<TestValue>::new(true);
    map.get_or_insert(task_id(1)).set(10);
    map.get_or_insert(task_id(2)).set(20);
    let detached = map.get(task_id(1)).unwrap().take_and_vacate();
    assert_eq!(detached.value, 10);
    map.get(task_id(2)).unwrap().vacate();
    assert_eq!(map.len(), 0);
    let chunk = map.chunks()[0];
    assert!(chunk.chunk(&map).is_probably_occupied(1));
    assert!(chunk.chunk(&map).is_probably_occupied(2));
    assert!(scan(&mut map).is_empty());
}

#[test]
fn clear_drops_values_and_resets_counts() {
    let dropped = Arc::new(AtomicUsize::new(0));
    let mut map = TaskMap::<TestValue>::new(true);
    for raw in 1..=100 {
        let mut guard = map.get_or_insert(task_id(raw));
        guard.dropped = Some(dropped.clone());
        *guard.modified_count += 1;
    }
    assert_eq!(Arc::strong_count(&dropped), 101);
    let chunk = map.chunks()[0];
    assert_eq!(chunk.chunk(&map).modified_count, 100);
    map.clear();
    assert_eq!(Arc::strong_count(&dropped), 1);
    assert_eq!(chunk.chunk(&map).modified_count, 0);
    assert_eq!(map.chunks().len(), 1);
    assert!((0..CHUNK_SIZE).all(|offset| !chunk.chunk(&map).is_probably_occupied(offset)));
    map.get_or_insert(task_id(8)).set(8);
    assert_eq!(scan(&mut map), [8]);
}

#[test]
fn a_removed_value_is_dropped_once() {
    let dropped = Arc::new(AtomicUsize::new(0));
    let mut map = TaskMap::<TestValue>::new(true);
    map.get_or_insert(task_id(1)).dropped = Some(dropped.clone());
    drop(map.remove(task_id(1)));
    assert_eq!(dropped.load(Ordering::Relaxed), 1);
    drop(map);
    assert_eq!(dropped.load(Ordering::Relaxed), 1);
}

#[test]
fn ids_and_places_correspond() {
    let last = TRANSIENT_TASK_BIT - 1;
    for (raw, transient, index) in [
        (1, false, 1),
        (1023, false, 1023),
        (1024, false, 1024),
        (last, false, last as usize),
        (TRANSIENT_TASK_BIT, true, 0),
        (TRANSIENT_TASK_BIT | 77, true, 77),
        (u32::MAX, true, last as usize),
    ] {
        let id = task_id(raw);
        assert_eq!(*id, raw);
        assert_eq!(id.is_transient(), transient);
        assert_eq!(
            TaskMap::<TestValue>::namespace_and_index(id),
            (transient, index)
        );
        let offset = index % CHUNK_SIZE;
        let chunk = TaskChunkRef { base_id: index - offset, transient };
        assert_eq!(*chunk.task_id(offset), raw);
    }
    assert!(TaskId::try_from(0).is_err());
}

#[test]
fn both_ends_of_both_namespaces_are_usable() {
    let mut map = TaskMap::<TestValue>::new(true);
    map.get_or_insert(task_id(TRANSIENT_TASK_BIT)).set(1);
    map.get_or_insert(task_id(1)).set(2);
    assert_eq!(scan(&mut map), [1, TRANSIENT_TASK_BIT]);
    assert_eq!(map.len(), 2);
}

#[test]
fn repeated_first_access_initializes_once() {
    let mut map = TaskMap::<TestValue>::new(true);
    let mut initializations = 0;
    for _ in 0..8 {
        let mut value = map.get_or_insert(task_id(1));
        if value.value == 0 {
            initializations += 1;
            value.value = 42;
        }
        assert_eq!(value.value, 42);
    }
    assert_eq!(initializations, 1);
    assert_eq!(map.len(), 1);
}

#[test]
fn growth_preserves_existing_entries() {
    let mut map = TaskMap::<TestValue>::new(true);
    map.get_or_insert(task_id(1)).set(1);
    for series in 0..8 {
        for chunk in 1..32 {
            let raw = (chunk * CHUNK_SIZE + series + 1) as u32;
            map.get_or_insert(task_id(raw)).set(raw as usize);
            assert_eq!(map.get(task_id(1)).unwrap().value, 1);
        }
    }
    assert_eq!(map.len(), 1 + 8 * 31);
    for raw in scan(&mut map) {
        assert_eq!(map.get(task_id(raw)).unwrap().value, raw as usize);
    }
}

#[test]
fn listed_chunks_are_listed_for_good_and_stay_in_place() {
    let mut map = TaskMap::<TestValue>::new(true);
    map.get_or_insert(task_id(5)).set(50);
    map.get_or_insert(task_id(7 | TRANSIENT_TASK_BIT)).set(70);
    let listed = map.chunks();
    let addresses: Vec<String> =
        listed.iter().map(|chunk| format!("{:p}", chunk.chunk(&map))).collect();
    let value_address = format!("{:p}", &*map.get(task_id(5)).unwrap());
    for chunk in 1..200 {
        map.get_or_insert(task_id((chunk * CHUNK_SIZE) as u32)).set(chunk);
    }
    assert_eq!(value_address, format!("{:p}", &*map.get(task_id(5)).unwrap()));
    scan(&mut map);
    assert!(map.remove_discard(task_id(5)));
    map.clear();
    let places = |chunks: &[TaskChunkRef]| -> Vec<(usize, bool)> {
        chunks.iter().map(|chunk| (chunk.base_id, chunk.transient)).collect()
    };
    let now = places(&map.chunks());
    assert_eq!(now.len(), 201);
    assert!(places(&listed).iter().all(|place| now.contains(place)));
    for (chunk, address) in listed.iter().zip(addresses) {
        assert_eq!(format!("{:p}", chunk.chunk(&map)), address);
    }
}

#[test]
fn a_scan_leaves_hints_at_the_tasks_that_it_found() {
    let mut map = TaskMap::<TestValue>::new(true);
    for raw in [1, 63, 64, 700] {
        map.get_or_insert(task_id(raw)).set(raw as usize);
    }
    assert!(map.remove_discard(task_id(63)));
    let chunk = map.chunks()[0];
    let mut offsets = chunk.chunk(&map).probably_occupied_offsets();
    while let Some(offset) = offsets.next(chunk.chunk(&map)) {
        if let Some(guard) = chunk.get(&mut map, offset) {
            if offset == 64 {
                guard.vacate();
            }
        }
    }
    for offset in 0..CHUNK_SIZE {
        let hint = [1, 64, 700].contains(&offset);
        assert_eq!(chunk.chunk(&map).is_probably_occupied(offset), hint);
    }
    // The task at 64 was removed behind the scan. The next one cleans up.
    assert_eq!(scan(&mut map), [1, 700]);
    for offset in 0..CHUNK_SIZE {
        let occupied = [1, 700].contains(&offset);
        assert_eq!(chunk.chunk(&map).is_probably_occupied(offset), occupied);
    }
}

#[test]
fn a_map_remembers_what_was_written_last() {
    let ids: Vec<u32> = (0..4_u32)
        .flat_map(|chunk| [chunk * 1024 + 1, chunk * 1024 + 900, (chunk * 2048) | TRANSIENT_TASK_BIT])
        .collect();
    for seed in 0..20_u64 {
        let mut map = TaskMap::<TestValue>::new(true);
        let mut expected: Vec<Option<usize>> = vec![None; ids.len()];
        let mut state = seed;
        for step in 0..500 {
            state = state.wrapping_mul(6364136223846793005).wrapping_add(1442695040888963407);
            let at = (state >> 33) as usize % ids.len();
            let id = task_id(ids[at]);
            match (state >> 50) % 16 {
                0..=5 => {
                    map.get_or_insert(id).set(step);
                    expected[at] = Some(step);
                }
                6..=9 => {
                    assert_eq!(map.remove(id).map(|task| task.value), expected[at].take());
                }
                10 | 11 => {
                    assert_eq!(map.remove_discard(id), expected[at].take().is_some());
                }
                12 => {
                    let mut seen = scan(&mut map);
                    seen.sort();
                    let mut present: Vec<u32> = (0..ids.len())
                        .filter(|at| expected[*at].is_some())
                        .map(|at| ids[at])
                        .collect();
                    present.sort();
                    assert_eq!(seen, present);
                }
                13 if step % 5 == 0 => {
                    map.clear();
                    expected.fill(None);
                }
                _ => {
                    if let Some(mut task) = map.get(id) {
                        task.set(step);
                        expected[at] = Some(step);
                    }
                }
            }
            for (raw, value) in ids.iter().zip(&expected) {
                assert_eq!(map.get(task_id(*raw)).map(|task| task.value), *value);
            }
            assert_eq!(map.len(), expected.iter().flatten().count());
        }
    }
}
