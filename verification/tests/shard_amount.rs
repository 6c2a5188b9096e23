use dense_task_map::compute_snapshot_shard_amount;

#[test]
fn a_small_preallocation_gets_the_least_number_of_shards() {
    assert_eq!(compute_snapshot_shard_amount(Some(64), true, Some(64)), 4);
    assert_eq!(compute_snapshot_shard_amount(None, true, None), 4);
}

#[test]
fn workers_are_rounded_up_to_a_power_of_two() {
    for (workers, shards) in [
        (0, 4),
        (1, 4),
        (4, 4),
        (5, 8),
        (8, 8),
        (9, 16),
        (100, 128),
        (129, 256),
        (256, 256),
        (257, 256),
        (usize::MAX, 256),
    ] {
        assert_eq!(compute_snapshot_shard_amount(Some(workers), false, None), shards);
        assert_eq!(compute_snapshot_shard_amount(None, false, Some(workers)), shards);
    }
}

#[test]
fn the_machine_is_asked_only_without_a_number_of_workers() {
    assert_eq!(compute_snapshot_shard_amount(Some(16), false, Some(200)), 16);
    assert_eq!(compute_snapshot_shard_amount(None, false, None), 4);
}
