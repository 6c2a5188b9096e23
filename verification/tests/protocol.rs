use dense_task_map::directory::{growth_step, GrowthStep};
use dense_task_map::protocol::{Action, Phase, Request};

/// A slot that threads share, stepped by hand.
struct Shared {
    hint: bool,
    occupied: bool,
    count: i32,
    fills: u32,
    locked: bool,
}

impl Shared {
    fn vacant(hint: bool) -> Self {
        Shared { hint, occupied: false, count: 0, fills: 0, locked: false }
    }

    /// Performs the action of a phase, if it can be performed now.
    fn step(&mut self, phase: &mut Phase) -> bool {
        let observed = match phase.action() {
            Action::LoadHint => self.hint,
            Action::Lock => {
                if self.locked {
                    return false;
                }
                self.locked = true;
                self.occupied
            }
            Action::SetHint => {
                self.hint = true;
                false
            }
            Action::ClearHint => {
                self.hint = false;
                false
            }
            Action::Occupy => {
                assert!(!self.occupied);
                self.occupied = true;
                self.fills += 1;
                false
            }
            Action::Vacate => {
                assert!(self.occupied);
                self.occupied = false;
                false
            }
            Action::Increment => {
                self.count += 1;
                false
            }
            Action::Decrement => {
                self.count -= 1;
                false
            }
            Action::Unlock => {
                self.locked = false;
                false
            }
            Action::Hold | Action::Stop => return false,
        };
        *phase = phase.next(observed);
        assert!(!self.occupied || self.hint);
        true
    }

    fn finish(&mut self, mut phase: Phase) -> Phase {
        while self.step(&mut phase) {}
        phase
    }
}

#[test]
fn lookups_find_occupied_slots_only() {
    for hint in [true, false] {
        let mut slot = Shared::vacant(hint);
        assert_eq!(slot.finish(Phase::start(Request::Lookup)), Phase::Done);
        assert_eq!(slot.hint, hint);
        assert!(!slot.locked);
    }
    let mut slot = Shared { occupied: true, ..Shared::vacant(true) };
    assert_eq!(slot.finish(Phase::start(Request::Lookup)), Phase::Held);
    assert!(slot.locked);
    assert_eq!(slot.finish(Phase::Leave), Phase::Done);
    assert!(!slot.locked);
}

#[test]
fn scans_clear_stale_hints() {
    let mut slot = Shared::vacant(true);
    assert_eq!(slot.finish(Phase::start(Request::Scan)), Phase::Done);
    assert!(!slot.hint);
    let mut slot = Shared { occupied: true, ..Shared::vacant(true) };
    assert_eq!(slot.finish(Phase::start(Request::Scan)), Phase::Held);
    assert!(slot.hint);
}

#[test]
fn insertions_hint_before_they_occupy() {
    for hint in [true, false] {
        let mut slot = Shared::vacant(hint);
        assert_eq!(slot.finish(Phase::start(Request::Insert)), Phase::Held);
        assert!(slot.hint && slot.occupied);
        assert_eq!(slot.count, 1);
        assert_eq!(slot.finish(Phase::Remove), Phase::Done);
        assert!(slot.hint && !slot.occupied && !slot.locked);
        assert_eq!(slot.count, 0);
    }
}

#[test]
fn clearing_leaves_neither_task_nor_hint() {
    let mut slot = Shared { occupied: true, count: 1, ..Shared::vacant(true) };
    assert_eq!(slot.finish(Phase::start(Request::Clear)), Phase::Done);
    assert!(!slot.hint && !slot.occupied && !slot.locked);
    assert_eq!(slot.count, 1);
}

#[test]
fn interleaved_first_accesses_initialize_once() {
    for seed in 0..200_u64 {
        let mut slot = Shared::vacant(seed % 2 == 0);
        let mut phases = [Phase::start(Request::Insert); 8];
        phases[7] = Phase::start(Request::Scan);
        let mut state = seed;
        for _ in 0..2000 {
            state = state.wrapping_mul(6364136223846793005).wrapping_add(1442695040888963407);
            let thread = (state >> 33) as usize % phases.len();
            if phases[thread] == Phase::Held {
                assert!(slot.occupied);
                phases[thread] = Phase::Leave;
            }
            slot.step(&mut phases[thread]);
        }
        assert_eq!(phases, [Phase::Done; 8]);
        assert_eq!(slot.fills, 1);
        assert_eq!(slot.count, 1);
        assert!(slot.hint && !slot.locked);
    }
}

#[test]
fn directories_grow_only_as_far_as_needed() {
    assert_eq!(growth_step(true, 0, 3), GrowthStep::Ready);
    assert_eq!(growth_step(true, 9, 3), GrowthStep::Ready);
    assert_eq!(growth_step(false, 3, 3), GrowthStep::Extend);
    assert_eq!(growth_step(false, 4, 3), GrowthStep::Wait);
}

#[test]
fn locks_of_other_slots_are_not_waited_for() {
    let mut slots: Vec<Shared> = (0..4).map(|_| Shared::vacant(true)).collect();
    for slot in &mut slots[..3] {
        assert_eq!(slot.finish(Phase::start(Request::Insert)), Phase::Held);
        assert!(slot.locked);
    }
    let mut waiting = Phase::start(Request::Insert);
    assert!(!slots[0].step(&mut waiting));
    assert_eq!(slots[3].finish(Phase::start(Request::Insert)), Phase::Held);
    slots[3].finish(Phase::Remove);
    assert!(!slots[3].occupied && !slots[3].locked);
    for slot in &slots[..3] {
        assert!(slot.occupied && slot.locked && slot.hint);
    }
}

#[test]
fn the_shared_count_is_right_when_no_lock_is_held() {
    let mut quiet_moments = 0;
    for seed in 0..50_u64 {
        let mut slots: Vec<Shared> = (0..3).map(|_| Shared::vacant(true)).collect();
        let mut threads = [(0, Phase::Done); 6];
        let mut state = seed;
        for _ in 0..3000 {
            state = state.wrapping_mul(6364136223846793005).wrapping_add(1442695040888963407);
            let (at, phase) = &mut threads[(state >> 33) as usize % 6];
            let chance = (state >> 50) as usize;
            match phase {
                Phase::Done => {
                    *at = chance % 3;
                    let requests = [Request::Insert, Request::Lookup, Request::Scan];
                    *phase = Phase::start(requests[chance / 3 % 3]);
                }
                Phase::Held => {
                    *phase = if chance % 2 == 0 { Phase::Remove } else { Phase::Leave };
                }
                _ => {
                    slots[*at].step(phase);
                }
            }
            if slots.iter().all(|slot| !slot.locked) {
                let occupied = slots.iter().filter(|slot| slot.occupied).count();
                let count: i32 = slots.iter().map(|slot| slot.count).sum();
                assert_eq!(count, occupied as i32);
                quiet_moments += 1;
            }
        }
    }
    assert!(quiet_moments > 0);
}

/// A thread on its way to a directory entry, stepped by hand.
#[derive(Clone, Copy, Debug, PartialEq, Eq)]
enum Grower {
    Look,
    Decide,
    Begin,
    Publish(usize),
    Count,
    Ready,
}

/// A directory to which pushes may be under way.
struct Growing {
    visible: Vec<bool>,
    count: usize,
}

impl Growing {
    fn step(&mut self, grower: Grower, need: usize) -> Grower {
        let visible = self.visible.get(need) == Some(&true);
        match grower {
            Grower::Look => match growth_step(visible, self.count, need) {
                GrowthStep::Ready => Grower::Ready,
                _ => Grower::Decide,
            },
            Grower::Decide => match growth_step(false, self.count, need) {
                GrowthStep::Extend => Grower::Begin,
                _ => Grower::Look,
            },
            Grower::Begin => {
                self.visible.push(false);
                Grower::Publish(self.visible.len() - 1)
            }
            Grower::Publish(own) => {
                self.visible[own] = true;
                Grower::Count
            }
            Grower::Count => {
                self.count += 1;
                Grower::Look
            }
            Grower::Ready => Grower::Ready,
        }
    }
}

#[test]
fn a_push_under_way_is_waited_for() {
    let mut directory = Growing { visible: vec![], count: 0 };
    let mut slow = Grower::Begin;
    slow = directory.step(slow, 0);
    assert_eq!(slow, Grower::Publish(0));
    // The other thread makes the entry at 1, and then counts one entry: enough for the one at 0.
    let mut fast = Grower::Look;
    for expected in [
        Grower::Decide,
        Grower::Begin,
        Grower::Publish(1),
        Grower::Count,
        Grower::Look,
        Grower::Decide,
        Grower::Look,
        Grower::Decide,
    ] {
        fast = directory.step(fast, 0);
        assert_eq!(fast, expected);
    }
    assert_eq!(directory.visible, [false, true]);
    slow = directory.step(slow, 0);
    assert_eq!(slow, Grower::Count);
    fast = directory.step(fast, 0);
    fast = directory.step(fast, 0);
    assert_eq!(fast, Grower::Ready);
}

#[test]
fn racing_threads_all_get_their_entries() {
    for seed in 0..100_u64 {
        let needs = [0, 5, 5, 2, 7, 1];
        let mut growers = [Grower::Look; 6];
        let mut directory = Growing { visible: vec![], count: 0 };
        let mut state = seed;
        for _ in 0..5000 {
            state = state.wrapping_mul(6364136223846793005).wrapping_add(1442695040888963407);
            let thread = (state >> 33) as usize % needs.len();
            let before = directory.visible.clone();
            growers[thread] = directory.step(growers[thread], needs[thread]);
            assert!(before.iter().zip(&directory.visible).all(|(was, is)| !*was || *is));
        }
        assert_eq!(growers, [Grower::Ready; 6]);
        assert!(directory.visible.len() >= 8);
        assert!(directory.visible.iter().all(|visible| *visible));
        assert_eq!(directory.count, directory.visible.len());
    }
}

#[test]
fn a_thread_alone_needs_five_steps_per_entry_and_one_more() {
    for need in [0, 1, 9] {
        let mut directory = Growing { visible: vec![], count: 0 };
        let mut grower = Grower::Look;
        let mut steps = 0;
        while grower != Grower::Ready {
            grower = directory.step(grower, need);
            steps += 1;
        }
        assert_eq!(steps, 5 * (need + 1) + 1);
        assert_eq!(directory.count, need + 1);
    }
}
