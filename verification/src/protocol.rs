//! How threads that share slots take turns.
//!
//! Where a map is shared between threads, each slot has a lock of its own, while its hint and the
//! count of its namespace are words in memory that anybody may read and write at any time. A thread
//! that wants something of a slot goes through phases. Each phase names one action; the thread
//! performs it, and what it observes thereby decides the next phase. All decisions are made here:
//! whoever performs the actions has none left to make.
//!
//! The laws hold of any number of threads, however their actions interleave: first those on a single
//! slot, then those on the slots of a namespace, which share its count. Each action is taken to
//! happen at one moment, before or after any other.

use vstd::prelude::*;

verus! {

/// What a thread wants of a slot.
#[derive(Clone, Copy, Debug, PartialEq, Eq, Structural)]
pub enum Request {
    /// The task in the slot, if there is one. A stale hint is left alone.
    Lookup,
    /// The task in the slot, if there is one. A stale hint is cleared.
    Scan,
    /// The task in the slot, inserted if there is none.
    Insert,
    /// No task and no hint in a slot that a walk has come to. The caller sets the count of the
    /// namespace.
    Clear,
}

/// What a thread does to a slot in one go.
#[derive(Clone, Copy, Debug, PartialEq, Eq, Structural)]
pub enum Action {
    /// Read the hint, and observe whether it is set.
    LoadHint,
    /// Wait for the lock and take it, and observe whether the slot is occupied.
    Lock,
    SetHint,
    ClearHint,
    /// Make the vacant value present.
    Occupy,
    /// Make the present value vacant.
    Vacate,
    /// Add one to the count of the namespace.
    Increment,
    /// Take one from the count of the namespace.
    Decrement,
    Unlock,
    /// The thread has the lock of an occupied slot. What happens next is up to it.
    Hold,
    /// The thread has nothing more to do with the slot.
    Stop,
}

/// Where a thread is on its way.
#[derive(Clone, Copy, Debug, PartialEq, Eq, Structural)]
pub enum Phase {
    ReadHint { request: Request },
    TakeLock { request: Request },
    /// With the lock: look whether the vacant slot has a hint already.
    ReadHintLocked,
    RaiseHint,
    Fill,
    CountIn,
    /// With the lock: the slot is occupied and counted.
    Held,
    /// With the lock: remove the task.
    Remove,
    CountOut,
    /// With the lock: remove the task without counting it out.
    Discard,
    LowerHint,
    Leave,
    Done,
}

impl Phase {
    /// The first phase towards a request. An insertion does not need the hint, and a walk has read
    /// it already when it comes to clear a slot; the others spare the lock where there is none.
    pub open spec fn first(request: Request) -> Phase {
        if request == Request::Insert || request == Request::Clear {
            Phase::TakeLock { request }
        } else {
            Phase::ReadHint { request }
        }
    }

    /// The action that a phase stands for.
    pub open spec fn action_of(self) -> Action {
        match self {
            Phase::ReadHint { .. } => Action::LoadHint,
            Phase::TakeLock { .. } => Action::Lock,
            Phase::ReadHintLocked => Action::LoadHint,
            Phase::RaiseHint => Action::SetHint,
            Phase::Fill => Action::Occupy,
            Phase::CountIn => Action::Increment,
            Phase::Held => Action::Hold,
            Phase::Remove => Action::Vacate,
            Phase::CountOut => Action::Decrement,
            Phase::Discard => Action::Vacate,
            Phase::LowerHint => Action::ClearHint,
            Phase::Leave => Action::Unlock,
            Phase::Done => Action::Stop,
        }
    }

    /// The phase that follows, given what the action of this one observed.
    pub open spec fn after(self, observed: bool) -> Phase {
        match self {
            Phase::ReadHint { request } => if observed {
                Phase::TakeLock { request }
            } else {
                Phase::Done
            },
            Phase::TakeLock { request } => match request {
                Request::Lookup => if observed {
                    Phase::Held
                } else {
                    Phase::Leave
                },
                Request::Scan => if observed {
                    Phase::Held
                } else {
                    Phase::LowerHint
                },
                Request::Insert => if observed {
                    Phase::Held
                } else {
                    Phase::ReadHintLocked
                },
                Request::Clear => if observed {
                    Phase::Discard
                } else {
                    Phase::LowerHint
                },
            },
            Phase::ReadHintLocked => if observed {
                Phase::Fill
            } else {
                Phase::RaiseHint
            },
            Phase::RaiseHint => Phase::Fill,
            Phase::Fill => Phase::CountIn,
            Phase::CountIn => Phase::Held,
            Phase::Held => Phase::Held,
            Phase::Remove => Phase::CountOut,
            Phase::CountOut => Phase::Leave,
            Phase::Discard => Phase::LowerHint,
            Phase::LowerHint => Phase::Leave,
            Phase::Leave => Phase::Done,
            Phase::Done => Phase::Done,
        }
    }

    /// Whether a thread in this phase has the lock.
    pub open spec fn locked(self) -> bool {
        !(self is ReadHint || self is TakeLock || self is Done)
    }

    pub fn start(request: Request) -> (phase: Phase)
        ensures
            phase == Phase::first(request),
    {
        match request {
            Request::Insert | Request::Clear => Phase::TakeLock { request },
            _ => Phase::ReadHint { request },
        }
    }

    pub fn action(self) -> (action: Action)
        ensures
            action == self.action_of(),
    {
        match self {
            Phase::ReadHint { .. } => Action::LoadHint,
            Phase::TakeLock { .. } => Action::Lock,
            Phase::ReadHintLocked => Action::LoadHint,
            Phase::RaiseHint => Action::SetHint,
            Phase::Fill => Action::Occupy,
            Phase::CountIn => Action::Increment,
            Phase::Held => Action::Hold,
            Phase::Remove => Action::Vacate,
            Phase::CountOut => Action::Decrement,
            Phase::Discard => Action::Vacate,
            Phase::LowerHint => Action::ClearHint,
            Phase::Leave => Action::Unlock,
            Phase::Done => Action::Stop,
        }
    }

    pub fn next(self, observed: bool) -> (phase: Phase)
        ensures
            phase == self.after(observed),
    {
        match self {
            Phase::ReadHint { request } => if observed {
                Phase::TakeLock { request }
            } else {
                Phase::Done
            },
            Phase::TakeLock { request } => {
                if observed {
                    match request {
                        Request::Clear => Phase::Discard,
                        _ => Phase::Held,
                    }
                } else {
                    match request {
                        Request::Lookup => Phase::Leave,
                        Request::Insert => Phase::ReadHintLocked,
                        _ => Phase::LowerHint,
                    }
                }
            },
            // Set the hint first. A racing scan may see a hint at a slot that is still vacant, and
            // look again under the lock, but it never misses an occupied slot.
            Phase::ReadHintLocked => if observed {
                Phase::Fill
            } else {
                Phase::RaiseHint
            },
            Phase::RaiseHint => Phase::Fill,
            Phase::Fill => Phase::CountIn,
            Phase::CountIn => Phase::Held,
            Phase::Held => Phase::Held,
            // The hint stays: the next scan cleans it up, unless the slot is in use again by then.
            Phase::Remove => Phase::CountOut,
            Phase::CountOut => Phase::Leave,
            Phase::Discard => Phase::LowerHint,
            Phase::LowerHint => Phase::Leave,
            Phase::Leave => Phase::Done,
            Phase::Done => Phase::Done,
        }
    }
}

/// What the threads share of a slot.
pub struct SharedSlot {
    pub hint: bool,
    pub occupied: bool,
    /// What the slot contributes to the count of its namespace.
    pub count: int,
    /// How often the slot was occupied, and how often vacated.
    pub fills: nat,
    pub empties: nat,
}

impl SharedSlot {
    /// The slot after an action.
    pub open spec fn performed(self, action: Action) -> SharedSlot {
        match action {
            Action::SetHint => SharedSlot { hint: true, ..self },
            Action::ClearHint => SharedSlot { hint: false, ..self },
            Action::Occupy => SharedSlot { occupied: true, fills: self.fills + 1, ..self },
            Action::Vacate => SharedSlot { occupied: false, empties: self.empties + 1, ..self },
            Action::Increment => SharedSlot { count: self.count + 1, ..self },
            Action::Decrement => SharedSlot { count: self.count - 1, ..self },
            _ => self,
        }
    }

    /// What an action observes.
    pub open spec fn observed(self, action: Action) -> bool {
        match action {
            Action::LoadHint => self.hint,
            Action::Lock => self.occupied,
            _ => false,
        }
    }
}

/// A slot, who has its lock, and where each thread is on its way.
#[verifier::ext_equal]
pub struct World {
    pub slot: SharedSlot,
    pub owner: Option<int>,
    pub phases: Map<int, Phase>,
}

impl World {
    /// A slot that nobody has used yet.
    pub open spec fn initial(self) -> bool {
        &&& !self.slot.occupied
        &&& self.slot.count == 0
        &&& self.slot.fills == 0
        &&& self.slot.empties == 0
        &&& self.owner is None
        &&& self.phases == Map::<int, Phase>::empty()
    }

    /// `after` follows when a thread makes a move.
    pub open spec fn moved(self, mv: Move, after: World) -> bool {
        match mv {
            Move::Begin { thread, request } => {
                &&& self.phases.contains_key(thread) ==> self.phases[thread] is Done
                &&& after == World {
                    phases: self.phases.insert(thread, Phase::first(request)),
                    ..self
                }
            },
            Move::Act { thread } => {
                let phase = self.phases[thread];
                let action = phase.action_of();
                &&& self.phases.contains_key(thread)
                &&& action != Action::Hold && action != Action::Stop
                &&& action == Action::Lock ==> self.owner is None
                &&& after == World {
                    slot: self.slot.performed(action),
                    owner: match action {
                        Action::Lock => Some(thread),
                        Action::Unlock => None,
                        _ => self.owner,
                    },
                    phases: self.phases.insert(thread, phase.after(self.slot.observed(action))),
                }
            },
            Move::Decide { thread, remove } => {
                &&& self.phases.contains_key(thread)
                &&& self.phases[thread] is Held
                &&& after == World {
                    phases: self.phases.insert(
                        thread,
                        if remove {
                            Phase::Remove
                        } else {
                            Phase::Leave
                        },
                    ),
                    ..self
                }
            },
        }
    }

    /// What a move adds to the count of the namespace.
    pub open spec fn counts(self, mv: Move) -> int {
        match mv {
            Move::Act { thread } => match self.phases[thread].action_of() {
                Action::Increment => 1,
                Action::Decrement => -1,
                _ => 0,
            },
            _ => 0,
        }
    }

    /// What holds at every moment: an occupied slot has its hint, and a thread that is in a phase
    /// under the lock has the lock and knows the slot.
    spec fn sound(self) -> bool {
        &&& self.slot.occupied ==> self.slot.hint
        &&& self.slot.fills == self.slot.empties + if self.slot.occupied {
            1nat
        } else {
            0
        }
        &&& forall|thread: int| #[trigger]
            self.phases.contains_key(thread) && self.phases[thread].locked() ==> self.owner == Some(
                thread,
            )
        &&& self.owner matches Some(thread) ==> {
            &&& self.phases.contains_key(thread)
            &&& self.phases[thread].locked()
            &&& known(self.phases[thread], self.slot)
        }
    }

    /// What holds besides, at every moment, where no thread clears the slot: the count is right but
    /// for what the thread with the lock is about to count.
    spec fn counted(self) -> bool {
        &&& forall|thread: int| #[trigger]
            self.phases.contains_key(thread) ==> !clears(self.phases[thread])
        &&& self.slot.count + self.owed() == if self.slot.occupied {
            1int
        } else {
            0
        }
    }

    spec fn owed(self) -> int {
        match self.owner {
            Some(thread) => match self.phases[thread] {
                Phase::CountIn => 1,
                Phase::CountOut => -1,
                _ => 0,
            },
            None => 0,
        }
    }
}

/// What a thread in a phase under the lock knows of the slot.
spec fn known(phase: Phase, slot: SharedSlot) -> bool {
    match phase {
        Phase::ReadHintLocked => !slot.occupied,
        Phase::RaiseHint => !slot.occupied,
        Phase::Fill => !slot.occupied && slot.hint,
        Phase::CountIn => slot.occupied,
        Phase::Held => slot.occupied,
        Phase::Remove => slot.occupied,
        Phase::CountOut => !slot.occupied,
        Phase::Discard => slot.occupied,
        Phase::LowerHint => !slot.occupied,
        _ => true,
    }
}

/// The phase is one towards clearing the slot.
spec fn clears(phase: Phase) -> bool {
    match phase {
        Phase::ReadHint { request } => request == Request::Clear,
        Phase::TakeLock { request } => request == Request::Clear,
        Phase::Discard => true,
        _ => false,
    }
}

/// What a thread may do at a moment.
pub enum Move {
    /// A thread that is not busy with the slot turns to it.
    Begin { thread: int, request: Request },
    /// A thread performs the action of its phase. To take the lock, it must be free.
    Act { thread: int },
    /// A thread that holds an occupied slot sets out to remove the task, or lets go of it.
    Decide { thread: int, remove: bool },
}

/// What happens to a slot that nobody had used before: the moves, one at a time, of any number of
/// threads, and what they lead to.
pub open spec fn run(worlds: Seq<World>, moves: Seq<Move>) -> bool {
    &&& worlds.len() == moves.len() + 1
    &&& worlds[0].initial()
    &&& forall|i: int|
        #![trigger moves[i]]
        0 <= i < moves.len() ==> worlds[i].moved(moves[i], worlds[i + 1])
}

proof fn lemma_move(world: World, mv: Move, after: World)
    requires
        world.sound(),
        world.moved(mv, after),
    ensures
        after.sound(),
        world.counted() && !(mv matches Move::Begin { request, .. } && request == Request::Clear)
            ==> after.counted(),
{
}

proof fn lemma_run(worlds: Seq<World>, moves: Seq<Move>, i: int)
    requires
        run(worlds, moves),
        0 <= i < worlds.len(),
    ensures
        worlds[i].sound(),
        (forall|j: int|
            #![trigger moves[j]]
            0 <= j < moves.len() ==> !(moves[j] matches Move::Begin { request, .. } && request
                == Request::Clear)) ==> worlds[i].counted(),
    decreases i,
{
    if i > 0 {
        lemma_run(worlds, moves, i - 1);
        lemma_move(worlds[i - 1], moves[i - 1], worlds[i]);
    }
}

/// However the threads interleave, an occupied slot is never hidden by a missing hint.
pub proof fn law_no_interleaving_hides_a_task(worlds: Seq<World>, moves: Seq<Move>, i: int)
    requires
        run(worlds, moves),
        0 <= i < worlds.len(),
    ensures
        worlds[i].slot.occupied ==> worlds[i].slot.hint,
{
    lemma_run(worlds, moves, i);
}

/// Two threads never have the lock at once, and one that holds a task holds an occupied slot.
pub proof fn law_holders_exclude_each_other(
    worlds: Seq<World>,
    moves: Seq<Move>,
    i: int,
    a: int,
    b: int,
)
    requires
        run(worlds, moves),
        0 <= i < worlds.len(),
        worlds[i].phases.contains_key(a),
        worlds[i].phases.contains_key(b),
        worlds[i].phases[a].locked(),
        worlds[i].phases[b].locked(),
    ensures
        a == b,
        worlds[i].phases[a] is Held ==> worlds[i].slot.occupied,
{
    lemma_run(worlds, moves, i);
}

/// A value is only ever made present where the slot is vacant, and made vacant where it is occupied,
/// and both only by the thread that has the lock.
pub proof fn law_actions_fit_the_slot(worlds: Seq<World>, moves: Seq<Move>, i: int, thread: int)
    requires
        run(worlds, moves),
        0 <= i < worlds.len(),
        worlds[i].phases.contains_key(thread),
    ensures
        ({
            let action = worlds[i].phases[thread].action_of();
            &&& action == Action::Occupy ==> !worlds[i].slot.occupied && worlds[i].owner == Some(
                thread,
            )
            &&& action == Action::Vacate ==> worlds[i].slot.occupied && worlds[i].owner == Some(
                thread,
            )
            &&& action == Action::Unlock ==> worlds[i].owner == Some(thread)
        }),
{
    lemma_run(worlds, moves, i);
}

/// While a thread has the lock, nobody else changes anything about the slot.
pub proof fn law_locked_slot_is_left_alone(
    worlds: Seq<World>,
    moves: Seq<Move>,
    i: int,
    holder: int,
)
    requires
        run(worlds, moves),
        0 <= i < moves.len(),
        worlds[i].phases.contains_key(holder),
        worlds[i].phases[holder].locked(),
        moves[i] != (Move::Act { thread: holder }),
    ensures
        worlds[i + 1].slot == worlds[i].slot,
{
    lemma_run(worlds, moves, i);
    assert(worlds[i].moved(moves[i], worlds[i + 1]));
}

/// Of all threads that ask for the same new task at once, exactly one brings it into being: as long
/// as no task is removed, the slot is occupied once, and whoever holds the task comes after that.
pub proof fn law_first_access_initializes_once(
    worlds: Seq<World>,
    moves: Seq<Move>,
    i: int,
    thread: int,
)
    requires
        run(worlds, moves),
        0 <= i < worlds.len(),
        worlds[i].slot.empties == 0,
    ensures
        worlds[i].slot.fills <= 1,
        worlds[i].phases.contains_key(thread) && worlds[i].phases[thread] is Held
            ==> worlds[i].slot.fills == 1,
{
    lemma_run(worlds, moves, i);
}

/// Whenever nobody has the lock, the slot is counted if and only if it is occupied. To clear slots
/// does not count them out, so no thread may do that meanwhile.
pub proof fn law_count_is_right_between_holders(worlds: Seq<World>, moves: Seq<Move>, i: int)
    requires
        run(worlds, moves),
        0 <= i < worlds.len(),
        worlds[i].owner is None,
        forall|j: int|
            #![trigger moves[j]]
            0 <= j < moves.len() ==> !(moves[j] matches Move::Begin { request, .. } && request
                == Request::Clear),
    ensures
        worlds[i].slot.count == if worlds[i].slot.occupied {
            1int
        } else {
            0
        },
{
    lemma_run(worlds, moves, i);
}

/// A hint is only ever cleared where the slot is vacant.
pub proof fn law_only_stale_hints_are_cleared(worlds: Seq<World>, moves: Seq<Move>, i: int)
    requires
        run(worlds, moves),
        0 <= i < moves.len(),
        worlds[i].slot.hint,
        !worlds[i + 1].slot.hint,
    ensures
        !worlds[i].slot.occupied,
        !worlds[i + 1].slot.occupied,
{
    lemma_run(worlds, moves, i);
    lemma_run(worlds, moves, i + 1);
    assert(worlds[i].moved(moves[i], worlds[i + 1]));
}

/// Where a thread that starts in a phase gets within a number of actions, and what becomes of the
/// slot, if nobody else comes between.
pub open spec fn undisturbed(phase: Phase, slot: SharedSlot, actions: nat) -> (Phase, SharedSlot)
    decreases actions,
{
    let action = phase.action_of();
    if actions == 0 || action == Action::Hold || action == Action::Stop {
        (phase, slot)
    } else {
        undisturbed(
            phase.after(slot.observed(action)),
            slot.performed(action),
            (actions - 1) as nat,
        )
    }
}

/// The most actions that a thread needs for anything.
pub const MAX_ACTIONS: u8 = 6;

/// A thread that nobody disturbs does to a slot what the functions of the map do: a lookup finds
/// the task and changes nothing; a scan clears a stale hint besides; an insertion sets the hint,
/// occupies and counts the slot; clearing leaves neither task nor hint; removing a task counts it
/// out and leaves its hint.
pub proof fn law_undisturbed_requests(slot: SharedSlot)
    requires
        slot.occupied ==> slot.hint,
    ensures
        undisturbed(Phase::first(Request::Lookup), slot, MAX_ACTIONS as nat) == (
            if slot.occupied {
                Phase::Held
            } else {
                Phase::Done
            },
            slot,
        ),
        undisturbed(Phase::first(Request::Scan), slot, MAX_ACTIONS as nat) == if slot.occupied {
            (Phase::Held, slot)
        } else {
            (Phase::Done, SharedSlot { hint: false, ..slot })
        },
        undisturbed(Phase::first(Request::Insert), slot, MAX_ACTIONS as nat) == (
            Phase::Held,
            if slot.occupied {
                slot
            } else {
                SharedSlot {
                    hint: true,
                    occupied: true,
                    count: slot.count + 1,
                    fills: slot.fills + 1,
                    ..slot
                }
            },
        ),
        undisturbed(Phase::first(Request::Clear), slot, MAX_ACTIONS as nat) == (
            Phase::Done,
            SharedSlot {
                hint: false,
                occupied: false,
                empties: slot.empties + if slot.occupied {
                    1nat
                } else {
                    0
                },
                ..slot
            },
        ),
        slot.occupied ==> undisturbed(Phase::Remove, slot, MAX_ACTIONS as nat) == (
            Phase::Done,
            SharedSlot {
                occupied: false,
                count: slot.count - 1,
                empties: slot.empties + 1,
                ..slot
            },
        ),
{
    reveal_with_fuel(undisturbed, 7);
}

/// A lookup or a scan that finds no hint is done with one look, and an insertion takes one action less
/// where it finds its hint set: neither takes a lock or writes to a hint for nothing.
pub proof fn law_hints_spare_actions(slot: SharedSlot, request: Request)
    requires
        !slot.occupied,
    ensures
        request == Request::Lookup || request == Request::Scan ==> Phase::first(request).action_of()
            == Action::LoadHint,
        (request == Request::Lookup || request == Request::Scan) && !slot.hint ==> undisturbed(
            Phase::first(request),
            slot,
            1,
        ) == (Phase::Done, slot),
        request == Request::Insert || request == Request::Clear ==> Phase::first(request).action_of()
            == Action::Lock,
        slot.hint ==> undisturbed(Phase::first(Request::Insert), slot, 4).0 == Phase::Held,
        !slot.hint ==> undisturbed(Phase::first(Request::Insert), slot, 4).0 == Phase::CountIn,
{
    reveal_with_fuel(undisturbed, 6);
}

/// A thread has the lock from the action that takes it to the one that gives it back, and in no
/// other phase. Only what looks at the slot decides how to go on; a thread that holds a task, or that
/// is done, stays where it is.
pub proof fn law_phases_hang_together(phase: Phase, observed: bool, action: Action, next: Phase)
    requires
        call_ensures(Phase::action, (phase,), action),
        call_ensures(Phase::next, (phase, observed), next),
    ensures
        action == Action::Lock ==> !phase.locked() && next.locked(),
        action == Action::Unlock ==> phase.locked() && next == Phase::Done,
        action != Action::Lock && action != Action::Unlock ==> phase.locked() == next.locked(),
        action == Action::Occupy || action == Action::Vacate || action == Action::SetHint || action
            == Action::ClearHint || action == Action::Increment || action == Action::Decrement
            || action == Action::Hold ==> phase.locked(),
        action != Action::Lock && action != Action::LoadHint ==> next == phase.after(!observed),
        action == Action::Hold <==> phase == Phase::Held,
        action == Action::Stop <==> phase == Phase::Done,
        action == Action::Hold || action == Action::Stop ==> next == phase,
        !Phase::Done.locked(),
{
}

/// The slots of a namespace, each with its own lock, and the one count that they share.
#[verifier::ext_equal]
pub struct SharedNamespace {
    pub slots: Seq<World>,
    pub len: int,
}

impl SharedNamespace {
    /// A namespace whose slots nobody has used yet.
    pub open spec fn initial(self) -> bool {
        &&& self.len == 0
        &&& forall|s: int| 0 <= s < self.slots.len() ==> (#[trigger] self.slots[s]).initial()
    }

    /// `after` follows when a thread makes a move at the slot `at`.
    pub open spec fn moved(self, at: int, mv: Move, after: SharedNamespace) -> bool {
        &&& 0 <= at < self.slots.len()
        &&& self.slots[at].moved(mv, after.slots[at])
        &&& after.slots == self.slots.update(at, after.slots[at])
        &&& after.len == self.len + self.slots[at].counts(mv)
    }

    pub open spec fn occupied_slots(self) -> Set<int> {
        Set::new(|s: int| 0 <= s < self.slots.len() && self.slots[s].slot.occupied)
    }

    /// The number of occupied slots among the first ones.
    spec fn occupied_below(self, end: int) -> int
        decreases end,
    {
        if end <= 0 {
            0
        } else {
            self.occupied_below(end - 1) + if self.slots[end - 1].slot.occupied {
                1int
            } else {
                0
            }
        }
    }

    /// What the first slots contribute to the count.
    spec fn counts_below(self, end: int) -> int
        decreases end,
    {
        if end <= 0 {
            0
        } else {
            self.counts_below(end - 1) + self.slots[end - 1].slot.count
        }
    }

    /// What holds at every moment: each slot is sound, and the shared count is what the slots
    /// contribute to it.
    spec fn sound(self) -> bool {
        &&& forall|s: int| 0 <= s < self.slots.len() ==> (#[trigger] self.slots[s]).sound()
        &&& self.len == self.counts_below(self.slots.len() as int)
    }
}

/// What happens to a namespace that nobody had used before: the moves, one at a time, of any number
/// of threads, each at some slot, and what they lead to.
pub open spec fn namespace_run(
    namespaces: Seq<SharedNamespace>,
    moves: Seq<(int, Move)>,
) -> bool {
    &&& namespaces.len() == moves.len() + 1
    &&& namespaces[0].initial()
    &&& forall|i: int|
        #![trigger moves[i]]
        0 <= i < moves.len() ==> namespaces[i].moved(moves[i].0, moves[i].1, namespaces[i + 1])
}

proof fn lemma_counts_moved(
    namespace: SharedNamespace,
    at: int,
    mv: Move,
    after: SharedNamespace,
    end: int,
)
    requires
        namespace.moved(at, mv, after),
        0 <= end <= namespace.slots.len(),
    ensures
        after.counts_below(end) == namespace.counts_below(end) + if at < end {
            namespace.slots[at].counts(mv)
        } else {
            0
        },
    decreases end,
{
    if end > 0 {
        lemma_counts_moved(namespace, at, mv, after, end - 1);
    }
}

proof fn lemma_nothing_counted(namespace: SharedNamespace, end: int)
    requires
        namespace.initial(),
        end <= namespace.slots.len(),
    ensures
        namespace.counts_below(end) == 0,
    decreases end,
{
    if end > 0 {
        lemma_nothing_counted(namespace, end - 1);
        assert(namespace.slots[end - 1].initial());
    }
}

proof fn lemma_namespace_run(
    namespaces: Seq<SharedNamespace>,
    moves: Seq<(int, Move)>,
    i: int,
)
    requires
        namespace_run(namespaces, moves),
        0 <= i < namespaces.len(),
    ensures
        namespaces[i].sound(),
        namespaces[i].slots.len() == namespaces[0].slots.len(),
        (forall|j: int|
            #![trigger moves[j]]
            0 <= j < moves.len() ==> !(moves[j].1 matches Move::Begin { request, .. } && request
                == Request::Clear)) ==> forall|s: int|
            0 <= s < namespaces[i].slots.len() ==> (#[trigger] namespaces[i].slots[s]).counted(),
    decreases i,
{
    if i > 0 {
        lemma_namespace_run(namespaces, moves, i - 1);
        let before = namespaces[i - 1];
        let (at, mv) = moves[i - 1];
        assert(before.moved(at, mv, namespaces[i]));
        lemma_move(before.slots[at], mv, namespaces[i].slots[at]);
        lemma_counts_moved(before, at, mv, namespaces[i], before.slots.len() as int);
        assert forall|s: int| 0 <= s < namespaces[i].slots.len() implies (
        #[trigger] namespaces[i].slots[s]).sound() by {
            assert(before.slots[s].sound());
        }
        assert forall|s: int|
            0 <= s < namespaces[i].slots.len() && before.slots[s].counted() && s != at implies (
        #[trigger] namespaces[i].slots[s]).counted() by {
            assert(namespaces[i].slots[s] == before.slots[s]);
        }
    } else {
        lemma_nothing_counted(namespaces[0], namespaces[0].slots.len() as int);
        assert forall|s: int| 0 <= s < namespaces[0].slots.len() implies (
        #[trigger] namespaces[0].slots[s]).sound() && namespaces[0].slots[s].counted() by {
            assert(namespaces[0].slots[s].initial());
        }
    }
}

/// Slots are independent: what a thread does at one of them leaves the value, the hint, the lock and
/// the threads of every other as they were.
pub proof fn law_slots_are_independent(
    namespace: SharedNamespace,
    at: int,
    mv: Move,
    after: SharedNamespace,
    other: int,
)
    requires
        namespace.moved(at, mv, after),
        0 <= other < namespace.slots.len(),
        other != at,
    ensures
        after.slots.len() == namespace.slots.len(),
        after.slots[other].slot.occupied == namespace.slots[other].slot.occupied,
        after.slots[other].slot.hint == namespace.slots[other].slot.hint,
        after.slots[other].owner == namespace.slots[other].owner,
        after.slots[other] == namespace.slots[other],
{
}

/// A thread that is about to take the lock of a slot can do so if and only if nobody has the lock of
/// that slot. The other locks have no say in it: where all of them are taken, and by whom, does not
/// matter. Any other action can be performed at once.
pub proof fn law_only_its_own_lock_is_waited_for(
    namespace: SharedNamespace,
    at: int,
    thread: int,
) -> (after: SharedNamespace)
    requires
        0 <= at < namespace.slots.len(),
        namespace.slots[at].phases.contains_key(thread),
        namespace.slots[at].phases[thread].action_of() != Action::Hold,
        namespace.slots[at].phases[thread].action_of() != Action::Stop,
    ensures
        namespace.slots[at].phases[thread].action_of() != Action::Lock
            || namespace.slots[at].owner is None ==> namespace.moved(
            at,
            Move::Act { thread },
            after,
        ),
        namespace.slots[at].phases[thread].action_of() == Action::Lock
            && namespace.slots[at].owner is None ==> after.slots[at].owner == Some(thread),
        namespace.slots[at].phases[thread].action_of() == Action::Lock
            && namespace.slots[at].owner is Some ==> forall|other: SharedNamespace|
            !#[trigger] namespace.moved(at, Move::Act { thread }, other),
{
    let world = namespace.slots[at];
    let phase = world.phases[thread];
    let action = phase.action_of();
    let moved = World {
        slot: world.slot.performed(action),
        owner: match action {
            Action::Lock => Some(thread),
            Action::Unlock => None,
            _ => world.owner,
        },
        phases: world.phases.insert(thread, phase.after(world.slot.observed(action))),
    };
    SharedNamespace {
        slots: namespace.slots.update(at, moved),
        len: namespace.len + world.counts(Move::Act { thread }),
    }
}

/// Whatever goes on at the other slots of its namespace, an occupied slot has its hint, and no two
/// threads have the lock of one slot at once.
pub proof fn law_each_slot_of_a_namespace_is_safe(
    namespaces: Seq<SharedNamespace>,
    moves: Seq<(int, Move)>,
    i: int,
    at: int,
    a: int,
    b: int,
)
    requires
        namespace_run(namespaces, moves),
        0 <= i < namespaces.len(),
        0 <= at < namespaces[i].slots.len(),
    ensures
        namespaces[i].slots[at].slot.occupied ==> namespaces[i].slots[at].slot.hint,
        ({
            let phases = namespaces[i].slots[at].phases;
            phases.contains_key(a) && phases[a].locked() && phases.contains_key(b)
                && phases[b].locked() ==> a == b
        }),
{
    lemma_namespace_run(namespaces, moves, i);
    assert(namespaces[i].slots[at].sound());
}

proof fn lemma_occupied_slots(namespace: SharedNamespace, end: int)
    requires
        0 <= end <= namespace.slots.len(),
    ensures
        ({
            let below = namespace.occupied_slots().intersect(
                vstd::set_lib::set_int_range(0, end),
            );
            below.finite() && below.len() == namespace.occupied_below(end)
        }),
    decreases end,
{
    let below = namespace.occupied_slots().intersect(vstd::set_lib::set_int_range(0, end));
    if end == 0 {
        assert(below =~= Set::<int>::empty());
    } else {
        lemma_occupied_slots(namespace, end - 1);
        let fewer = namespace.occupied_slots().intersect(
            vstd::set_lib::set_int_range(0, end - 1),
        );
        if namespace.slots[end - 1].slot.occupied {
            assert(below =~= fewer.insert(end - 1));
        } else {
            assert(below =~= fewer);
        }
    }
}

proof fn lemma_counted_slots(namespace: SharedNamespace, end: int)
    requires
        end <= namespace.slots.len(),
        forall|s: int|
            0 <= s < namespace.slots.len() ==> {
                &&& (#[trigger] namespace.slots[s]).counted()
                &&& namespace.slots[s].owner is None
            },
    ensures
        namespace.counts_below(end) == namespace.occupied_below(end),
    decreases end,
{
    if end > 0 {
        lemma_counted_slots(namespace, end - 1);
        assert(namespace.slots[end - 1].counted());
    }
}

/// Whenever no lock of the namespace is held, the count that its slots share is the number of the
/// occupied ones, whatever tasks were inserted and removed by then, and by how many threads at once.
/// To clear slots does not count them out, so no thread may do that meanwhile.
pub proof fn law_shared_count_is_right_between_holders(
    namespaces: Seq<SharedNamespace>,
    moves: Seq<(int, Move)>,
    i: int,
)
    requires
        namespace_run(namespaces, moves),
        0 <= i < namespaces.len(),
        forall|s: int|
            0 <= s < namespaces[i].slots.len() ==> (#[trigger] namespaces[i].slots[s]).owner
                is None,
        forall|j: int|
            #![trigger moves[j]]
            0 <= j < moves.len() ==> !(moves[j].1 matches Move::Begin { request, .. } && request
                == Request::Clear),
    ensures
        namespaces[i].occupied_slots().finite(),
        namespaces[i].len == namespaces[i].occupied_slots().len(),
{
    let namespace = namespaces[i];
    let end = namespace.slots.len() as int;
    lemma_namespace_run(namespaces, moves, i);
    lemma_counted_slots(namespace, end);
    lemma_occupied_slots(namespace, end);
    assert(namespace.occupied_slots().intersect(vstd::set_lib::set_int_range(0, end))
        =~= namespace.occupied_slots());
}

} // verus!
