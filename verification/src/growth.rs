//! How threads that share a directory make it grow.
//!
//! A push to the directory happens in three moments: an index is handed out, the entry at that index
//! becomes visible, and the push is counted. A thread that needs an entry looks for it, reads the
//! count, and goes by `growth_step`. The laws hold of any number of threads, however their steps
//! interleave. Each step is taken to happen at one moment, before or after any other.

use vstd::prelude::*;

use crate::directory::GrowthStep;

verus! {

/// Where a thread is on its way to the entry that it needs.
pub enum Grower {
    /// It looks whether the entry is visible.
    Look,
    /// The entry was not visible. It reads the count and decides.
    Decide,
    /// It begins a push.
    Begin,
    /// Its push was given an index. It makes the entry at that index visible.
    Publish { own: int },
    /// It counts its push.
    Count { own: int },
    /// It has seen the entry that it needs.
    Ready,
}

/// A directory, and where each thread is on its way.
#[verifier::ext_equal]
pub struct GrowingDirectory {
    /// How many indices were handed out.
    pub begun: int,
    /// The indices of the visible entries.
    pub visible: Set<int>,
    /// The indices of the pushes that were counted.
    pub counted: Set<int>,
    pub growers: Map<int, Grower>,
    /// The index of the entry that each thread needs.
    pub needs: Map<int, int>,
}

impl GrowingDirectory {
    /// No push is under way, and the threads have not begun to look.
    pub open spec fn initial(self) -> bool {
        &&& 0 <= self.begun
        &&& self.visible == vstd::set_lib::set_int_range(0, self.begun)
        &&& self.counted == self.visible
        &&& forall|thread: int| #[trigger]
            self.growers.contains_key(thread) ==> {
                &&& self.growers[thread] is Look
                &&& 0 <= self.needs[thread]
            }
    }

    /// What reading the count gives.
    pub open spec fn count(self) -> int {
        self.counted.len() as int
    }

    /// `after` follows when a thread goes one step further. One that is ready stays where it is.
    pub open spec fn moved(self, thread: int, after: GrowingDirectory) -> bool {
        let need = self.needs[thread];
        &&& self.growers.contains_key(thread)
        &&& match self.growers[thread] {
            Grower::Look => after == self.goes_on(
                thread,
                match crate::directory::next_growth_step(
                    self.visible.contains(need),
                    self.count(),
                    need,
                ) {
                    GrowthStep::Ready => Grower::Ready,
                    _ => Grower::Decide,
                },
            ),
            Grower::Decide => after == self.goes_on(
                thread,
                match crate::directory::next_growth_step(false, self.count(), need) {
                    GrowthStep::Extend => Grower::Begin,
                    _ => Grower::Look,
                },
            ),
            Grower::Begin => after == GrowingDirectory {
                begun: self.begun + 1,
                ..self.goes_on(thread, Grower::Publish { own: self.begun })
            },
            Grower::Publish { own } => after == GrowingDirectory {
                visible: self.visible.insert(own),
                ..self.goes_on(thread, Grower::Count { own })
            },
            Grower::Count { own } => after == GrowingDirectory {
                counted: self.counted.insert(own),
                ..self.goes_on(thread, Grower::Look)
            },
            Grower::Ready => after == self,
        }
    }

    pub open spec fn goes_on(self, thread: int, grower: Grower) -> GrowingDirectory {
        GrowingDirectory { growers: self.growers.insert(thread, grower), ..self }
    }

    /// The thread has looked in vain, and finds that enough entries are counted: it has to wait.
    pub open spec fn must_wait(self, thread: int) -> bool {
        &&& self.growers.contains_key(thread)
        &&& self.growers[thread] is Decide
        &&& crate::directory::next_growth_step(false, self.count(), self.needs[thread])
            == GrowthStep::Wait
    }

    /// The thread has been given the index `own`, and has not yet made the entry visible.
    pub open spec fn publishes(self, thread: int, own: int) -> bool {
        &&& self.growers.contains_key(thread)
        &&& self.growers[thread] == Grower::Publish { own }
    }

    /// What holds at every moment: an index that was handed out is visible, or one thread is about
    /// to make it so; only visible entries are counted.
    spec fn sound(self) -> bool {
        &&& 0 <= self.begun
        &&& forall|i: int| #[trigger] self.visible.contains(i) ==> 0 <= i < self.begun
        &&& forall|i: int| #[trigger] self.counted.contains(i) ==> self.visible.contains(i)
        &&& forall|i: int|
            0 <= i < self.begun && !#[trigger] self.visible.contains(i) ==> exists|thread: int|
                self.publishes(thread, i)
        &&& forall|thread: int| #[trigger] self.growers.contains_key(thread) ==> self.fits(thread)
        &&& forall|a: int, b: int|
            #![trigger self.growers[a], self.growers[b]]
            a != b && self.growers.contains_key(a) && self.growers.contains_key(b) && has_index(
                self.growers[a],
            ) && has_index(self.growers[b]) ==> index_of(self.growers[a]) != index_of(
                self.growers[b],
            )
    }

    spec fn fits(self, thread: int) -> bool {
        &&& 0 <= self.needs[thread]
        &&& match self.growers[thread] {
            Grower::Publish { own } => 0 <= own < self.begun && !self.visible.contains(own),
            Grower::Count { own } => self.visible.contains(own) && !self.counted.contains(own),
            _ => true,
        }
    }

    /// How many entries are still to be counted before the thread stops to push.
    spec fn short(self, thread: int) -> int {
        if self.count() <= self.needs[thread] {
            self.needs[thread] + 1 - self.count()
        } else {
            0
        }
    }

    /// How many steps the thread has still to go at most, if it never has to wait.
    spec fn distance(self, thread: int) -> int {
        let short = self.short(thread);
        let shorter = if short > 0 {
            short - 1
        } else {
            0
        };
        match self.growers[thread] {
            Grower::Look => 5 * short + 2,
            Grower::Decide => 5 * short + 1,
            Grower::Begin => 5 * shorter + 5,
            Grower::Publish { .. } => 5 * shorter + 4,
            Grower::Count { .. } => 5 * shorter + 3,
            Grower::Ready => 0,
        }
    }

    /// How many steps the thread has still to go at most, once its entry is visible.
    spec fn distance_once_visible(self, thread: int) -> int {
        match self.growers[thread] {
            Grower::Look => 1,
            Grower::Count { .. } => 2,
            Grower::Publish { .. } => 3,
            Grower::Begin => 4,
            Grower::Decide => 5,
            Grower::Ready => 0,
        }
    }
}

spec fn has_index(grower: Grower) -> bool {
    grower is Publish || grower is Count
}

spec fn index_of(grower: Grower) -> int {
    match grower {
        Grower::Publish { own } => own,
        Grower::Count { own } => own,
        _ => -1,
    }
}

/// The steps, one at a time, of threads that share a directory, and what they lead to.
pub open spec fn growth_run(worlds: Seq<GrowingDirectory>, threads: Seq<int>) -> bool {
    &&& worlds.len() == threads.len() + 1
    &&& worlds[0].initial()
    &&& forall|i: int|
        #![trigger threads[i]]
        0 <= i < threads.len() ==> worlds[i].moved(threads[i], worlds[i + 1])
}

/// How many of the steps from `from` up to `to` are steps of the thread.
pub open spec fn own_steps(threads: Seq<int>, thread: int, from: int, to: int) -> int
    decreases to - from,
{
    if to <= from {
        0
    } else {
        own_steps(threads, thread, from, to - 1) + if threads[to - 1] == thread {
            1int
        } else {
            0
        }
    }
}

proof fn lemma_count(world: GrowingDirectory)
    requires
        world.sound(),
    ensures
        world.counted.finite(),
        world.count() <= world.begun,
{
    let range = vstd::set_lib::set_int_range(0, world.begun);
    vstd::set_lib::lemma_int_range(0, world.begun);
    assert(world.counted.subset_of(range)) by {
        assert forall|i: int| world.counted.contains(i) implies range.contains(i) by {
            assert(world.visible.contains(i));
        }
    }
    vstd::set_lib::lemma_len_subset(world.counted, range);
}

proof fn lemma_growth_move(world: GrowingDirectory, thread: int, after: GrowingDirectory)
    requires
        world.sound(),
        world.moved(thread, after),
    ensures
        after.sound(),
        after.needs == world.needs,
        after.growers.dom() == world.growers.dom(),
        world.visible.subset_of(after.visible),
        world.count() <= after.count(),
        world.growers[thread] is Count ==> after.count() == world.count() + 1,
        forall|other: int|
            other != thread ==> #[trigger] after.growers[other] == world.growers[other],
{
    lemma_count(world);
    assert(after.growers.dom() =~= world.growers.dom());
    assert forall|i: int|
        0 <= i < after.begun && !#[trigger] after.visible.contains(i) implies exists|t: int|
        after.publishes(t, i) by {
        if i < world.begun {
            assert(!world.visible.contains(i));
            let t = choose|t: int| world.publishes(t, i);
            assert(after.publishes(t, i));
        } else {
            assert(after.publishes(thread, i));
        }
    }
    assert forall|t: int| #[trigger] after.growers.contains_key(t) implies after.fits(t) by {
        assert(world.growers.contains_key(t));
        assert(world.fits(t));
        assert(world.growers.contains_key(thread));
        assert(world.fits(thread));
        if t != thread {
            assert(has_index(world.growers[t]) && has_index(world.growers[thread]) ==> index_of(
                world.growers[t],
            ) != index_of(world.growers[thread]));
        }
    }
    assert forall|a: int, b: int|
        #![trigger after.growers[a], after.growers[b]]
        a != b && after.growers.contains_key(a) && after.growers.contains_key(b) && has_index(
            after.growers[a],
        ) && has_index(after.growers[b]) implies index_of(after.growers[a]) != index_of(
        after.growers[b],
    ) by {
        assert(world.fits(a));
        assert(world.fits(b));
    }
}

proof fn lemma_growth_run(worlds: Seq<GrowingDirectory>, threads: Seq<int>, i: int)
    requires
        growth_run(worlds, threads),
        0 <= i < worlds.len(),
    ensures
        worlds[i].sound(),
        worlds[i].needs == worlds[0].needs,
        worlds[i].growers.dom() == worlds[0].growers.dom(),
    decreases i,
{
    if i > 0 {
        lemma_growth_run(worlds, threads, i - 1);
        lemma_growth_move(worlds[i - 1], threads[i - 1], worlds[i]);
    }
}

/// An entry that is visible stays visible, whatever the threads do, and no index is handed out
/// twice.
pub proof fn law_visible_entries_stay(
    worlds: Seq<GrowingDirectory>,
    threads: Seq<int>,
    i: int,
    j: int,
)
    requires
        growth_run(worlds, threads),
        0 <= i <= j < worlds.len(),
    ensures
        worlds[i].visible.subset_of(worlds[j].visible),
        forall|a: int, b: int, own: int| #[trigger]
            worlds[j].publishes(a, own) && #[trigger] worlds[j].publishes(b, own) ==> a == b,
    decreases j - i,
{
    lemma_growth_run(worlds, threads, j);
    if i < j {
        law_visible_entries_stay(worlds, threads, i, j - 1);
        lemma_growth_run(worlds, threads, j - 1);
        lemma_growth_move(worlds[j - 1], threads[j - 1], worlds[j]);
    }
}

/// A thread that has to wait waits for an entry that is visible by now, or that another thread makes
/// visible with its next step.
pub proof fn law_waiting_ends(
    worlds: Seq<GrowingDirectory>,
    threads: Seq<int>,
    i: int,
    thread: int,
) -> (publisher: int)
    requires
        growth_run(worlds, threads),
        0 <= i < worlds.len(),
        worlds[i].must_wait(thread),
    ensures
        ({
            let need = worlds[i].needs[thread];
            worlds[i].visible.contains(need) || {
                &&& publisher != thread
                &&& worlds[i].publishes(publisher, need)
                &&& forall|after: GrowingDirectory| #[trigger]
                    worlds[i].moved(publisher, after) ==> after.visible.contains(need)
            }
        }),
{
    lemma_growth_run(worlds, threads, i);
    lemma_count(worlds[i]);
    let need = worlds[i].needs[thread];
    assert(worlds[i].fits(thread));
    choose|publisher: int| worlds[i].publishes(publisher, need)
}

/// A thread that is ready stays ready.
proof fn lemma_ready_stays(
    worlds: Seq<GrowingDirectory>,
    threads: Seq<int>,
    thread: int,
    from: int,
    to: int,
)
    requires
        growth_run(worlds, threads),
        0 <= from <= to < worlds.len(),
        worlds[from].growers.contains_key(thread),
        worlds[from].growers[thread] is Ready,
    ensures
        worlds[to].growers[thread] is Ready,
    decreases to - from,
{
    if from < to {
        lemma_ready_stays(worlds, threads, thread, from, to - 1);
        lemma_growth_run(worlds, threads, to - 1);
        lemma_growth_move(worlds[to - 1], threads[to - 1], worlds[to]);
    }
}

/// A push under way makes its entry visible with the next step of its thread.
proof fn lemma_published(
    worlds: Seq<GrowingDirectory>,
    threads: Seq<int>,
    publisher: int,
    own: int,
    from: int,
    step: int,
)
    requires
        growth_run(worlds, threads),
        0 <= from <= step < threads.len(),
        worlds[from].publishes(publisher, own),
        threads[step] == publisher,
    ensures
        worlds[step + 1].visible.contains(own),
    decreases step - from,
{
    lemma_growth_run(worlds, threads, from);
    lemma_growth_move(worlds[from], threads[from], worlds[from + 1]);
    if threads[from] == publisher {
        law_visible_entries_stay(worlds, threads, from + 1, step + 1);
    } else {
        lemma_published(worlds, threads, publisher, own, from + 1, step);
    }
}

proof fn lemma_distance(
    worlds: Seq<GrowingDirectory>,
    threads: Seq<int>,
    thread: int,
    from: int,
    to: int,
)
    requires
        growth_run(worlds, threads),
        worlds[0].growers.contains_key(thread),
        0 <= from <= to < worlds.len(),
        forall|i: int|
            from <= i < to && #[trigger] threads[i] == thread ==> !worlds[i].must_wait(thread),
    ensures
        worlds[to].growers[thread] is Ready || own_steps(threads, thread, from, to)
            + worlds[to].distance(thread) <= worlds[from].distance(thread),
    decreases to - from,
{
    if from < to {
        lemma_distance(worlds, threads, thread, from, to - 1);
        let world = worlds[to - 1];
        lemma_growth_run(worlds, threads, to - 1);
        lemma_growth_move(world, threads[to - 1], worlds[to]);
        assert(world.growers.contains_key(thread));
        assert(world.fits(thread));
    }
}

proof fn lemma_distance_once_visible(
    worlds: Seq<GrowingDirectory>,
    threads: Seq<int>,
    thread: int,
    from: int,
    to: int,
)
    requires
        growth_run(worlds, threads),
        worlds[0].growers.contains_key(thread),
        0 <= from <= to < worlds.len(),
        worlds[from].visible.contains(worlds[0].needs[thread]),
    ensures
        worlds[to].growers[thread] is Ready || own_steps(threads, thread, from, to)
            + worlds[to].distance_once_visible(thread) <= worlds[from].distance_once_visible(
            thread,
        ),
    decreases to - from,
{
    if from < to {
        lemma_distance_once_visible(worlds, threads, thread, from, to - 1);
        law_visible_entries_stay(worlds, threads, from, to - 1);
        lemma_growth_run(worlds, threads, to - 1);
        lemma_growth_move(worlds[to - 1], threads[to - 1], worlds[to]);
    }
}

/// Once the entry that a thread needs is visible, the thread is ready after five more steps,
/// whatever the others do meanwhile.
pub proof fn law_ready_soon_after_visible(
    worlds: Seq<GrowingDirectory>,
    threads: Seq<int>,
    thread: int,
    from: int,
    to: int,
)
    requires
        growth_run(worlds, threads),
        worlds[0].growers.contains_key(thread),
        0 <= from <= to < worlds.len(),
        worlds[from].visible.contains(worlds[0].needs[thread]),
        own_steps(threads, thread, from, to) >= 5,
    ensures
        worlds[to].growers[thread] is Ready,
{
    lemma_distance_once_visible(worlds, threads, thread, from, to);
}

/// A thread that goes on gets ready, whatever the others do meanwhile, provided that pushes under
/// way go on too: five steps for each entry up to the one that it needs and two more, then one step
/// of the thread whose push of that entry is under way, if there is one, and five steps more.
pub proof fn law_going_on_gets_ready(
    worlds: Seq<GrowingDirectory>,
    threads: Seq<int>,
    thread: int,
    from: int,
    mid: int,
    late: int,
    to: int,
)
    requires
        growth_run(worlds, threads),
        worlds[0].growers.contains_key(thread),
        0 <= from <= mid <= late <= to < worlds.len(),
        own_steps(threads, thread, from, mid) >= 5 * (worlds[0].needs[thread] + 1) + 2,
        forall|m: int, publisher: int|
            from <= m < mid && #[trigger] worlds[m].publishes(publisher, worlds[0].needs[thread])
                ==> exists|step: int| m <= step < late && #[trigger] threads[step] == publisher,
        own_steps(threads, thread, late, to) >= 5,
    ensures
        worlds[to].growers[thread] is Ready,
{
    let need = worlds[0].needs[thread];
    if exists|i: int|
        from <= i < mid && #[trigger] threads[i] == thread && worlds[i].must_wait(thread) {
        let i = choose|i: int|
            from <= i < mid && #[trigger] threads[i] == thread && worlds[i].must_wait(thread);
        lemma_growth_run(worlds, threads, i);
        let publisher = law_waiting_ends(worlds, threads, i, thread);
        if worlds[i].visible.contains(need) {
            law_visible_entries_stay(worlds, threads, i, late);
        } else {
            assert(worlds[i].publishes(publisher, need));
            let step = choose|step: int| i <= step < late && #[trigger] threads[step] == publisher;
            lemma_published(worlds, threads, publisher, need, i, step);
            law_visible_entries_stay(worlds, threads, step + 1, late);
        }
        law_ready_soon_after_visible(worlds, threads, thread, late, to);
    } else {
        lemma_growth_run(worlds, threads, from);
        lemma_growth_run(worlds, threads, mid);
        lemma_distance(worlds, threads, thread, from, mid);
        assert(worlds[from].fits(thread));
        lemma_ready_stays(worlds, threads, thread, mid, to);
    }
}

/// A thread is ready only where the entry that it needs is visible.
pub proof fn law_ready_means_visible(
    worlds: Seq<GrowingDirectory>,
    threads: Seq<int>,
    thread: int,
    i: int,
)
    requires
        growth_run(worlds, threads),
        0 <= i < worlds.len(),
        worlds[i].growers.contains_key(thread),
        worlds[i].growers[thread] is Ready,
    ensures
        worlds[i].visible.contains(worlds[i].needs[thread]),
    decreases i,
{
    lemma_growth_run(worlds, threads, i);
    if i > 0 {
        lemma_growth_run(worlds, threads, i - 1);
        lemma_growth_move(worlds[i - 1], threads[i - 1], worlds[i]);
        assert(worlds[i - 1].moved(threads[i - 1], worlds[i]));
        if worlds[i - 1].growers[thread] is Ready {
            law_ready_means_visible(worlds, threads, thread, i - 1);
        }
    }
}

} // verus!
