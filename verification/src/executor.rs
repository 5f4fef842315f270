//! The executor's scheduling decisions.
//!
//! The executor owns a root computation and a queue of spawned ones. The
//! computations themselves live with the caller; here each is known by its
//! identifier and a mark that says whether it is ready to be polled. A
//! waker marks its computation ready. A tick polls every ready computation
//! once, the root first and the spawned ones in the order of their arrival.
//! When nothing is ready after a tick the executor pumps the reactor, unless
//! no computation waits for a completion: then it is stalled.

use crate::reactor::Reactor;
use crate::slots::idle;
use vstd::prelude::*;

verus! {

/// The identifier of the root computation.
pub const MAIN: u64 = 0;

/// A spawned computation: its identifier, and whether a wake has marked it
/// ready since it was last polled.
#[derive(Clone, Copy, Debug, PartialEq, Eq, Structural)]
pub struct Task {
    pub id: u64,
    pub ready: bool,
}

/// What the executor does when a tick is over.
#[derive(Clone, Copy, Debug, PartialEq, Eq, Structural)]
pub enum Decision {
    /// A computation is ready: poll again without blocking.
    Tick,
    /// Nothing is ready, and completions are awaited: pump the reactor.
    Pump,
    /// Nothing is ready and nothing is awaited: no progress is possible.
    Stalled,
}

/// The identifiers of the ready computations among `tasks`, in order.
pub open spec fn ready_ids(tasks: Seq<Task>) -> Seq<u64> {
    tasks.filter(|t: Task| t.ready).map_values(|t: Task| t.id)
}

/// Holds of every task but the one with this identifier.
pub open spec fn other_than(id: u64) -> spec_fn(Task) -> bool {
    |t: Task| t.id != id
}

/// The state of the schedule: the mark of the root, and the spawned
/// computations that have not finished, in the order of their arrival.
pub struct Schedule {
    pub main_ready: bool,
    pub tasks: Seq<Task>,
}

impl Schedule {
    /// Whether a spawned computation with this identifier is in the queue.
    pub open spec fn has(self, id: u64) -> bool {
        exists|i: int| 0 <= i < self.tasks.len() && (#[trigger] self.tasks[i]).id == id
    }

    /// Whether the computation `id` is marked ready.
    pub open spec fn is_ready(self, id: u64) -> bool {
        ||| id == MAIN && self.main_ready
        ||| exists|i: int|
            0 <= i < self.tasks.len() && (#[trigger] self.tasks[i]).id == id && self.tasks[i].ready
    }

    /// Whether any computation is marked ready.
    pub open spec fn any_ready(self) -> bool {
        ||| self.main_ready
        ||| exists|i: int| 0 <= i < self.tasks.len() && (#[trigger] self.tasks[i]).ready
    }

    /// The identifiers are those of spawned computations, given out in
    /// rising order: none is `MAIN`, and each is larger than those before it.
    pub open spec fn ordered(self) -> bool {
        &&& forall|i: int| 0 <= i < self.tasks.len() ==> (#[trigger] self.tasks[i]).id != MAIN
        &&& forall|i: int, j: int|
            0 <= i < j < self.tasks.len() ==> (#[trigger] self.tasks[i]).id < (
            #[trigger] self.tasks[j]).id
    }

    /// Whether every identifier in the queue is smaller than `next`.
    pub open spec fn below(self, next: u64) -> bool {
        forall|i: int| 0 <= i < self.tasks.len() ==> (#[trigger] self.tasks[i]).id < next
    }

    /// The schedule after `id` is spawned: it joins the end of the queue,
    /// ready for its first poll.
    pub open spec fn spawned(self, id: u64) -> Schedule {
        Schedule { tasks: self.tasks.push(Task { id, ready: true }), ..self }
    }

    /// The schedule after a wake of `id`: the computation is marked ready.
    /// A wake of a computation that has finished marks nothing.
    pub open spec fn woken(self, id: u64) -> Schedule {
        if id == MAIN {
            Schedule { main_ready: true, ..self }
        } else {
            Schedule {
                tasks: self.tasks.map_values(
                    |t: Task|
                        if t.id == id {
                            Task { id, ready: true }
                        } else {
                            t
                        },
                ),
                ..self
            }
        }
    }

    /// The computations that the next tick polls, in order: the root if it
    /// is ready, then the ready spawned computations as they arrived.
    pub open spec fn plan(self) -> Seq<u64> {
        let head = if self.main_ready {
            seq![MAIN]
        } else {
            Seq::empty()
        };
        head + ready_ids(self.tasks)
    }

    /// The schedule when a tick begins: every mark is cleared.
    pub open spec fn calmed(self) -> Schedule {
        Schedule {
            main_ready: false,
            tasks: self.tasks.map_values(|t: Task| Task { id: t.id, ready: false }),
        }
    }

    /// The schedule after the spawned computation `id` has finished: it
    /// leaves the queue, and the others keep their order.
    pub open spec fn finished(self, id: u64) -> Schedule {
        Schedule { tasks: self.tasks.filter(other_than(id)), ..self }
    }

    /// What to do after a tick. `idle` says that no computation waits for a
    /// completion.
    pub open spec fn decision(self, idle: bool) -> Decision {
        if self.any_ready() {
            Decision::Tick
        } else if idle {
            Decision::Stalled
        } else {
            Decision::Pump
        }
    }
}

/// Wakes coalesce: a second wake of a computation changes nothing.
pub proof fn lemma_wake_idempotent(s: Schedule, id: u64)
    ensures
        s.woken(id).woken(id) == s.woken(id),
{
    assert(s.woken(id).woken(id).tasks =~= s.woken(id).tasks);
}

/// Marks do not matter to the order: a queue with the same identifiers in
/// the same places is ordered, and bounded, as the other is.
pub proof fn lemma_marks_do_not_reorder(before: Schedule, after: Schedule, next: u64)
    requires
        after.tasks.len() == before.tasks.len(),
        forall|i: int|
            0 <= i < before.tasks.len() ==> (#[trigger] after.tasks[i]).id == before.tasks[i].id,
    ensures
        after.ordered() == before.ordered(),
        after.below(next) == before.below(next),
{
    if before.ordered() {
        assert forall|i: int, j: int| 0 <= i < j < after.tasks.len() implies (
        #[trigger] after.tasks[i]).id < (#[trigger] after.tasks[j]).id by {
            assert(before.tasks[i].id < before.tasks[j].id);
        }
    }
    if after.ordered() {
        assert forall|i: int, j: int| 0 <= i < j < before.tasks.len() implies (
        #[trigger] before.tasks[i]).id < (#[trigger] before.tasks[j]).id by {
            assert(after.tasks[i].id < after.tasks[j].id);
        }
        assert forall|i: int| 0 <= i < before.tasks.len() implies (#[trigger] before.tasks[i]).id
            != MAIN by {
            assert(after.tasks[i].id != MAIN);
        }
    }
    if after.below(next) {
        assert forall|i: int| 0 <= i < before.tasks.len() implies (#[trigger] before.tasks[i]).id
            < next by {
            assert(after.tasks[i].id < next);
        }
    }
}

/// A wake marks its computation ready, if the computation is the root or
/// in the queue, and takes no mark away.
pub proof fn lemma_wake_marks_ready(s: Schedule, id: u64)
    requires
        id == MAIN || s.has(id),
    ensures
        s.woken(id).is_ready(id),
        forall|other: u64| s.is_ready(other) ==> s.woken(id).is_ready(other),
{
    let w = s.woken(id);
    if id != MAIN {
        let i = choose|i: int| 0 <= i < s.tasks.len() && (#[trigger] s.tasks[i]).id == id;
        assert(w.tasks[i].id == id && w.tasks[i].ready);
    }
    assert forall|other: u64| s.is_ready(other) implies w.is_ready(other) by {
        if !(other == MAIN && s.main_ready) {
            let i = choose|i: int|
                0 <= i < s.tasks.len() && (#[trigger] s.tasks[i]).id == other && s.tasks[i].ready;
            assert(w.tasks[i].id == other && w.tasks[i].ready);
        }
    }
}

/// One more task at the end adds its identifier to the ready ones exactly
/// when it is ready.
pub proof fn lemma_ready_ids_push(tasks: Seq<Task>, task: Task)
    ensures
        ready_ids(tasks.push(task)) == if task.ready {
            ready_ids(tasks).push(task.id)
        } else {
            ready_ids(tasks)
        },
{
    let is_ready = |t: Task| t.ready;
    tasks.lemma_filter_push(task, is_ready);
    if task.ready {
        assert(tasks.filter(is_ready).push(task).map_values(|t: Task| t.id) =~= tasks.filter(
            is_ready,
        ).map_values(|t: Task| t.id).push(task.id));
    }
}

/// An identifier is among the ready ones exactly when a ready task carries
/// it, and there are no more ready identifiers than tasks.
pub proof fn lemma_ready_ids_members(tasks: Seq<Task>)
    ensures
        forall|id: u64|
            ready_ids(tasks).contains(id) <==> exists|i: int|
                0 <= i < tasks.len() && (#[trigger] tasks[i]).id == id && tasks[i].ready,
        ready_ids(tasks).len() <= tasks.len(),
    decreases tasks.len(),
{
    if tasks.len() == 0 {
        assert(tasks.filter(|t: Task| t.ready) =~= Seq::<Task>::empty()) by {
            reveal(Seq::filter);
        }
        assert(ready_ids(tasks) =~= Seq::<u64>::empty());
    } else {
        let init = tasks.drop_last();
        let last = tasks.last();
        assert(tasks =~= init.push(last));
        lemma_ready_ids_members(init);
        lemma_ready_ids_push(init, last);
        assert forall|id: u64|
            ready_ids(tasks).contains(id) <==> exists|i: int|
                0 <= i < tasks.len() && (#[trigger] tasks[i]).id == id && tasks[i].ready by {
            if ready_ids(tasks).contains(id) {
                let k = choose|k: int| 0 <= k < ready_ids(tasks).len() && ready_ids(tasks)[k] == id;
                if last.ready && k == ready_ids(init).len() {
                    assert(tasks[tasks.len() - 1].id == id);
                } else {
                    assert(ready_ids(init)[k] == id);
                    assert(ready_ids(init).contains(id));
                    let i = choose|i: int|
                        0 <= i < init.len() && (#[trigger] init[i]).id == id && init[i].ready;
                    assert(tasks[i].id == id && tasks[i].ready);
                }
            }
            if exists|i: int|
                0 <= i < tasks.len() && (#[trigger] tasks[i]).id == id && tasks[i].ready {
                let i = choose|i: int|
                    0 <= i < tasks.len() && (#[trigger] tasks[i]).id == id && tasks[i].ready;
                if i == tasks.len() - 1 {
                    assert(ready_ids(tasks)[ready_ids(init).len() as int] == id);
                } else {
                    assert(init[i].id == id && init[i].ready);
                    assert(ready_ids(init).contains(id));
                    let k = choose|k: int|
                        0 <= k < ready_ids(init).len() && ready_ids(init)[k] == id;
                    assert(ready_ids(tasks)[k] == id);
                }
            }
        }
    }
}

/// The next tick polls exactly the computations that are marked ready.
pub proof fn lemma_plan_is_the_ready(s: Schedule, id: u64)
    ensures
        s.plan().contains(id) <==> s.is_ready(id),
{
    lemma_ready_ids_members(s.tasks);
    let head = if s.main_ready {
        seq![MAIN]
    } else {
        Seq::empty()
    };
    let rest = ready_ids(s.tasks);
    assert(s.plan() == head + rest);
    if s.plan().contains(id) {
        let k = choose|k: int| 0 <= k < s.plan().len() && s.plan()[k] == id;
        if k < head.len() {
            assert(id == MAIN && s.main_ready);
        } else {
            assert(rest[k - head.len()] == id);
            assert(rest.contains(id));
        }
    }
    if s.is_ready(id) {
        if id == MAIN && s.main_ready {
            assert(s.plan()[0] == id);
        } else {
            assert(rest.contains(id));
            let k = choose|k: int| 0 <= k < rest.len() && rest[k] == id;
            assert(s.plan()[head.len() + k] == id);
        }
    }
}

/// The executor blocks only for a reason: it pumps only when nothing is
/// ready and a computation waits for a completion, it is stalled only when
/// nothing is ready and nothing is awaited, and a tick that it asks for has
/// a computation to poll.
pub proof fn lemma_decision_is_justified(s: Schedule, idle: bool)
    ensures
        s.decision(idle) is Tick <==> s.any_ready(),
        s.decision(idle) is Pump <==> !s.any_ready() && !idle,
        s.decision(idle) is Stalled <==> !s.any_ready() && idle,
        s.any_ready() <==> s.plan().len() > 0,
{
    lemma_ready_ids_members(s.tasks);
    let rest = ready_ids(s.tasks);
    if s.any_ready() && !s.main_ready {
        let i = choose|i: int| 0 <= i < s.tasks.len() && (#[trigger] s.tasks[i]).ready;
        assert(rest.contains(s.tasks[i].id));
    }
    if rest.len() > 0 {
        assert(rest.contains(rest[0]));
    }
}

/// The ready identifiers of an ordered queue rise, and each is at most the
/// identifier of the last task.
proof fn lemma_ready_ids_rise(s: Schedule)
    requires
        s.ordered(),
    ensures
        forall|i: int, j: int|
            0 <= i < j < ready_ids(s.tasks).len() ==> #[trigger] ready_ids(s.tasks)[i]
                < #[trigger] ready_ids(s.tasks)[j],
        forall|i: int|
            0 <= i < ready_ids(s.tasks).len() ==> MAIN < #[trigger] ready_ids(s.tasks)[i]
                <= s.tasks.last().id,
    decreases s.tasks.len(),
{
    let tasks = s.tasks;
    if tasks.len() == 0 {
        lemma_ready_ids_members(tasks);
    } else {
        let init = tasks.drop_last();
        let last = tasks.last();
        assert(tasks =~= init.push(last));
        let shorter = Schedule { tasks: init, ..s };
        assert(shorter.ordered()) by {
            assert forall|i: int, j: int| 0 <= i < j < init.len() implies (#[trigger] init[i]).id
                < (#[trigger] init[j]).id by {
                assert(tasks[i].id < tasks[j].id);
            }
            assert forall|i: int| 0 <= i < init.len() implies (#[trigger] init[i]).id != MAIN by {
                assert(tasks[i].id != MAIN);
            }
        }
        lemma_ready_ids_rise(shorter);
        lemma_ready_ids_push(init, last);
        lemma_ready_ids_members(init);
        assert(tasks[tasks.len() - 1].id != MAIN);
        if init.len() > 0 {
            assert(tasks[init.len() - 1].id < tasks[tasks.len() - 1].id);
            assert(init.last().id < last.id);
        }
    }
}

/// A tick polls in the order of arrival, the root first, and polls no
/// computation twice: the identifiers of the plan rise.
pub proof fn lemma_plan_in_arrival_order(s: Schedule)
    requires
        s.ordered(),
    ensures
        forall|i: int, j: int|
            0 <= i < j < s.plan().len() ==> #[trigger] s.plan()[i] < #[trigger] s.plan()[j],
        s.plan().no_duplicates(),
{
    lemma_ready_ids_rise(s);
    let head = if s.main_ready {
        seq![MAIN]
    } else {
        Seq::empty()
    };
    let rest = ready_ids(s.tasks);
    assert forall|i: int, j: int| 0 <= i < j < s.plan().len() implies #[trigger] s.plan()[i]
        < #[trigger] s.plan()[j] by {
        assert(s.plan()[j] == rest[j - head.len()]);
        if i >= head.len() {
            assert(s.plan()[i] == rest[i - head.len()]);
        }
    }
}

/// The scheduling state of one executor.
pub struct Scheduler {
    main_ready: bool,
    tasks: Vec<Task>,
    next_id: u64,
}

impl View for Scheduler {
    type V = Schedule;

    closed spec fn view(&self) -> Schedule {
        Schedule { main_ready: self.main_ready, tasks: self.tasks@ }
    }
}

impl Scheduler {
    /// The identifier that the next spawned computation gets.
    pub closed spec fn next_id(&self) -> u64 {
        self.next_id
    }

    /// The queue is in the order of arrival, and every identifier in it was
    /// given out before.
    pub open spec fn wf(&self) -> bool {
        &&& self@.ordered()
        &&& self@.below(self.next_id())
        &&& MAIN < self.next_id()
    }

    /// A schedule with the root alone, ready for its first poll.
    pub fn new() -> (scheduler: Scheduler)
        ensures
            scheduler.wf(),
            scheduler@ == (Schedule { main_ready: true, tasks: Seq::empty() }),
            scheduler.next_id() == 1,
    {
        Scheduler { main_ready: true, tasks: Vec::new(), next_id: 1 }
    }

    /// Whether another computation can be spawned: the identifiers have not
    /// run out.
    pub fn can_spawn(&self) -> (can: bool)
        ensures
            can == (self.next_id() < u64::MAX),
    {
        self.next_id < u64::MAX
    }

    /// Enqueues a new computation at the end of the queue, ready for its
    /// first poll, and hands out its identifier.
    pub fn spawn(&mut self) -> (id: u64)
        requires
            old(self).wf(),
            old(self).next_id() < u64::MAX,
        ensures
            final(self).wf(),
            id == old(self).next_id(),
            final(self).next_id() == id + 1,
            !old(self)@.has(id),
            final(self)@ == old(self)@.spawned(id),
    {
        let id = self.next_id;
        self.tasks.push(Task { id, ready: true });
        self.next_id = id + 1;
        proof {
            assert forall|i: int, j: int| 0 <= i < j < self@.tasks.len() implies (
            #[trigger] self@.tasks[i]).id < (#[trigger] self@.tasks[j]).id by {
                assert(old(self)@.tasks[i].id < id);
                if j < old(self)@.tasks.len() {
                    assert(old(self)@.tasks[i].id < old(self)@.tasks[j].id);
                }
            }
            assert forall|i: int| 0 <= i < self@.tasks.len() implies (#[trigger] self@.tasks[i]).id
                != MAIN by {
                if i < old(self)@.tasks.len() {
                    assert(old(self)@.tasks[i].id != MAIN);
                }
            }
            assert forall|i: int| 0 <= i < self@.tasks.len() implies (#[trigger] self@.tasks[i]).id
                < self.next_id() by {
                if i < old(self)@.tasks.len() {
                    assert(old(self)@.tasks[i].id < id);
                }
            }
        }
        id
    }

    /// Records a wake of the computation `id`. Waking a computation that is
    /// already marked, or one that has finished, changes nothing.
    pub fn wake(&mut self, id: u64)
        requires
            old(self).wf(),
        ensures
            final(self).wf(),
            final(self).next_id() == old(self).next_id(),
            final(self)@ == old(self)@.woken(id),
    {
        if id == MAIN {
            self.main_ready = true;
        } else {
            let mut i: usize = 0;
            while i < self.tasks.len()
                invariant
                    i <= self.tasks@.len(),
                    id != MAIN,
                    self.main_ready == old(self).main_ready,
                    self.next_id == old(self).next_id,
                    self.tasks@.len() == old(self).tasks@.len(),
                    forall|k: int|
                        0 <= k < i ==> #[trigger] self.tasks@[k] == old(self)@.woken(id).tasks[k],
                    forall|k: int|
                        i <= k < self.tasks@.len() ==> #[trigger] self.tasks@[k] == old(
                            self,
                        ).tasks@[k],
                decreases self.tasks@.len() - i,
            {
                if self.tasks[i].id == id {
                    self.tasks[i] = Task { id, ready: true };
                }
                i += 1;
            }
            proof {
                assert(self@.tasks =~= old(self)@.woken(id).tasks);
            }
        }
        proof {
            lemma_marks_do_not_reorder(old(self)@, self@, self.next_id());
        }
    }

    /// Begins a tick: hands out the computations to poll, in order, and
    /// clears every mark. A wake that arrives from now on counts for the
    /// next tick.
    pub fn begin_tick(&mut self) -> (plan: Vec<u64>)
        requires
            old(self).wf(),
        ensures
            final(self).wf(),
            final(self).next_id() == old(self).next_id(),
            final(self)@ == old(self)@.calmed(),
            plan@ == old(self)@.plan(),
    {
        let mut plan: Vec<u64> = Vec::new();
        if self.main_ready {
            plan.push(MAIN);
            self.main_ready = false;
        }
        let ghost head = plan@;
        let mut i: usize = 0;
        while i < self.tasks.len()
            invariant
                i <= self.tasks@.len(),
                self.main_ready == false,
                self.next_id == old(self).next_id,
                self.tasks@.len() == old(self).tasks@.len(),
                plan@ == head + ready_ids(old(self).tasks@.take(i as int)),
                forall|k: int|
                    0 <= k < i ==> #[trigger] self.tasks@[k] == (Task {
                        id: old(self).tasks@[k].id,
                        ready: false,
                    }),
                forall|k: int|
                    i <= k < self.tasks@.len() ==> #[trigger] self.tasks@[k] == old(self).tasks@[k],
            decreases self.tasks@.len() - i,
        {
            let task = self.tasks[i];
            proof {
                assert(old(self).tasks@.take(i + 1) =~= old(self).tasks@.take(i as int).push(task));
                lemma_ready_ids_push(old(self).tasks@.take(i as int), task);
            }
            if task.ready {
                plan.push(task.id);
                self.tasks[i] = Task { id: task.id, ready: false };
                proof {
                    assert(plan@ =~= head + ready_ids(old(self).tasks@.take(i + 1)));
                }
            }
            i += 1;
        }
        proof {
            assert(old(self).tasks@.take(i as int) =~= old(self).tasks@);
            assert(self@.tasks =~= old(self)@.calmed().tasks);
            lemma_marks_do_not_reorder(old(self)@, self@, self.next_id());
        }
        plan
    }

    /// Records that the spawned computation `id` has finished: it leaves the
    /// queue.
    pub fn finished(&mut self, id: u64)
        requires
            old(self).wf(),
        ensures
            final(self).wf(),
            final(self).next_id() == old(self).next_id(),
            final(self)@ == old(self)@.finished(id),
    {
        let ghost keep = other_than(id);
        let mut kept: Vec<Task> = Vec::new();
        let mut i: usize = 0;
        while i < self.tasks.len()
            invariant
                i <= self.tasks@.len(),
                self.tasks == old(self).tasks,
                self.main_ready == old(self).main_ready,
                self.next_id == old(self).next_id,
                keep == other_than(id),
                kept@ == self.tasks@.take(i as int).filter(keep),
            decreases self.tasks@.len() - i,
        {
            proof {
                assert(self.tasks@.take(i + 1) =~= self.tasks@.take(i as int).push(
                    self.tasks@[i as int],
                ));
                self.tasks@.take(i as int).lemma_filter_push(self.tasks@[i as int], keep);
            }
            if self.tasks[i].id != id {
                kept.push(self.tasks[i]);
            }
            i += 1;
        }
        proof {
            assert(self.tasks@.take(i as int) =~= self.tasks@);
        }
        self.tasks = kept;
        proof {
            lemma_finished_keeps_order(old(self)@, id, self.next_id());
        }
    }

    /// Decides what follows a tick, with this reactor: the executor is
    /// stalled when nothing is ready and no slot of the reactor waits.
    pub fn after_tick(&self, reactor: &Reactor) -> (decision: Decision)
        ensures
            decision == self@.decision(idle(reactor@)),
    {
        self.decide(reactor.is_idle())
    }

    /// Decides what follows a tick. `idle` says that no computation waits
    /// for a completion.
    pub fn decide(&self, idle: bool) -> (decision: Decision)
        ensures
            decision == self@.decision(idle),
    {
        if self.main_ready {
            return Decision::Tick;
        }
        let mut i: usize = 0;
        while i < self.tasks.len()
            invariant
                i <= self.tasks@.len(),
                !self.main_ready,
                forall|k: int| 0 <= k < i ==> !(#[trigger] self.tasks@[k]).ready,
            decreases self.tasks@.len() - i,
        {
            if self.tasks[i].ready {
                proof {
                    assert(self@.tasks[i as int].ready);
                }
                return Decision::Tick;
            }
            i += 1;
        }
        if idle {
            Decision::Stalled
        } else {
            Decision::Pump
        }
    }
}

/// Taking a finished computation out of the queue leaves the others in
/// their order, and takes that computation out altogether.
pub proof fn lemma_finished_keeps_order(s: Schedule, id: u64, next: u64)
    requires
        s.ordered(),
        s.below(next),
    ensures
        s.finished(id).ordered(),
        s.finished(id).below(next),
        !s.finished(id).has(id),
    decreases s.tasks.len(),
{
    let keep = other_than(id);
    let kept = s.tasks.filter(keep);
    assert forall|i: int| 0 <= i < kept.len() implies (#[trigger] kept[i]).id != MAIN
        && kept[i].id != id && kept[i].id < next by {
        s.tasks.lemma_filter_pred(keep, i);
        assert(kept.contains(kept[i]));
        s.tasks.lemma_filter_contains_rev(keep, kept[i]);
        let j = choose|j: int| 0 <= j < s.tasks.len() && s.tasks[j] == kept[i];
        assert(s.tasks[j].id != MAIN && s.tasks[j].id < next);
    }
    if s.tasks.len() > 0 {
        let init = s.tasks.drop_last();
        let last = s.tasks.last();
        assert(s.tasks =~= init.push(last));
        let shorter = Schedule { tasks: init, ..s };
        assert(shorter.ordered() && shorter.below(next)) by {
            assert forall|i: int, j: int| 0 <= i < j < init.len() implies (#[trigger] init[i]).id
                < (#[trigger] init[j]).id by {
                assert(s.tasks[i].id < s.tasks[j].id);
            }
            assert forall|i: int| 0 <= i < init.len() implies (#[trigger] init[i]).id != MAIN
                && init[i].id < next by {
                assert(s.tasks[i].id != MAIN && s.tasks[i].id < next);
            }
        }
        lemma_finished_keeps_order(shorter, id, next);
        init.lemma_filter_push(last, keep);
        let before = init.filter(keep);
        assert forall|i: int, j: int| 0 <= i < j < kept.len() implies (#[trigger] kept[i]).id < (
        #[trigger] kept[j]).id by {
            if j < before.len() {
                let shortened = shorter.finished(id);
                assert(shortened.tasks[i].id < shortened.tasks[j].id);
            } else {
                assert(before.contains(before[i]));
                init.lemma_filter_contains_rev(keep, before[i]);
                let k = choose|k: int| 0 <= k < init.len() && init[k] == before[i];
                assert(s.tasks[k].id < s.tasks[s.tasks.len() - 1].id);
            }
        }
    }
}

} // verus!
