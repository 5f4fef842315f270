//! The mathematical model of the reactor: one slot per token, and the
//! transitions that submission, completion, invalidation and consumption
//! make on the table of slots.

use std::task::Waker;
use vstd::prelude::*;

verus! {

/// `std::task::Waker`, the handle that resumes a suspended computation.
/// Nothing is known of a waker but its identity.
#[verifier::external_type_specification]
#[verifier::external_body]
pub struct ExWaker(std::task::Waker);

/// One completion event of the ring: the token that the submission was
/// stamped with, and the kernel's result word.
#[derive(Clone, Copy, Debug, PartialEq, Eq, Structural)]
pub struct Completion {
    pub token: u64,
    pub result: i32,
}

/// The life of a token. A slot starts as `Waiting`, becomes `Ready` when
/// the completion arrives and `Vacant` when the result is consumed. A slot
/// whose descriptor is closed while it waits becomes `Vacant` at once.
pub enum Slot {
    /// Submitted; `waker` resumes the computation that waits on `fd`.
    Waiting { fd: i32, waker: Waker },
    /// Completed; the result has not been consumed yet.
    Ready { result: i32 },
    /// Neither a waker nor a result is held.
    Vacant,
}

/// Whether `token` names a slot of the table.
pub open spec fn issued(slots: Seq<Slot>, token: u64) -> bool {
    token < slots.len()
}

/// Whether the slot waits for a completion on descriptor `fd`.
pub open spec fn waits_on(slot: Slot, fd: i32) -> bool {
    slot matches Slot::Waiting { fd: bound, .. } && bound == fd
}

/// Whether no slot of the table waits: no completion can resume anybody.
pub open spec fn idle(slots: Seq<Slot>) -> bool {
    forall|t: int| 0 <= t < slots.len() ==> !((#[trigger] slots[t]) is Waiting)
}

/// The table after a submission on `fd`: a new waiting slot at the end,
/// whose index is the fresh token.
pub open spec fn after_submit(slots: Seq<Slot>, fd: i32, waker: Waker) -> Seq<Slot> {
    slots.push(Slot::Waiting { fd, waker })
}

/// The table after `fd` is closed: every slot that waited on `fd` is vacant.
pub open spec fn after_invalidate(slots: Seq<Slot>, fd: i32) -> Seq<Slot> {
    Seq::new(
        slots.len(),
        |t: int|
            if waits_on(slots[t], fd) {
                Slot::Vacant
            } else {
                slots[t]
            },
    )
}

/// A completion is on time when its slot still waits; otherwise it is late.
pub open spec fn on_time(slots: Seq<Slot>, c: Completion) -> bool {
    issued(slots, c.token) && slots[c.token as int] is Waiting
}

/// The table after one completion is drained: an on-time completion turns
/// its slot into `Ready`, a late one changes nothing.
pub open spec fn after_completion(slots: Seq<Slot>, c: Completion) -> Seq<Slot> {
    if on_time(slots, c) {
        slots.update(c.token as int, Slot::Ready { result: c.result })
    } else {
        slots
    }
}

/// The waker that one completion releases: that of its slot when it is on
/// time, none when it is late.
pub open spec fn woken_by(slots: Seq<Slot>, c: Completion) -> Option<Waker> {
    if on_time(slots, c) {
        Some(slots[c.token as int]->waker)
    } else {
        None
    }
}

/// The table after a batch of completions is drained in order.
pub open spec fn after_drain(slots: Seq<Slot>, batch: Seq<Completion>) -> Seq<Slot>
    decreases batch.len(),
{
    if batch.len() == 0 {
        slots
    } else {
        after_completion(after_drain(slots, batch.drop_last()), batch.last())
    }
}

/// The wakers that a batch releases, in the order of their completions.
pub open spec fn woken(slots: Seq<Slot>, batch: Seq<Completion>) -> Seq<Waker>
    decreases batch.len(),
{
    if batch.len() == 0 {
        Seq::empty()
    } else {
        let before = woken(slots, batch.drop_last());
        match woken_by(after_drain(slots, batch.drop_last()), batch.last()) {
            Some(waker) => before.push(waker),
            None => before,
        }
    }
}

/// How many completions of a batch are on time when their turn comes.
pub open spec fn on_time_count(slots: Seq<Slot>, batch: Seq<Completion>) -> nat
    decreases batch.len(),
{
    if batch.len() == 0 {
        0
    } else {
        let before = on_time_count(slots, batch.drop_last());
        if on_time(after_drain(slots, batch.drop_last()), batch.last()) {
            before + 1
        } else {
            before
        }
    }
}

/// The result that `token` holds, if its completion has arrived and nobody
/// has consumed it.
pub open spec fn result_at(slots: Seq<Slot>, token: u64) -> Option<i32> {
    if issued(slots, token) && slots[token as int] is Ready {
        Some(slots[token as int]->result)
    } else {
        None
    }
}

/// The table after the result of `token` is asked for: a ready slot is
/// vacant afterwards, any other slot is untouched.
pub open spec fn after_take(slots: Seq<Slot>, token: u64) -> Seq<Slot> {
    if result_at(slots, token) is Some {
        slots.update(token as int, Slot::Vacant)
    } else {
        slots
    }
}

/// One call into the reactor.
pub enum Event {
    Submit { fd: i32, waker: Waker },
    Invalidate { fd: i32 },
    Complete { completion: Completion },
    Take { token: u64 },
}

/// The table after one call.
pub open spec fn step(slots: Seq<Slot>, event: Event) -> Seq<Slot> {
    match event {
        Event::Submit { fd, waker } => after_submit(slots, fd, waker),
        Event::Invalidate { fd } => after_invalidate(slots, fd),
        Event::Complete { completion } => after_completion(slots, completion),
        Event::Take { token } => after_take(slots, token),
    }
}

/// The table after a sequence of calls.
pub open spec fn run(slots: Seq<Slot>, trace: Seq<Event>) -> Seq<Slot>
    decreases trace.len(),
{
    if trace.len() == 0 {
        slots
    } else {
        step(run(slots, trace.drop_last()), trace.last())
    }
}

/// How far a slot is in its life: it waits, then it is ready, then vacant.
pub open spec fn stage(slot: Slot) -> nat {
    match slot {
        Slot::Waiting { .. } => 0,
        Slot::Ready { .. } => 1,
        Slot::Vacant => 2,
    }
}

/// No call removes a slot or takes one back in its life: a waker is set at
/// submission only, a result only where a waker was, and a vacant slot
/// stays vacant.
pub proof fn lemma_slot_never_goes_back(slots: Seq<Slot>, event: Event, token: int)
    requires
        0 <= token < slots.len(),
    ensures
        step(slots, event).len() >= slots.len(),
        stage(step(slots, event)[token]) >= stage(slots[token]),
        step(slots, event)[token] is Ready && !(slots[token] is Ready) ==> slots[token] is Waiting,
{
}

/// How many of the calls in `trace` ask for the result of `token` and get
/// one.
pub open spec fn results_taken(slots: Seq<Slot>, trace: Seq<Event>, token: u64) -> nat
    decreases trace.len(),
{
    if trace.len() == 0 {
        0
    } else {
        let earlier = results_taken(slots, trace.drop_last(), token);
        let now = run(slots, trace.drop_last());
        if trace.last() == (Event::Take { token }) && result_at(now, token) is Some {
            earlier + 1
        } else {
            earlier
        }
    }
}

/// How many results `token` can still give: none once its slot is vacant,
/// one before that, whether the slot exists yet or not.
pub open spec fn results_owed(slots: Seq<Slot>, token: u64) -> nat {
    if issued(slots, token) && slots[token as int] is Vacant {
        0
    } else {
        1
    }
}

/// No call adds a result to what a token owes, and a call that takes the
/// result uses it up.
pub proof fn lemma_step_owes_no_more(slots: Seq<Slot>, event: Event, token: u64)
    ensures
        results_owed(step(slots, event), token) <= results_owed(slots, token),
        event == (Event::Take { token }) && result_at(slots, token) is Some ==> results_owed(
            step(slots, event),
            token,
        ) == 0 && results_owed(slots, token) == 1,
{
}

/// Over any sequence of calls, the results taken for a token and the one it
/// may still owe at the end are no more than it owed at the start.
pub proof fn lemma_results_accounted(slots: Seq<Slot>, trace: Seq<Event>, token: u64)
    ensures
        results_taken(slots, trace, token) + results_owed(run(slots, trace), token)
            <= results_owed(slots, token),
    decreases trace.len(),
{
    if trace.len() > 0 {
        lemma_results_accounted(slots, trace.drop_last(), token);
        lemma_step_owes_no_more(run(slots, trace.drop_last()), trace.last(), token);
    }
}

/// A token gives its result at most once: whatever calls are made, at most
/// one of them takes a result for it.
pub proof fn lemma_result_taken_at_most_once(slots: Seq<Slot>, trace: Seq<Event>, token: u64)
    ensures
        results_taken(slots, trace, token) <= 1,
{
    lemma_results_accounted(slots, trace, token);
}

/// Once its result is taken, a token never gives another: after a call
/// that returned the result, whatever calls follow, asking again finds none.
pub proof fn lemma_taken_result_is_gone(slots: Seq<Slot>, token: u64, trace: Seq<Event>)
    requires
        result_at(slots, token) is Some,
    ensures
        result_at(run(after_take(slots, token), trace), token) is None,
        results_taken(after_take(slots, token), trace, token) == 0,
{
    lemma_results_accounted(after_take(slots, token), trace, token);
}

/// The first request after an on-time completion finds exactly the result
/// that the completion carried.
pub proof fn lemma_completion_is_delivered(slots: Seq<Slot>, c: Completion)
    requires
        on_time(slots, c),
    ensures
        result_at(after_completion(slots, c), c.token) == Some(c.result),
{
}

/// Draining a batch neither adds nor removes a slot, and leaves alone
/// every slot whose token no completion of the batch carries.
pub proof fn lemma_drain_touches_only_its_tokens(slots: Seq<Slot>, batch: Seq<Completion>)
    ensures
        after_drain(slots, batch).len() == slots.len(),
        forall|t: int|
            0 <= t < slots.len() && (forall|i: int|
                0 <= i < batch.len() ==> (#[trigger] batch[i]).token != t) ==> #[trigger] after_drain(
                slots,
                batch,
            )[t] == slots[t],
    decreases batch.len(),
{
    if batch.len() > 0 {
        let init = batch.drop_last();
        lemma_drain_touches_only_its_tokens(slots, init);
        assert forall|t: int|
            0 <= t < slots.len() && (forall|i: int|
                0 <= i < batch.len() ==> (#[trigger] batch[i]).token != t) implies #[trigger] after_drain(
            slots,
            batch,
        )[t] == slots[t] by {
            assert forall|i: int| 0 <= i < init.len() implies (#[trigger] init[i]).token != t by {
                assert(batch[i].token != t);
            }
            assert(batch[batch.len() - 1].token != t);
        }
    }
}

/// A batch releases as many wakers as it has on-time completions.
pub proof fn lemma_one_waker_per_on_time_completion(slots: Seq<Slot>, batch: Seq<Completion>)
    ensures
        woken(slots, batch).len() == on_time_count(slots, batch),
    decreases batch.len(),
{
    if batch.len() > 0 {
        lemma_one_waker_per_on_time_completion(slots, batch.drop_last());
    }
}

/// After a descriptor is closed no slot waits on it.
pub proof fn lemma_invalidate_clears(slots: Seq<Slot>, fd: i32)
    ensures
        forall|t: int|
            0 <= t < slots.len() ==> !waits_on(#[trigger] after_invalidate(slots, fd)[t], fd),
{
}

/// Closing a descriptor twice changes nothing the second time.
pub proof fn lemma_invalidate_idempotent(slots: Seq<Slot>, fd: i32)
    ensures
        after_invalidate(after_invalidate(slots, fd), fd) == after_invalidate(slots, fd),
{
    assert(after_invalidate(after_invalidate(slots, fd), fd) =~= after_invalidate(slots, fd));
}

/// A completion that arrives after its descriptor was closed is dropped:
/// it changes no slot and releases no waker.
pub proof fn lemma_late_completion_is_dropped(slots: Seq<Slot>, fd: i32, c: Completion)
    requires
        issued(slots, c.token),
        waits_on(slots[c.token as int], fd),
    ensures
        !on_time(after_invalidate(slots, fd), c),
        after_completion(after_invalidate(slots, fd), c) == after_invalidate(slots, fd),
        woken_by(after_invalidate(slots, fd), c) is None,
{
}

} // verus!
