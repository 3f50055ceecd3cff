//! What holds of every run of a [`Manager`](crate::manager::Manager).
use vstd::prelude::*;

use crate::manager::{
    after_end, after_request, current_ticket, fits, lemma_end_keeps_valid,
    lemma_request_keeps_valid, next_ticket, state_of, valid_history, Event, LockState, Manager,
    Outcome,
};

verus! {

/// The number of the transaction that an event belongs to.
pub open spec fn ticket_of(e: Event) -> nat {
    match e {
        Event::Begin { ticket } => ticket,
        Event::End { ticket, .. } => ticket,
    }
}

/// No two transactions overlap: each one that begins is the next to end,
/// each end closes the transaction that began just before it, and
/// transactions begin in the order of their numbers.
pub open spec fn never_interleaved(h: Seq<Event>) -> bool {
    &&& forall|i: int|
        0 <= i < h.len() - 1 && (#[trigger] h[i]) is Begin ==> h[i + 1] is End && ticket_of(h[i + 1])
            == ticket_of(h[i])
    &&& forall|i: int|
        0 <= i < h.len() && (#[trigger] h[i]) is End ==> 0 < i && h[i - 1] is Begin && ticket_of(
            h[i - 1],
        ) == ticket_of(h[i])
    &&& forall|i: int, j: int|
        0 <= i < j < h.len() && (#[trigger] h[i]) is Begin && (#[trigger] h[j]) is Begin
            ==> ticket_of(h[i]) < ticket_of(h[j])
}

/// Transactions on the bus form a single total order: whatever the callers
/// do, no two transactions admitted by one manager ever overlap.
pub proof fn lemma_transactions_never_interleave<B>(m: &Manager<B>)
    requires
        m.wf(),
    ensures
        never_interleaved(m.history()),
{
    m.lemma_history_valid();
    let h = m.history();
    assert forall|i: int| 0 <= i < h.len() - 1 && (#[trigger] h[i]) is Begin implies h[i + 1] is End
        && ticket_of(h[i + 1]) == ticket_of(h[i]) by {
        assert(fits(h[i], i as nat));
        assert(fits(h[i + 1], (i + 1) as nat));
    }
    assert forall|i: int| 0 <= i < h.len() && (#[trigger] h[i]) is End implies 0 < i && h[i
        - 1] is Begin && ticket_of(h[i - 1]) == ticket_of(h[i]) by {
        assert(fits(h[i], i as nat));
        assert(fits(h[i - 1], (i - 1) as nat));
    }
    assert forall|i: int, j: int|
        0 <= i < j < h.len() && (#[trigger] h[i]) is Begin && (#[trigger] h[j]) is Begin
            implies ticket_of(h[i]) < ticket_of(h[j]) by {
        assert(fits(h[i], i as nat));
        assert(fits(h[j], j as nat));
    }
}

/// A transaction that fails on the bus still hands the bus back: the lock is
/// free afterwards, and the next request, from whichever user, is admitted.
pub proof fn lemma_failure_releases_bus(h: Seq<Event>)
    requires
        valid_history(h),
        state_of(h) == LockState::Held,
    ensures
        valid_history(after_end(h, Outcome::Failed)),
        state_of(after_end(h, Outcome::Failed)) == LockState::Free,
        after_request(after_end(h, Outcome::Failed)) == after_end(h, Outcome::Failed).push(
            Event::Begin { ticket: current_ticket(h) + 1 },
        ),
{
    lemma_end_keeps_valid(h, Outcome::Failed);
}

/// The history after `n` more requests for the bus.
pub open spec fn after_requests(h: Seq<Event>, n: nat) -> Seq<Event>
    decreases n,
{
    if n == 0 {
        h
    } else {
        after_requests(after_request(h), (n - 1) as nat)
    }
}

/// A holder that ends abnormally poisons the lock, and a poisoned lock stays
/// poisoned: however many requests follow, none is admitted.
pub proof fn lemma_poison_is_permanent(h: Seq<Event>, n: nat)
    requires
        valid_history(h),
        state_of(h) == LockState::Held,
    ensures
        state_of(after_end(h, Outcome::Aborted)) == LockState::Poisoned,
        after_requests(after_end(h, Outcome::Aborted), n) == after_end(h, Outcome::Aborted),
    decreases n,
{
    if n > 0 {
        lemma_poison_is_permanent(h, (n - 1) as nat);
    }
}

/// The history after one transaction per outcome in `outcomes`, each of them
/// admitted, run on the bus, and ended with its outcome.
pub open spec fn after_transactions(h: Seq<Event>, outcomes: Seq<Outcome>) -> Seq<Event>
    decreases outcomes.len(),
{
    if outcomes.len() == 0 {
        h
    } else {
        after_transactions(after_end(after_request(h), outcomes[0]), outcomes.drop_first())
    }
}

/// Each user that takes the bus exactly once adds exactly one transaction:
/// `n` transactions that do not abort leave the lock free, with exactly `n`
/// more transactions admitted and ended.
pub proof fn lemma_each_use_is_one_transaction(h: Seq<Event>, outcomes: Seq<Outcome>)
    requires
        valid_history(h),
        state_of(h) == LockState::Free,
        forall|i: int| 0 <= i < outcomes.len() ==> outcomes[i] != Outcome::Aborted,
    ensures
        valid_history(after_transactions(h, outcomes)),
        state_of(after_transactions(h, outcomes)) == LockState::Free,
        after_transactions(h, outcomes).len() == h.len() + 2 * outcomes.len(),
        next_ticket(after_transactions(h, outcomes)) == next_ticket(h) + outcomes.len(),
    decreases outcomes.len(),
{
    if outcomes.len() > 0 {
        let h1 = after_request(h);
        let h2 = after_end(h1, outcomes[0]);
        lemma_request_keeps_valid(h);
        lemma_end_keeps_valid(h1, outcomes[0]);
        assert(state_of(h2) == LockState::Free);
        let rest = outcomes.drop_first();
        assert forall|i: int| 0 <= i < rest.len() implies rest[i] != Outcome::Aborted by {
            assert(rest[i] == outcomes[i + 1]);
        }
        lemma_each_use_is_one_transaction(h2, rest);
    }
}

} // verus!
