use vstd::prelude::*;

use crate::error::BusShareError;

verus! {

/// How a transaction that held the bus came to an end.
#[derive(Debug, Clone, Copy, PartialEq, Eq, Structural)]
pub enum Outcome {
    /// The bus reported success.
    Completed,
    /// The bus reported an error; the bus itself is intact.
    Failed,
    /// The holder ended abnormally while it held the bus.
    Aborted,
}

/// One entry in the history of the bus: a transaction was admitted, or one
/// ended. Transactions are numbered from zero in the order of admission.
pub enum Event {
    Begin { ticket: nat },
    End { ticket: nat, outcome: Outcome },
}

/// Who may touch the bus right now.
#[derive(Debug, Clone, Copy, PartialEq, Eq, Structural)]
pub enum LockState {
    /// The manager holds the bus; the next request is admitted.
    Free,
    /// One transaction holds the bus; every other request must wait.
    Held,
    /// A holder ended abnormally; no request is ever admitted again.
    Poisoned,
}

/// The event at position `i` of a serial history.
pub open spec fn event_at(i: nat, outcome: Outcome) -> Event {
    if i % 2 == 0 {
        Event::Begin { ticket: i / 2 }
    } else {
        Event::End { ticket: i / 2, outcome }
    }
}

/// An event fits position `i` of a history in which transactions never
/// overlap: transaction `k` begins at `2k` and ends at `2k + 1`.
pub open spec fn fits(e: Event, i: nat) -> bool {
    match e {
        Event::Begin { ticket } => i % 2 == 0 && ticket == i / 2,
        Event::End { ticket, outcome } => i % 2 == 1 && ticket == i / 2,
    }
}

pub open spec fn is_abort(e: Event) -> bool {
    match e {
        Event::End { outcome, .. } => outcome == Outcome::Aborted,
        _ => false,
    }
}

/// A history that a manager can have: each transaction begins only after
/// the one before it ended, and only the last event may be an abort.
pub open spec fn valid_history(h: Seq<Event>) -> bool {
    &&& forall|i: int| 0 <= i < h.len() ==> #[trigger] fits(h[i], i as nat)
    &&& forall|i: int| 0 <= i < h.len() - 1 ==> !is_abort(#[trigger] h[i])
}

/// The state of the lock that a history leaves behind.
pub open spec fn state_of(h: Seq<Event>) -> LockState {
    if h.len() > 0 && is_abort(h.last()) {
        LockState::Poisoned
    } else if h.len() % 2 == 1 {
        LockState::Held
    } else {
        LockState::Free
    }
}

/// The number of the transaction that was admitted last.
pub open spec fn current_ticket(h: Seq<Event>) -> nat {
    ((h.len() - 1) as nat) / 2
}

/// The number that the next admitted transaction gets.
pub open spec fn next_ticket(h: Seq<Event>) -> nat {
    h.len() / 2
}

/// The history after a request for the bus: a new transaction begins when
/// the bus is free, and nothing happens otherwise.
pub open spec fn after_request(h: Seq<Event>) -> Seq<Event> {
    if state_of(h) == LockState::Free {
        h.push(Event::Begin { ticket: next_ticket(h) })
    } else {
        h
    }
}

/// The history after the transaction that holds the bus ends with `outcome`.
pub open spec fn after_end(h: Seq<Event>, outcome: Outcome) -> Seq<Event> {
    h.push(Event::End { ticket: current_ticket(h), outcome })
}

/// The outcome that a transaction's result is recorded as.
pub open spec fn outcome_of<E>(result: Result<(), E>) -> Outcome {
    if result is Ok {
        Outcome::Completed
    } else {
        Outcome::Failed
    }
}

/// Admitting a transaction on a free bus keeps a history valid.
pub proof fn lemma_request_keeps_valid(h: Seq<Event>)
    requires
        valid_history(h),
        state_of(h) == LockState::Free,
    ensures
        valid_history(after_request(h)),
{
    let h2 = after_request(h);
    assert forall|i: int| 0 <= i < h2.len() implies #[trigger] fits(h2[i], i as nat) by {
        if i < h.len() {
            assert(h2[i] == h[i]);
        }
    }
    assert forall|i: int| 0 <= i < h2.len() - 1 implies !is_abort(#[trigger] h2[i]) by {
        assert(h2[i] == h[i]);
        if h.len() > 0 && i == h.len() - 1 {
            assert(!is_abort(h.last()));
        }
    }
}

/// Ending the transaction that holds the bus keeps a history valid.
pub proof fn lemma_end_keeps_valid(h: Seq<Event>, outcome: Outcome)
    requires
        valid_history(h),
        state_of(h) == LockState::Held,
    ensures
        valid_history(after_end(h, outcome)),
{
    let h2 = after_end(h, outcome);
    assert forall|i: int| 0 <= i < h2.len() implies #[trigger] fits(h2[i], i as nat) by {
        if i < h.len() {
            assert(h2[i] == h[i]);
        }
    }
    assert forall|i: int| 0 <= i < h2.len() - 1 implies !is_abort(#[trigger] h2[i]) by {
        assert(h2[i] == h[i]);
        if i == h.len() - 1 {
            assert(!is_abort(h.last()));
        }
    }
}

/// The bus, lent out for one transaction.
pub struct Lease<B> {
    /// The physical bus; only the holder of this lease can reach it.
    pub bus: B,
    ticket: Ghost<nat>,
}

impl<B> Lease<B> {
    /// The number of the transaction this lease was taken for.
    pub closed spec fn ticket(&self) -> nat {
        self.ticket@
    }
}

/// The answer to a request for the bus.
pub enum Admission<B> {
    /// The bus is lent out to the caller.
    Granted(Lease<B>),
    /// Another transaction holds the bus; ask again once it is handed back.
    Busy,
    /// A holder ended abnormally; the bus is never lent out again.
    Poisoned,
}

/// Owner of the one physical bus, lending it out to one transaction at a time.
pub struct Manager<B> {
    bus: Option<B>,
    poisoned: bool,
    history: Ghost<Seq<Event>>,
}

impl<B> Manager<B> {
    /// Every transaction this manager admitted, and how each of them ended.
    pub closed spec fn history(&self) -> Seq<Event> {
        self.history@
    }

    /// A manager's history is one that a manager can have.
    pub proof fn lemma_history_valid(&self)
        requires
            self.wf(),
        ensures
            valid_history(self.history()),
    {
    }

    /// The state of the lock.
    pub open spec fn state(&self) -> LockState {
        state_of(self.history())
    }

    /// The manager's fields agree with its history.
    pub closed spec fn wf(&self) -> bool {
        &&& valid_history(self.history@)
        &&& self.poisoned == (state_of(self.history@) == LockState::Poisoned)
        &&& self.bus.is_some() == (state_of(self.history@) == LockState::Free)
    }

    /// Takes ownership of an initialized bus. From here on the bus is reached
    /// only through a lease of this manager.
    pub fn new(bus: B) -> (m: Self)
        ensures
            m.wf(),
            m.history() == Seq::<Event>::empty(),
            m.state() == LockState::Free,
    {
        Manager { bus: Some(bus), poisoned: false, history: Ghost(Seq::empty()) }
    }

    /// Asks for the bus. When it is free it is lent out to the caller for
    /// one transaction; while another transaction holds it the caller is
    /// told to wait; once the manager is poisoned the caller is refused.
    pub fn acquire(&mut self) -> (r: Admission<B>)
        requires
            old(self).wf(),
        ensures
            final(self).wf(),
            final(self).history() == after_request(old(self).history()),
            old(self).state() == LockState::Free ==> r is Granted && r->Granted_0.ticket()
                == next_ticket(old(self).history()),
            old(self).state() == LockState::Held ==> r is Busy,
            old(self).state() == LockState::Poisoned ==> r is Poisoned,
    {
        if self.poisoned {
            return Admission::Poisoned;
        }
        match self.bus.take() {
            Some(bus) => {
                let ghost h = self.history@;
                let ghost ticket = next_ticket(h);
                self.history = Ghost(h.push(Event::Begin { ticket }));
                proof {
                    lemma_request_keeps_valid(h);
                }
                Admission::Granted(Lease { bus, ticket: Ghost(ticket) })
            },
            None => Admission::Busy,
        }
    }

    /// Takes the bus back from the transaction that held it and reports that
    /// transaction's result: success as is, a failure as the bus's own error,
    /// unchanged. The bus is free again either way.
    pub fn finish<E>(&mut self, lease: Lease<B>, result: Result<(), E>) -> (r: Result<
        (),
        BusShareError<E>,
    >)
        requires
            old(self).wf(),
            old(self).state() == LockState::Held,
            lease.ticket() == current_ticket(old(self).history()),
        ensures
            final(self).wf(),
            final(self).state() == LockState::Free,
            final(self).history() == after_end(old(self).history(), outcome_of(result)),
            result is Ok ==> r is Ok,
            result is Err ==> r == Err::<(), BusShareError<E>>(BusShareError::Bus(result->Err_0)),
    {
        let outcome = match &result {
            Ok(_) => Outcome::Completed,
            Err(_) => Outcome::Failed,
        };
        self.record_end(lease.ticket, outcome);
        self.bus = Some(lease.bus);
        match result {
            Ok(()) => Ok(()),
            Err(e) => Err(BusShareError::Bus(e)),
        }
    }

    /// Takes the bus back from a holder that ended abnormally. The manager is
    /// poisoned from here on: no transaction is ever admitted again.
    pub fn abort(&mut self, lease: Lease<B>)
        requires
            old(self).wf(),
            old(self).state() == LockState::Held,
            lease.ticket() == current_ticket(old(self).history()),
        ensures
            final(self).wf(),
            final(self).state() == LockState::Poisoned,
            final(self).history() == after_end(old(self).history(), Outcome::Aborted),
    {
        self.record_end(lease.ticket, Outcome::Aborted);
        self.poisoned = true;
    }

    /// Appends the end of the current transaction to the history.
    fn record_end(&mut self, ticket: Ghost<nat>, outcome: Outcome)
        requires
            old(self).wf(),
            old(self).state() == LockState::Held,
            ticket@ == current_ticket(old(self).history()),
        ensures
            final(self).bus == old(self).bus,
            final(self).poisoned == old(self).poisoned,
            final(self).history() == after_end(old(self).history(), outcome),
            valid_history(final(self).history()),
    {
        let ghost h = self.history@;
        self.history = Ghost(h.push(Event::End { ticket: ticket@, outcome }));
        proof {
            lemma_end_keeps_valid(h, outcome);
        }
    }

    /// Whether a transaction holds the bus right now.
    pub fn is_held(&self) -> (r: bool)
        requires
            self.wf(),
        ensures
            r == (self.state() == LockState::Held),
    {
        !self.poisoned && self.bus.is_none()
    }

    /// Whether a holder ended abnormally, so that no transaction runs again.
    pub fn is_poisoned(&self) -> (r: bool)
        requires
            self.wf(),
        ensures
            r == (self.state() == LockState::Poisoned),
    {
        self.poisoned
    }
}


} // verus!
