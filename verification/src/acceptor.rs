//! The accept loop: take a connection, make it ready for blocking use, hand
//! it to a worker, and go back to accepting without waiting for the worker.
//!
//! [`AcceptLoop`] is the decision logic of the task that owns the listening
//! endpoint. It performs no I/O. The task asks it for the next
//! [`AcceptAction`], performs it and reports the result as an
//! [`AcceptEvent`]. No action waits for a worker and no event comes from
//! one: once a connection is handed over, the loop knows nothing of it.
use vstd::prelude::*;

verus! {

/// The listening endpoint has become unusable; the accept loop has ended.
#[derive(Clone, Copy, Debug, PartialEq, Eq, Structural)]
pub struct AcceptError;

/// Where the accept loop stands.
#[derive(Clone, Copy, Debug, PartialEq, Eq, Structural)]
pub enum AcceptPhase {
    /// Waiting for the next connection; the loop holds none.
    Listening,
    /// Holding a connection that is being made ready for blocking use.
    Preparing,
    /// Holding a ready connection that is being handed to a worker.
    Dispatching,
    /// Accepting has failed; the loop is over.
    Stopped,
}

/// The one thing the accepting task is to do next.
#[derive(Clone, Copy, Debug, PartialEq, Eq, Structural)]
pub enum AcceptAction {
    /// Wait, without occupying a worker, for the next connection.
    Accept,
    /// Turn the connection just accepted into one for blocking operations.
    Prepare,
    /// Hand the ready connection to a worker and do not wait for it.
    Dispatch,
    /// Give up and report the accept failure to whoever started the loop.
    Stop,
}

/// What the accepting task can report.
#[derive(Clone, Copy, Debug, PartialEq, Eq, Structural)]
pub enum AcceptEvent {
    /// A connection has arrived.
    Connected,
    /// Accepting failed.
    AcceptFailed,
    /// The connection is ready for blocking operations.
    Prepared,
    /// The connection could not be made ready; it has been released.
    PrepareFailed,
    /// The connection now belongs to a worker.
    Dispatched,
}

impl AcceptPhase {
    /// The action to perform in this phase.
    pub open spec fn next_action(self) -> AcceptAction {
        match self {
            AcceptPhase::Listening => AcceptAction::Accept,
            AcceptPhase::Preparing => AcceptAction::Prepare,
            AcceptPhase::Dispatching => AcceptAction::Dispatch,
            AcceptPhase::Stopped => AcceptAction::Stop,
        }
    }

    /// The phase after `event`.
    ///
    /// A connection that arrives is prepared, a prepared connection is
    /// dispatched, and after the dispatch the loop listens again. A
    /// connection that cannot be prepared is dropped and the loop listens
    /// again. A failed accept stops the loop for good. An event that does not
    /// answer the pending action changes nothing.
    pub open spec fn step(self, event: AcceptEvent) -> AcceptPhase {
        match (self, event) {
            (AcceptPhase::Listening, AcceptEvent::Connected) => AcceptPhase::Preparing,
            (AcceptPhase::Listening, AcceptEvent::AcceptFailed) => AcceptPhase::Stopped,
            (AcceptPhase::Preparing, AcceptEvent::Prepared) => AcceptPhase::Dispatching,
            (AcceptPhase::Preparing, AcceptEvent::PrepareFailed) => AcceptPhase::Listening,
            (AcceptPhase::Dispatching, AcceptEvent::Dispatched) => AcceptPhase::Listening,
            _ => self,
        }
    }

    /// The number of connections the loop holds in this phase: one while it
    /// prepares or dispatches, none otherwise.
    pub open spec fn held(self) -> nat {
        match self {
            AcceptPhase::Preparing => 1,
            AcceptPhase::Dispatching => 1,
            _ => 0,
        }
    }

    /// How the loop ended, if it has.
    pub open spec fn failure(self) -> Option<AcceptError> {
        if self is Stopped {
            Some(AcceptError)
        } else {
            None
        }
    }
}

/// Whether `event`, reported in `phase`, takes a connection from the
/// listening endpoint.
pub open spec fn accepts(phase: AcceptPhase, event: AcceptEvent) -> bool {
    phase is Listening && event is Connected
}

/// Whether `event`, reported in `phase`, gives a connection to a worker.
pub open spec fn dispatches(phase: AcceptPhase, event: AcceptEvent) -> bool {
    phase is Dispatching && event is Dispatched
}

/// Whether `event`, reported in `phase`, drops a connection that could not
/// be prepared.
pub open spec fn discards(phase: AcceptPhase, event: AcceptEvent) -> bool {
    phase is Preparing && event is PrepareFailed
}

/// The phase that a loop in `start` reaches when `events` are reported to it
/// in order.
pub open spec fn run(start: AcceptPhase, events: Seq<AcceptEvent>) -> AcceptPhase
    decreases events.len(),
{
    if events.len() == 0 {
        start
    } else {
        run(start, events.drop_last()).step(events.last())
    }
}

/// How many connections are accepted while `events` are reported.
pub open spec fn accepted(start: AcceptPhase, events: Seq<AcceptEvent>) -> nat
    decreases events.len(),
{
    if events.len() == 0 {
        0
    } else {
        accepted(start, events.drop_last()) + if accepts(
            run(start, events.drop_last()),
            events.last(),
        ) {
            1nat
        } else {
            0nat
        }
    }
}

/// How many connections are handed to workers while `events` are reported.
pub open spec fn dispatched(start: AcceptPhase, events: Seq<AcceptEvent>) -> nat
    decreases events.len(),
{
    if events.len() == 0 {
        0
    } else {
        dispatched(start, events.drop_last()) + if dispatches(
            run(start, events.drop_last()),
            events.last(),
        ) {
            1nat
        } else {
            0nat
        }
    }
}

/// How many connections are dropped unprepared while `events` are reported.
pub open spec fn discarded(start: AcceptPhase, events: Seq<AcceptEvent>) -> nat
    decreases events.len(),
{
    if events.len() == 0 {
        0
    } else {
        discarded(start, events.drop_last()) + if discards(
            run(start, events.drop_last()),
            events.last(),
        ) {
            1nat
        } else {
            0nat
        }
    }
}

/// Every connection goes one way. Of the connections the loop held at the
/// start or accepted since, each has been handed to exactly one worker, or
/// dropped because it could not be prepared, or is the one connection the
/// loop still holds.
pub proof fn lemma_connections_balance(start: AcceptPhase, events: Seq<AcceptEvent>)
    ensures
        start.held() + accepted(start, events) == dispatched(start, events) + discarded(
            start,
            events,
        ) + run(start, events).held(),
    decreases events.len(),
{
    if events.len() > 0 {
        lemma_connections_balance(start, events.drop_last());
    }
}

/// Only a failed accept ends the loop, and it ends it for good: the loop is
/// stopped after `events` exactly when it was stopped before, or some accept
/// failed while it was listening.
pub proof fn lemma_stops_only_on_accept_failure(start: AcceptPhase, events: Seq<AcceptEvent>)
    ensures
        run(start, events) is Stopped <==> start is Stopped || exists|i: int|
            0 <= i < events.len() && #[trigger] run(start, events.take(i)) is Listening
                && events[i] is AcceptFailed,
    decreases events.len(),
{
    if events.len() > 0 {
        let earlier = events.drop_last();
        let last = events.len() - 1;
        lemma_stops_only_on_accept_failure(start, earlier);
        assert(events.take(last) =~= earlier);
        assert forall|i: int| 0 <= i < last implies #[trigger] events.take(i) == earlier.take(
            i,
        ) by {
            assert(events.take(i) =~= earlier.take(i));
        }
        if run(start, events) is Stopped {
            if run(start, earlier) is Stopped {
                if !(start is Stopped) {
                    let i = choose|i: int|
                        0 <= i < earlier.len() && #[trigger] run(start, earlier.take(i))
                            is Listening && earlier[i] is AcceptFailed;
                    assert(events.take(i) == earlier.take(i));
                    assert(run(start, events.take(i)) is Listening && events[i] is AcceptFailed);
                }
            } else {
                assert(run(start, events.take(last)) is Listening && events[last]
                    is AcceptFailed);
            }
        } else {
            assert forall|i: int| 0 <= i < events.len() implies !(#[trigger] run(
                start,
                events.take(i),
            ) is Listening && events[i] is AcceptFailed) by {
                if i < last {
                    assert(events.take(i) == earlier.take(i));
                }
            }
        }
    }
}

/// The accept loop of an echo service.
pub struct AcceptLoop {
    phase: AcceptPhase,
}

impl View for AcceptLoop {
    type V = AcceptPhase;

    closed spec fn view(&self) -> AcceptPhase {
        self.phase
    }
}

impl AcceptLoop {
    /// A loop over an endpoint that is bound and listening.
    pub fn new() -> (accept_loop: AcceptLoop)
        ensures
            accept_loop@ == AcceptPhase::Listening,
    {
        AcceptLoop { phase: AcceptPhase::Listening }
    }

    /// Where the loop stands.
    pub fn phase(&self) -> (phase: AcceptPhase)
        ensures
            phase == self@,
    {
        self.phase
    }

    /// The action to perform next.
    pub fn next_action(&self) -> (action: AcceptAction)
        ensures
            action == self@.next_action(),
    {
        match self.phase {
            AcceptPhase::Listening => AcceptAction::Accept,
            AcceptPhase::Preparing => AcceptAction::Prepare,
            AcceptPhase::Dispatching => AcceptAction::Dispatch,
            AcceptPhase::Stopped => AcceptAction::Stop,
        }
    }

    /// Takes in `event` and says what to do next.
    pub fn step(&mut self, event: AcceptEvent) -> (next: AcceptAction)
        ensures
            final(self)@ == old(self)@.step(event),
            next == final(self)@.next_action(),
    {
        match (self.phase, event) {
            (AcceptPhase::Listening, AcceptEvent::Connected) => {
                self.phase = AcceptPhase::Preparing;
            },
            (AcceptPhase::Listening, AcceptEvent::AcceptFailed) => {
                self.phase = AcceptPhase::Stopped;
            },
            (AcceptPhase::Preparing, AcceptEvent::Prepared) => {
                self.phase = AcceptPhase::Dispatching;
            },
            (AcceptPhase::Preparing, AcceptEvent::PrepareFailed) => {
                self.phase = AcceptPhase::Listening;
            },
            (AcceptPhase::Dispatching, AcceptEvent::Dispatched) => {
                self.phase = AcceptPhase::Listening;
            },
            _ => {},
        }
        self.next_action()
    }

    /// How the loop ended: `Ok(())` while it runs, the accept error once it
    /// has stopped.
    pub fn result(&self) -> (result: Result<(), AcceptError>)
        ensures
            result is Err <==> self@ is Stopped,
            result == match self@.failure() {
                Some(e) => Err::<(), AcceptError>(e),
                None => Ok::<(), AcceptError>(()),
            },
    {
        match self.phase {
            AcceptPhase::Stopped => Err(AcceptError),
            _ => Ok(()),
        }
    }
}

} // verus!
