//! The service as a whole: one accept loop and the sessions it has started,
//! each advancing on its own reports, in any interleaving.
//!
//! Nothing here runs. The accept loop and the sessions are separate values
//! owned by separate tasks; this module puts their states side by side to
//! say, and prove, what holds of every execution: a connection's echo
//! depends on that connection's reports alone, and the accept loop depends
//! on no connection at all.
use crate::acceptor;
use crate::acceptor::AcceptEvent;
use crate::acceptor::AcceptPhase;
use crate::session;
use crate::session::SessionEvent;
use crate::session::SessionState;
use vstd::prelude::*;

verus! {

/// The state of the service: the accept loop, and one session for each
/// connection handed to a worker, in the order of the handing over.
pub struct ServiceState {
    /// Where the accept loop stands.
    pub acceptor: AcceptPhase,
    /// The sessions started so far; a connection's number is its place here.
    pub sessions: Seq<SessionState>,
}

/// One report, from the accepting task or from a worker.
pub enum ServiceEvent {
    /// The accepting task reports to the accept loop.
    Listener(AcceptEvent),
    /// The worker that serves the connection of this number reports to its
    /// session.
    Worker(nat, SessionEvent),
}

impl ServiceState {
    /// The service before the first connection: listening, no session.
    pub open spec fn initial() -> ServiceState {
        ServiceState { acceptor: AcceptPhase::Listening, sessions: Seq::empty() }
    }

    /// The state after `event`.
    ///
    /// A report from the accepting task advances the accept loop, and starts
    /// a fresh session when it hands a connection to a worker. A report from
    /// a worker advances that worker's session. A report from a worker whose
    /// connection has not been handed over changes nothing.
    pub open spec fn step(self, event: ServiceEvent) -> ServiceState {
        match event {
            ServiceEvent::Listener(report) => ServiceState {
                acceptor: self.acceptor.step(report),
                sessions: if acceptor::dispatches(self.acceptor, report) {
                    self.sessions.push(SessionState::initial())
                } else {
                    self.sessions
                },
            },
            ServiceEvent::Worker(number, report) => if number < self.sessions.len() {
                ServiceState {
                    sessions: self.sessions.update(
                        number as int,
                        self.sessions[number as int].step(report),
                    ),
                    ..self
                }
            } else {
                self
            },
        }
    }

    /// The state in which connection `number` begins: the state it is in
    /// already, or that of a fresh session if it is yet to be handed over.
    pub open spec fn origin(self, number: nat) -> SessionState {
        if number < self.sessions.len() {
            self.sessions[number as int]
        } else {
            SessionState::initial()
        }
    }
}

/// The state that a service in `start` reaches when `events` happen in order.
pub open spec fn run(start: ServiceState, events: Seq<ServiceEvent>) -> ServiceState
    decreases events.len(),
{
    if events.len() == 0 {
        start
    } else {
        run(start, events.drop_last()).step(events.last())
    }
}

/// The report that `event` makes to the session of connection `number` when
/// the service is in `state`, if it makes one.
pub open spec fn heard(state: ServiceState, event: ServiceEvent, number: nat) -> Option<
    SessionEvent,
> {
    match event {
        ServiceEvent::Worker(to, report) => if to == number && number < state.sessions.len() {
            Some(report)
        } else {
            None
        },
        ServiceEvent::Listener(_) => None,
    }
}

/// The reports that reach the session of connection `number` while `events`
/// happen, in order.
pub open spec fn heard_by(start: ServiceState, events: Seq<ServiceEvent>, number: nat) -> Seq<
    SessionEvent,
>
    decreases events.len(),
{
    if events.len() == 0 {
        Seq::empty()
    } else {
        let earlier = heard_by(start, events.drop_last(), number);
        match heard(run(start, events.drop_last()), events.last(), number) {
            Some(report) => earlier.push(report),
            None => earlier,
        }
    }
}

/// The reports that reach the accept loop among `events`, in order.
pub open spec fn listener_reports(events: Seq<ServiceEvent>) -> Seq<AcceptEvent>
    decreases events.len(),
{
    if events.len() == 0 {
        Seq::empty()
    } else {
        let earlier = listener_reports(events.drop_last());
        match events.last() {
            ServiceEvent::Listener(report) => earlier.push(report),
            ServiceEvent::Worker(_, _) => earlier,
        }
    }
}

/// All bytes that the peer of connection `number` delivered while `events`
/// happened.
pub open spec fn received_from(start: ServiceState, events: Seq<ServiceEvent>, number: nat) -> Seq<
    u8,
>
    decreases events.len(),
{
    if events.len() == 0 {
        Seq::empty()
    } else {
        let before = run(start, events.drop_last());
        received_from(start, events.drop_last(), number) + match heard(
            before,
            events.last(),
            number,
        ) {
            Some(report) => session::taken_in(before.sessions[number as int], report),
            None => Seq::empty(),
        }
    }
}

/// All bytes that went out to the peer of connection `number` while `events`
/// happened.
pub open spec fn sent_to(start: ServiceState, events: Seq<ServiceEvent>, number: nat) -> Seq<u8>
    decreases events.len(),
{
    if events.len() == 0 {
        Seq::empty()
    } else {
        let before = run(start, events.drop_last());
        sent_to(start, events.drop_last(), number) + match heard(before, events.last(), number) {
            Some(report) => session::put_out(before.sessions[number as int], report),
            None => Seq::empty(),
        }
    }
}

/// The accept loop answers to the accepting task alone. Its phase after any
/// events is the phase it would reach on the accepting task's reports by
/// themselves: no worker's report, whether it comes early, late or never,
/// can hold the loop back or change what it does.
pub proof fn lemma_accept_loop_is_independent(start: ServiceState, events: Seq<ServiceEvent>)
    ensures
        run(start, events).acceptor == acceptor::run(start.acceptor, listener_reports(events)),
    decreases events.len(),
{
    if events.len() > 0 {
        let earlier = events.drop_last();
        lemma_accept_loop_is_independent(start, earlier);
        match events.last() {
            ServiceEvent::Listener(report) => {
                assert(listener_reports(events).drop_last() =~= listener_reports(earlier));
            },
            ServiceEvent::Worker(_, _) => {},
        }
    }
}

/// One session for each connection handed over, and none besides: the
/// sessions after any events are those there were before, then one for each
/// dispatch the accept loop has made.
pub proof fn lemma_one_session_per_dispatch(start: ServiceState, events: Seq<ServiceEvent>)
    ensures
        run(start, events).sessions.len() == start.sessions.len() + acceptor::dispatched(
            start.acceptor,
            listener_reports(events),
        ),
    decreases events.len(),
{
    if events.len() > 0 {
        let earlier = events.drop_last();
        lemma_one_session_per_dispatch(start, earlier);
        lemma_accept_loop_is_independent(start, earlier);
        match events.last() {
            ServiceEvent::Listener(report) => {
                assert(listener_reports(events).drop_last() =~= listener_reports(earlier));
            },
            ServiceEvent::Worker(_, _) => {},
        }
    }
}

/// Connections cannot touch each other. After any events, in any
/// interleaving, the session of a connection is in the state it would reach
/// on its own reports by themselves, and has received and sent the bytes it
/// would have received and sent on them; a connection not yet handed over
/// has heard nothing.
pub proof fn lemma_sessions_are_isolated(
    start: ServiceState,
    events: Seq<ServiceEvent>,
    number: nat,
)
    ensures
        run(start, events).sessions.len() >= start.sessions.len(),
        number >= run(start, events).sessions.len() ==> heard_by(start, events, number)
            == Seq::<SessionEvent>::empty(),
        number < run(start, events).sessions.len() ==> run(start, events).sessions[number as int]
            == session::run(start.origin(number), heard_by(start, events, number)),
        received_from(start, events, number) == session::received(
            start.origin(number),
            heard_by(start, events, number),
        ),
        sent_to(start, events, number) == session::transmitted(
            start.origin(number),
            heard_by(start, events, number),
        ),
    decreases events.len(),
{
    if events.len() > 0 {
        let earlier = events.drop_last();
        let before = run(start, earlier);
        lemma_sessions_are_isolated(start, earlier, number);
        match heard(before, events.last(), number) {
            Some(report) => {
                let reports = heard_by(start, events, number);
                assert(reports.drop_last() =~= heard_by(start, earlier, number));
                assert(reports.last() == report);
            },
            None => {},
        }
    }
}

/// Each peer is sent its own bytes and no others. In a service that starts
/// with no connection, after any events, in any interleaving, what has gone
/// out to the peer of a connection is a prefix of what that same peer
/// delivered, and is all of it once the connection's session is done.
pub proof fn lemma_each_peer_gets_its_own(events: Seq<ServiceEvent>, number: nat)
    ensures
        sent_to(ServiceState::initial(), events, number).is_prefix_of(
            received_from(ServiceState::initial(), events, number),
        ),
        number < run(ServiceState::initial(), events).sessions.len() && run(
            ServiceState::initial(),
            events,
        ).sessions[number as int].phase is Done ==> sent_to(
            ServiceState::initial(),
            events,
            number,
        ) == received_from(ServiceState::initial(), events, number),
{
    let start = ServiceState::initial();
    lemma_sessions_are_isolated(start, events, number);
    session::lemma_echo_is_faithful(heard_by(start, events, number));
    if number >= run(start, events).sessions.len() {
        assert(sent_to(start, events, number) =~= Seq::<u8>::empty());
    }
}

/// Concurrent peers are each echoed in full. In a service that starts with
/// no connection, whatever else happens in between and on other connections,
/// a connection whose own reports are those of an exchange on which nothing
/// goes wrong ends done, and its peer has been sent back exactly the input
/// it delivered.
pub proof fn lemma_concurrent_peer_is_echoed(
    events: Seq<ServiceEvent>,
    number: nat,
    chunks: Seq<Seq<u8>>,
    counts: Seq<nat>,
)
    requires
        heard_by(ServiceState::initial(), events, number) == session::exchange(chunks, counts),
        forall|i: int| 0 <= i < chunks.len() ==> chunks[i].len() > 0,
        forall|i: int| 0 <= i < counts.len() ==> counts[i] > 0,
        session::total(counts) == chunks.flatten().len(),
    ensures
        number < run(ServiceState::initial(), events).sessions.len(),
        run(ServiceState::initial(), events).sessions[number as int].phase is Done,
        received_from(ServiceState::initial(), events, number) == chunks.flatten(),
        sent_to(ServiceState::initial(), events, number) == chunks.flatten(),
{
    let start = ServiceState::initial();
    lemma_sessions_are_isolated(start, events, number);
    session::lemma_echo_completes(chunks, counts);
    assert(session::exchange(chunks, counts).len() > 0);
}

/// Happening of `first` and then `second` is happening of `first + second`.
pub proof fn lemma_run_concat(
    start: ServiceState,
    first: Seq<ServiceEvent>,
    second: Seq<ServiceEvent>,
    number: nat,
)
    ensures
        run(start, first + second) == run(run(start, first), second),
        heard_by(start, first + second, number) == heard_by(start, first, number) + heard_by(
            run(start, first),
            second,
            number,
        ),
    decreases second.len(),
{
    if second.len() == 0 {
        assert(first + second =~= first);
        assert(heard_by(start, first, number) + heard_by(run(start, first), second, number)
            =~= heard_by(start, first, number));
    } else {
        let all = first + second;
        assert(all.drop_last() =~= first + second.drop_last());
        assert(all.last() == second.last());
        lemma_run_concat(start, first, second.drop_last(), number);
        let before = run(run(start, first), second.drop_last());
        match heard(before, second.last(), number) {
            Some(report) => {
                assert(heard_by(start, all, number) =~= heard_by(start, first, number) + heard_by(
                    run(start, first),
                    second,
                    number,
                ));
            },
            None => {},
        }
    }
}

/// The events in which the worker of connection `number` makes `reports`,
/// one after the other.
pub open spec fn reports_of_worker(number: nat, reports: Seq<SessionEvent>) -> Seq<ServiceEvent> {
    reports.map_values(|report: SessionEvent| ServiceEvent::Worker(number, report))
}

/// While one worker reports and nothing else happens, its session hears
/// every report, and the accept loop and all other sessions stay as they are.
pub proof fn lemma_worker_alone(start: ServiceState, number: nat, reports: Seq<SessionEvent>)
    requires
        number < start.sessions.len(),
    ensures
        heard_by(start, reports_of_worker(number, reports), number) == reports,
        run(start, reports_of_worker(number, reports)).acceptor == start.acceptor,
        run(start, reports_of_worker(number, reports)).sessions.len() == start.sessions.len(),
        forall|other: int|
            0 <= other < start.sessions.len() && other != number ==> run(
                start,
                reports_of_worker(number, reports),
            ).sessions[other] == start.sessions[other],
    decreases reports.len(),
{
    let events = reports_of_worker(number, reports);
    if reports.len() == 0 {
        assert(heard_by(start, events, number) =~= reports);
    } else {
        lemma_worker_alone(start, number, reports.drop_last());
        assert(events.drop_last() =~= reports_of_worker(number, reports.drop_last()));
        assert(events.last() == ServiceEvent::Worker(number, reports.last()));
        assert(heard_by(start, events, number) =~= reports);
    }
}

/// The events in which one more connection arrives, is prepared and handed
/// over, and then sends `chunks`, ends its input and is written back to in
/// writes of `counts` bytes, given that `sessions` connections were handed
/// over before.
pub open spec fn newcomer(sessions: nat, chunks: Seq<Seq<u8>>, counts: Seq<nat>) -> Seq<
    ServiceEvent,
> {
    seq![
        ServiceEvent::Listener(AcceptEvent::Connected),
        ServiceEvent::Listener(AcceptEvent::Prepared),
        ServiceEvent::Listener(AcceptEvent::Dispatched),
    ] + reports_of_worker(sessions, session::exchange(chunks, counts))
}

/// A peer that stalls holds up nobody else. Whatever state the earlier
/// connections are in, reading, writing or ended, a listening service takes
/// a new connection at once and echoes its input in full, while every
/// earlier session stays exactly as it was and the accept loop is back at
/// the accept point.
pub proof fn lemma_newcomer_is_served(
    start: ServiceState,
    chunks: Seq<Seq<u8>>,
    counts: Seq<nat>,
)
    requires
        start.acceptor is Listening,
        forall|i: int| 0 <= i < chunks.len() ==> chunks[i].len() > 0,
        forall|i: int| 0 <= i < counts.len() ==> counts[i] > 0,
        session::total(counts) == chunks.flatten().len(),
    ensures
        run(start, newcomer(start.sessions.len(), chunks, counts)).acceptor is Listening,
        run(start, newcomer(start.sessions.len(), chunks, counts)).sessions.len()
            == start.sessions.len() + 1,
        run(start, newcomer(start.sessions.len(), chunks, counts)).sessions[start.sessions.len() as int].phase
            is Done,
        received_from(start, newcomer(start.sessions.len(), chunks, counts), start.sessions.len())
            == chunks.flatten(),
        sent_to(start, newcomer(start.sessions.len(), chunks, counts), start.sessions.len())
            == chunks.flatten(),
        forall|other: int|
            0 <= other < start.sessions.len() ==> run(
                start,
                newcomer(start.sessions.len(), chunks, counts),
            ).sessions[other] == start.sessions[other],
{
    let number = start.sessions.len();
    let arrival = seq![
        ServiceEvent::Listener(AcceptEvent::Connected),
        ServiceEvent::Listener(AcceptEvent::Prepared),
        ServiceEvent::Listener(AcceptEvent::Dispatched),
    ];
    let reports = session::exchange(chunks, counts);
    let service = reports_of_worker(number, reports);
    let events = newcomer(number, chunks, counts);
    let connected = start.step(arrival[0]);
    let prepared = connected.step(arrival[1]);
    let admitted = prepared.step(arrival[2]);
    assert(run(start, arrival) == admitted && heard_by(start, arrival, number)
        == Seq::<SessionEvent>::empty()) by {
        reveal_with_fuel(run, 4);
        reveal_with_fuel(heard_by, 4);
        assert(arrival.drop_last() =~= seq![arrival[0], arrival[1]]);
        assert(arrival.drop_last().drop_last() =~= seq![arrival[0]]);
        assert(arrival.drop_last().drop_last().drop_last() =~= Seq::<ServiceEvent>::empty());
    }
    assert(admitted.sessions == start.sessions.push(SessionState::initial()));
    lemma_run_concat(start, arrival, service, number);
    lemma_worker_alone(admitted, number, reports);
    assert(heard_by(start, events, number) =~= reports);
    lemma_sessions_are_isolated(start, events, number);
    session::lemma_echo_completes(chunks, counts);
    let end = run(start, events);
    assert(end == run(admitted, service));
    assert forall|other: int| 0 <= other < start.sessions.len() implies end.sessions[other]
        == start.sessions[other] by {
        assert(admitted.sessions[other] == start.sessions[other]);
    }
}

} // verus!
