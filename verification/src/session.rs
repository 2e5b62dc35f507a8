//! One connection's echo: read until the peer ends its input, then write
//! every byte back.
//!
//! [`EchoSession`] is the decision logic of the worker that owns one
//! connection. It performs no I/O. The worker asks it for the next
//! [`SessionAction`], performs that one blocking operation on the socket and
//! reports the result through the matching `on_*` method. The session keeps
//! the echo buffer and decides when reading ends, what is still to be written
//! and when the connection is finished.
use vstd::prelude::*;
use vstd::slice::slice_subrange;

verus! {

/// Why a session ended without echoing everything.
#[derive(Clone, Copy, Debug, PartialEq, Eq, Structural)]
pub enum IoError {
    /// A read from the connection failed.
    Read,
    /// A write to the connection failed, or transferred nothing.
    Write,
}

/// Where a session stands.
#[derive(Clone, Copy, Debug, PartialEq, Eq, Structural)]
pub enum Phase {
    /// Input is still being collected; nothing has been written.
    Reading,
    /// The peer has ended its input; the buffer is being written back.
    Writing,
    /// Every byte has been written back.
    Done,
    /// A read or a write failed; the connection is given up.
    Failed(IoError),
}

/// The one operation a worker is to perform next on its connection.
#[derive(Clone, Copy, Debug, PartialEq, Eq, Structural)]
pub enum SessionAction {
    /// Read once from the connection, blocking until something arrives.
    Read,
    /// Write once to the connection, offering all of [`EchoSession::unsent`].
    Write,
    /// Release the connection; the session is over.
    Close,
}

/// What a worker can report to a session.
pub enum SessionEvent {
    /// A read returned these bytes. No bytes at all means the peer has ended
    /// its input.
    Data(Seq<u8>),
    /// A read failed.
    ReadFailed,
    /// A write transferred this many of the bytes it was offered.
    Wrote(nat),
    /// A write failed.
    WriteFailed,
    /// The operation was interrupted before it transferred anything.
    Interrupted,
}

/// The mathematical state of a session.
pub struct SessionState {
    /// Where the session stands.
    pub phase: Phase,
    /// Every byte received so far, in order of arrival.
    pub buffer: Seq<u8>,
    /// How many bytes of the buffer have been written back.
    pub written: nat,
}

impl SessionState {
    /// The state of a session on a fresh connection.
    pub open spec fn initial() -> SessionState {
        SessionState { phase: Phase::Reading, buffer: Seq::empty(), written: 0 }
    }

    /// The states a session can be in: nothing is written while input is
    /// collected or after a read has failed, something is left while writing
    /// or after a write has failed, nothing is left when done.
    pub open spec fn wf(self) -> bool {
        &&& self.written <= self.buffer.len()
        &&& self.phase is Reading ==> self.written == 0
        &&& self.phase is Writing ==> self.written < self.buffer.len()
        &&& self.phase is Done ==> self.written == self.buffer.len()
        &&& self.phase == Phase::Failed(IoError::Read) ==> self.written == 0
        &&& self.phase == Phase::Failed(IoError::Write) ==> self.written < self.buffer.len()
    }

    /// The part of the buffer that has been written back.
    pub open spec fn sent(self) -> Seq<u8> {
        self.buffer.take(self.written as int)
    }

    /// The part of the buffer that is still to be written back.
    pub open spec fn unsent(self) -> Seq<u8> {
        self.buffer.skip(self.written as int)
    }

    /// The operation the worker is to perform in this state.
    pub open spec fn next_action(self) -> SessionAction {
        match self.phase {
            Phase::Reading => SessionAction::Read,
            Phase::Writing => SessionAction::Write,
            Phase::Done => SessionAction::Close,
            Phase::Failed(_) => SessionAction::Close,
        }
    }

    /// The state after `event`.
    ///
    /// While reading, bytes are appended to the buffer and an empty read ends
    /// the input: the session turns to writing, or is done at once when there
    /// is nothing to echo. While writing, a count between one and the number
    /// of unsent bytes advances the session, which is done when nothing is
    /// left; any other count is a failed write. An event that does not answer
    /// the pending operation changes nothing.
    pub open spec fn step(self, event: SessionEvent) -> SessionState {
        match (self.phase, event) {
            (Phase::Reading, SessionEvent::Data(chunk)) => {
                if chunk.len() > 0 {
                    SessionState { buffer: self.buffer + chunk, ..self }
                } else if self.written < self.buffer.len() {
                    SessionState { phase: Phase::Writing, ..self }
                } else {
                    SessionState { phase: Phase::Done, ..self }
                }
            },
            (Phase::Reading, SessionEvent::ReadFailed) => {
                SessionState { phase: Phase::Failed(IoError::Read), ..self }
            },
            (Phase::Writing, SessionEvent::Wrote(count)) => {
                if count == 0 || self.written + count > self.buffer.len() {
                    SessionState { phase: Phase::Failed(IoError::Write), ..self }
                } else if self.written + count == self.buffer.len() {
                    SessionState { phase: Phase::Done, written: self.written + count, ..self }
                } else {
                    SessionState { written: self.written + count, ..self }
                }
            },
            (Phase::Writing, SessionEvent::WriteFailed) => {
                SessionState { phase: Phase::Failed(IoError::Write), ..self }
            },
            _ => self,
        }
    }

    /// How the session ended, if it has.
    pub open spec fn outcome(self) -> Option<Result<(), IoError>> {
        match self.phase {
            Phase::Reading => None,
            Phase::Writing => None,
            Phase::Done => Some(Ok(())),
            Phase::Failed(e) => Some(Err(e)),
        }
    }
}

/// The bytes that `event` brings into the buffer of a session in `state`:
/// what a read returned while input was being collected.
pub open spec fn taken_in(state: SessionState, event: SessionEvent) -> Seq<u8> {
    match (state.phase, event) {
        (Phase::Reading, SessionEvent::Data(chunk)) => chunk,
        _ => Seq::empty(),
    }
}

/// The bytes that went out to the peer when `event` is reported to a session
/// in `state`: the first `count` of the unsent bytes, when the session had
/// asked for a write and the write transferred `count` of them. A count that
/// no write of the unsent bytes can return stands for a failed write, which
/// puts out nothing.
pub open spec fn put_out(state: SessionState, event: SessionEvent) -> Seq<u8> {
    match (state.phase, event) {
        (Phase::Writing, SessionEvent::Wrote(count)) => {
            if 0 < count && state.written + count <= state.buffer.len() {
                state.unsent().take(count as int)
            } else {
                Seq::empty()
            }
        },
        _ => Seq::empty(),
    }
}

/// The state that a session in `start` reaches when `events` are reported
/// to it in order.
pub open spec fn run(start: SessionState, events: Seq<SessionEvent>) -> SessionState
    decreases events.len(),
{
    if events.len() == 0 {
        start
    } else {
        run(start, events.drop_last()).step(events.last())
    }
}

/// All bytes that the peer delivered while `events` were reported to a
/// session that began in `start`.
pub open spec fn received(start: SessionState, events: Seq<SessionEvent>) -> Seq<u8>
    decreases events.len(),
{
    if events.len() == 0 {
        Seq::empty()
    } else {
        received(start, events.drop_last()) + taken_in(
            run(start, events.drop_last()),
            events.last(),
        )
    }
}

/// All bytes that went out to the peer while `events` were reported to a
/// session that began in `start`.
pub open spec fn transmitted(start: SessionState, events: Seq<SessionEvent>) -> Seq<u8>
    decreases events.len(),
{
    if events.len() == 0 {
        Seq::empty()
    } else {
        transmitted(start, events.drop_last()) + put_out(
            run(start, events.drop_last()),
            events.last(),
        )
    }
}

/// A step leads from a well-formed state to a well-formed state, whatever
/// the event.
pub proof fn lemma_step_preserves_wf(state: SessionState, event: SessionEvent)
    requires
        state.wf(),
    ensures
        state.step(event).wf(),
{
}

/// A step accounts for every byte: the buffer grows by exactly what the
/// event brought in, and the written part by exactly what the event put out.
pub proof fn lemma_step_accounts(state: SessionState, event: SessionEvent)
    requires
        state.wf(),
    ensures
        state.step(event).buffer == state.buffer + taken_in(state, event),
        state.step(event).sent() == state.sent() + put_out(state, event),
{
    let next = state.step(event);
    assert(next.buffer =~= state.buffer + taken_in(state, event));
    assert(next.sent() =~= state.sent() + put_out(state, event));
}

/// Whatever is reported, in whatever order, the buffer holds the bytes the
/// session began with followed by all that was received, and the written
/// part holds what was written at the start followed by all that was
/// transmitted.
pub proof fn lemma_run_accounts(start: SessionState, events: Seq<SessionEvent>)
    requires
        start.wf(),
    ensures
        run(start, events).wf(),
        run(start, events).buffer == start.buffer + received(start, events),
        run(start, events).sent() == start.sent() + transmitted(start, events),
    decreases events.len(),
{
    if events.len() == 0 {
        assert(start.buffer + received(start, events) =~= start.buffer);
        assert(start.sent() + transmitted(start, events) =~= start.sent());
    } else {
        let before = run(start, events.drop_last());
        lemma_run_accounts(start, events.drop_last());
        lemma_step_preserves_wf(before, events.last());
        lemma_step_accounts(before, events.last());
        assert(run(start, events).buffer =~= start.buffer + received(start, events));
        assert(run(start, events).sent() =~= start.sent() + transmitted(start, events));
    }
}

/// The echo is faithful. For every sequence of reports to a fresh session:
/// what went out to the peer is a prefix of what the peer sent; nothing goes
/// out while input is still being collected, nor after a failed read; and
/// when the session is done, what went out is exactly what the peer sent.
pub proof fn lemma_echo_is_faithful(events: Seq<SessionEvent>)
    ensures
        transmitted(SessionState::initial(), events).is_prefix_of(
            received(SessionState::initial(), events),
        ),
        run(SessionState::initial(), events).phase is Reading ==> transmitted(
            SessionState::initial(),
            events,
        ).len() == 0,
        run(SessionState::initial(), events).phase == Phase::Failed(IoError::Read)
            ==> transmitted(SessionState::initial(), events).len() == 0,
        run(SessionState::initial(), events).phase is Writing ==> transmitted(
            SessionState::initial(),
            events,
        ).len() < received(SessionState::initial(), events).len(),
        run(SessionState::initial(), events).phase is Done ==> transmitted(
            SessionState::initial(),
            events,
        ) == received(SessionState::initial(), events),
{
    let start = SessionState::initial();
    let end = run(start, events);
    lemma_run_accounts(start, events);
    assert(start.sent() =~= Seq::<u8>::empty());
    assert(end.buffer =~= received(start, events));
    assert(end.sent() =~= transmitted(start, events));
    if end.phase is Done {
        assert(end.sent() =~= end.buffer);
    }
}

/// Reading and writing never interleave. From a state in which input is no
/// longer collected, no report brings the session back to reading, changes
/// the buffer or takes in a single byte.
pub proof fn lemma_input_ends_once(start: SessionState, events: Seq<SessionEvent>)
    requires
        !(start.phase is Reading),
    ensures
        !(run(start, events).phase is Reading),
        run(start, events).buffer == start.buffer,
        received(start, events) == Seq::<u8>::empty(),
    decreases events.len(),
{
    if events.len() > 0 {
        lemma_input_ends_once(start, events.drop_last());
    }
}

/// A session that has ended stays as it is: no report changes its state or
/// moves a byte in either direction.
pub proof fn lemma_finished_stays(start: SessionState, events: Seq<SessionEvent>)
    requires
        start.outcome() is Some,
    ensures
        run(start, events) == start,
        received(start, events) == Seq::<u8>::empty(),
        transmitted(start, events) == Seq::<u8>::empty(),
    decreases events.len(),
{
    if events.len() > 0 {
        lemma_finished_stays(start, events.drop_last());
    }
}

/// Reporting `first` and then `second` is reporting `first + second`.
pub proof fn lemma_run_concat(
    start: SessionState,
    first: Seq<SessionEvent>,
    second: Seq<SessionEvent>,
)
    ensures
        run(start, first + second) == run(run(start, first), second),
        received(start, first + second) == received(start, first) + received(
            run(start, first),
            second,
        ),
        transmitted(start, first + second) == transmitted(start, first) + transmitted(
            run(start, first),
            second,
        ),
    decreases second.len(),
{
    let middle = run(start, first);
    if second.len() == 0 {
        assert(first + second =~= first);
        assert(received(start, first) + received(middle, second) =~= received(start, first));
        assert(transmitted(start, first) + transmitted(middle, second) =~= transmitted(
            start,
            first,
        ));
    } else {
        let all = first + second;
        assert(all.drop_last() =~= first + second.drop_last());
        assert(all.last() == second.last());
        lemma_run_concat(start, first, second.drop_last());
        let before = run(middle, second.drop_last());
        assert(received(start, all) =~= received(start, first) + (received(
            middle,
            second.drop_last(),
        ) + taken_in(before, second.last())));
        assert(transmitted(start, all) =~= transmitted(start, first) + (transmitted(
            middle,
            second.drop_last(),
        ) + put_out(before, second.last())));
    }
}

/// The reports of reads that return `chunks`, one chunk each.
pub open spec fn reads_of(chunks: Seq<Seq<u8>>) -> Seq<SessionEvent> {
    chunks.map_values(|chunk: Seq<u8>| SessionEvent::Data(chunk))
}

/// The reports of writes that transfer `counts` bytes, one count each.
pub open spec fn writes_of(counts: Seq<nat>) -> Seq<SessionEvent> {
    counts.map_values(|count: nat| SessionEvent::Wrote(count))
}

/// The sum of `counts`.
pub open spec fn total(counts: Seq<nat>) -> nat
    decreases counts.len(),
{
    if counts.len() == 0 {
        0
    } else {
        total(counts.drop_last()) + counts.last()
    }
}

/// What is reported over a connection on which nothing goes wrong: the peer's
/// input arrives as `chunks`, the peer ends its input, and the writes
/// transfer `counts` bytes.
pub open spec fn exchange(chunks: Seq<Seq<u8>>, counts: Seq<nat>) -> Seq<SessionEvent> {
    reads_of(chunks).push(SessionEvent::Data(Seq::empty())) + writes_of(counts)
}

/// Reads that each return something leave a fresh session reading, with all
/// the chunks in its buffer, in order.
pub proof fn lemma_reads_collect(chunks: Seq<Seq<u8>>)
    requires
        forall|i: int| 0 <= i < chunks.len() ==> chunks[i].len() > 0,
    ensures
        run(SessionState::initial(), reads_of(chunks)) == (SessionState {
            phase: Phase::Reading,
            buffer: chunks.flatten(),
            written: 0,
        }),
    decreases chunks.len(),
{
    if chunks.len() == 0 {
        assert(chunks.flatten() =~= Seq::<u8>::empty());
    } else {
        let earlier = chunks.drop_last();
        lemma_reads_collect(earlier);
        assert(reads_of(chunks).drop_last() =~= reads_of(earlier));
        assert(reads_of(chunks).last() == SessionEvent::Data(chunks.last()));
        assert(chunks =~= earlier.push(chunks.last()));
        earlier.lemma_flatten_push(chunks.last());
        assert(run(SessionState::initial(), reads_of(chunks)).buffer =~= chunks.flatten());
    }
}

/// Writes that each transfer something, and together no more than is unsent,
/// advance a writing session by their sum; the session is done exactly when
/// nothing is left.
pub proof fn lemma_writes_drain(start: SessionState, counts: Seq<nat>)
    requires
        start.wf(),
        start.phase is Writing,
        forall|i: int| 0 <= i < counts.len() ==> counts[i] > 0,
        total(counts) <= start.unsent().len(),
    ensures
        run(start, writes_of(counts)).buffer == start.buffer,
        run(start, writes_of(counts)).written == start.written + total(counts),
        run(start, writes_of(counts)).phase == if total(counts) == start.unsent().len() {
            Phase::Done
        } else {
            Phase::Writing
        },
    decreases counts.len(),
{
    if counts.len() > 0 {
        let earlier = counts.drop_last();
        assert(writes_of(counts).drop_last() =~= writes_of(earlier));
        assert(writes_of(counts).last() == SessionEvent::Wrote(counts.last()));
        lemma_writes_drain(start, earlier);
    }
}

/// Every input is echoed in full. However the peer's input is cut into reads
/// and however the writes cut the answer, once the peer has ended its input
/// and the writes have transferred as many bytes as it sent, the session is
/// done and the peer has been sent back exactly its input.
pub proof fn lemma_echo_completes(chunks: Seq<Seq<u8>>, counts: Seq<nat>)
    requires
        forall|i: int| 0 <= i < chunks.len() ==> chunks[i].len() > 0,
        forall|i: int| 0 <= i < counts.len() ==> counts[i] > 0,
        total(counts) == chunks.flatten().len(),
    ensures
        run(SessionState::initial(), exchange(chunks, counts)).phase is Done,
        received(SessionState::initial(), exchange(chunks, counts)) == chunks.flatten(),
        transmitted(SessionState::initial(), exchange(chunks, counts)) == chunks.flatten(),
{
    let start = SessionState::initial();
    let end_of_input = SessionEvent::Data(Seq::empty());
    let reading = reads_of(chunks).push(end_of_input);
    let events = exchange(chunks, counts);
    lemma_reads_collect(chunks);
    assert(reading.drop_last() =~= reads_of(chunks));
    let turned = run(start, reading);
    assert(turned == run(start, reads_of(chunks)).step(end_of_input));
    lemma_run_concat(start, reading, writes_of(counts));
    if chunks.flatten().len() == 0 {
        if counts.len() > 0 {
            assert(counts.last() > 0);
        }
        assert(run(turned, writes_of(counts)) == turned);
    } else {
        assert(turned.unsent() =~= turned.buffer);
        lemma_writes_drain(turned, counts);
    }
    lemma_run_accounts(start, events);
    lemma_echo_is_faithful(events);
    assert(received(start, events) =~= run(start, events).buffer);
}

/// How far a session has come. The number of bytes written back is kept
/// where it can vary: before the writing it is none, after it all.
#[derive(Clone, Copy)]
enum Progress {
    Reading,
    Writing(usize),
    Done,
    ReadFailed,
    WriteFailed(usize),
}

/// The echo of one connection, owned by the worker that serves it.
///
/// Every session is in a well-formed state: see [`SessionState::wf`].
pub struct EchoSession {
    progress: Progress,
    buffer: Vec<u8>,
}

impl View for EchoSession {
    type V = SessionState;

    closed spec fn view(&self) -> SessionState {
        match self.progress {
            Progress::Reading => SessionState {
                phase: Phase::Reading,
                buffer: self.buffer@,
                written: 0,
            },
            Progress::Writing(written) => SessionState {
                phase: Phase::Writing,
                buffer: self.buffer@,
                written: written as nat,
            },
            Progress::Done => SessionState {
                phase: Phase::Done,
                buffer: self.buffer@,
                written: self.buffer@.len(),
            },
            Progress::ReadFailed => SessionState {
                phase: Phase::Failed(IoError::Read),
                buffer: self.buffer@,
                written: 0,
            },
            Progress::WriteFailed(written) => SessionState {
                phase: Phase::Failed(IoError::Write),
                buffer: self.buffer@,
                written: written as nat,
            },
        }
    }
}

impl EchoSession {
    #[verifier::type_invariant]
    spec fn something_is_left_to_write(self) -> bool {
        match self.progress {
            Progress::Writing(written) => written < self.buffer@.len(),
            Progress::WriteFailed(written) => written < self.buffer@.len(),
            _ => true,
        }
    }

    /// A session for a connection on which nothing has happened yet.
    pub fn new() -> (session: EchoSession)
        ensures
            session@ == SessionState::initial(),
            session@.wf(),
    {
        EchoSession { progress: Progress::Reading, buffer: Vec::new() }
    }

    /// Where the session stands.
    pub fn phase(&self) -> (phase: Phase)
        ensures
            phase == self@.phase,
            self@.wf(),
    {
        proof {
            use_type_invariant(self);
        }
        match self.progress {
            Progress::Reading => Phase::Reading,
            Progress::Writing(_) => Phase::Writing,
            Progress::Done => Phase::Done,
            Progress::ReadFailed => Phase::Failed(IoError::Read),
            Progress::WriteFailed(_) => Phase::Failed(IoError::Write),
        }
    }

    /// The operation to perform next.
    pub fn next_action(&self) -> (action: SessionAction)
        ensures
            action == self@.next_action(),
            self@.wf(),
    {
        proof {
            use_type_invariant(self);
        }
        match self.progress {
            Progress::Reading => SessionAction::Read,
            Progress::Writing(_) => SessionAction::Write,
            _ => SessionAction::Close,
        }
    }

    /// Every byte received so far.
    pub fn buffer(&self) -> (bytes: &[u8])
        ensures
            bytes@ == self@.buffer,
            self@.wf(),
    {
        proof {
            use_type_invariant(self);
        }
        self.buffer.as_slice()
    }

    /// How many bytes have been written back.
    pub fn written(&self) -> (count: usize)
        ensures
            count == self@.written,
            count <= self@.buffer.len(),
            self@.wf(),
    {
        proof {
            use_type_invariant(self);
        }
        match self.progress {
            Progress::Writing(written) => written,
            Progress::WriteFailed(written) => written,
            Progress::Done => self.buffer.len(),
            _ => 0,
        }
    }

    /// The bytes that are still to be written back: what a write is to
    /// offer. While the session asks for a write there is at least one.
    pub fn unsent(&self) -> (bytes: &[u8])
        ensures
            bytes@ == self@.unsent(),
            self@.next_action() == SessionAction::Write ==> bytes@.len() > 0,
            self@.wf(),
    {
        let written = self.written();
        slice_subrange(self.buffer.as_slice(), written, self.buffer.len())
    }

    /// How the session ended: `None` while it is under way, `Some(Ok(()))`
    /// once everything was echoed, `Some(Err(..))` once an operation failed.
    pub fn outcome(&self) -> (outcome: Option<Result<(), IoError>>)
        ensures
            outcome == self@.outcome(),
            outcome == Some(Ok::<(), IoError>(())) ==> self@.sent() == self@.buffer,
            self@.wf(),
    {
        proof {
            use_type_invariant(self);
            assert(self@.phase is Done ==> self@.sent() =~= self@.buffer);
        }
        match self.progress {
            Progress::Reading => None,
            Progress::Writing(_) => None,
            Progress::Done => Some(Ok(())),
            Progress::ReadFailed => Some(Err(IoError::Read)),
            Progress::WriteFailed(_) => Some(Err(IoError::Write)),
        }
    }

    /// Reports that a read returned `chunk`; an empty `chunk` is the end of
    /// the peer's input.
    pub fn on_read(&mut self, chunk: &[u8]) -> (next: SessionAction)
        ensures
            final(self)@ == old(self)@.step(SessionEvent::Data(chunk@)),
            next == final(self)@.next_action(),
            final(self)@.wf(),
    {
        match self.progress {
            Progress::Reading => {
                if chunk.len() > 0 {
                    // The buffer is taken out of the session while it grows.
                    let mut buffer: Vec<u8> = Vec::new();
                    core::mem::swap(&mut self.buffer, &mut buffer);
                    buffer.extend_from_slice(chunk);
                    assert(buffer@ =~= old(self).buffer@ + chunk@);
                    core::mem::swap(&mut self.buffer, &mut buffer);
                } else if self.buffer.len() > 0 {
                    self.progress = Progress::Writing(0);
                } else {
                    self.progress = Progress::Done;
                }
            },
            _ => {},
        }
        self.next_action()
    }

    /// Reports that a read failed.
    pub fn on_read_failed(&mut self) -> (next: SessionAction)
        ensures
            final(self)@ == old(self)@.step(SessionEvent::ReadFailed),
            next == final(self)@.next_action(),
            final(self)@.wf(),
    {
        match self.progress {
            Progress::Reading => {
                self.progress = Progress::ReadFailed;
            },
            _ => {},
        }
        self.next_action()
    }

    /// Reports that a write transferred the first `count` bytes of what it
    /// was offered.
    pub fn on_written(&mut self, count: usize) -> (next: SessionAction)
        ensures
            final(self)@ == old(self)@.step(SessionEvent::Wrote(count as nat)),
            next == final(self)@.next_action(),
            final(self)@.wf(),
    {
        proof {
            use_type_invariant(&*self);
        }
        match self.progress {
            Progress::Writing(written) => {
                let left: usize = self.buffer.len() - written;
                if count == 0 || count > left {
                    self.progress = Progress::WriteFailed(written);
                } else if count == left {
                    self.progress = Progress::Done;
                } else {
                    self.progress = Progress::Writing(written + count);
                }
            },
            _ => {},
        }
        self.next_action()
    }

    /// Reports that a write failed.
    pub fn on_write_failed(&mut self) -> (next: SessionAction)
        ensures
            final(self)@ == old(self)@.step(SessionEvent::WriteFailed),
            next == final(self)@.next_action(),
            final(self)@.wf(),
    {
        proof {
            use_type_invariant(&*self);
        }
        match self.progress {
            Progress::Writing(written) => {
                self.progress = Progress::WriteFailed(written);
            },
            _ => {},
        }
        self.next_action()
    }

    /// Reports that the operation was interrupted before it transferred
    /// anything: the same operation is to be performed again.
    pub fn on_interrupted(&mut self) -> (next: SessionAction)
        ensures
            final(self)@ == old(self)@.step(SessionEvent::Interrupted),
            final(self)@ == old(self)@,
            next == old(self)@.next_action(),
            final(self)@.wf(),
    {
        self.next_action()
    }
}

} // verus!
