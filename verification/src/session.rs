//! The life of the connections that a web task serves, one after the other.
//!
//! A `Session` says what is to be done next with the socket, and is told what came of it.
use vstd::prelude::*;

use crate::http;
use crate::text;
use crate::upload::{ReadModel, ReadOutcome};

verus! {

/// How many web tasks serve connections at the same time.
pub const WEB_TASK_POOL_SIZE: usize = 2;

/// How many bytes of a request are received at most.
pub const HTTP_BUFFER_SIZE: usize = 2048;

/// The port that the web tasks listen on.
pub const HTTP_PORT: u16 = 80;

/// How long a pause lasts, in milliseconds.
pub const PAUSE_MS: u64 = 5;

/// How long a silent connection is kept, in seconds.
pub const SOCKET_TIMEOUT_SECS: u64 = 10;

/// Where a session is.
#[derive(Clone, Copy, Debug, PartialEq, Eq)]
pub enum SessionPhase {
    /// Waiting for a connection.
    Accepting,
    /// No connection came about.
    Retrying,
    /// Receiving a request.
    Reading,
    /// Answering what was received.
    Dispatching,
    /// The answer is given.
    Settling,
    /// The connection is being closed.
    Closing,
    /// The connection is closed.
    Lingering,
    /// What is left of the connection is being dropped.
    Aborting,
    /// Nothing was received.
    Dropping,
}

/// What is to be done with the socket.
#[derive(Clone, Copy, Debug, PartialEq, Eq)]
pub enum SessionAction {
    /// Wait for a connection on `HTTP_PORT`.
    Accept,
    /// Wait `PAUSE_MS`.
    Pause,
    /// Read, at most as many bytes as there is room for.
    Read,
    /// Answer the bytes that were received.
    Dispatch,
    /// Close the connection.
    Close,
    /// Drop what is left of the connection.
    Abort,
}

/// A web task's session.
pub struct Session {
    phase: SessionPhase,
    buf: Vec<u8>,
}

/// What a `Session` knows.
pub struct SessionModel {
    pub phase: SessionPhase,
    /// The bytes received on the current connection.
    pub buf: Seq<u8>,
}

impl SessionModel {
    /// A session that waits for its first connection.
    pub open spec fn start() -> SessionModel {
        SessionModel { phase: SessionPhase::Accepting, buf: Seq::empty() }
    }

    /// What was received fits the buffer; while more is awaited there is room for it, and the head
    /// of the request has not ended yet; what is answered is not empty.
    pub open spec fn wf(self) -> bool {
        &&& self.buf.len() <= HTTP_BUFFER_SIZE
        &&& self.phase is Reading ==> {
            &&& self.buf.len() < HTTP_BUFFER_SIZE
            &&& text::first_at(self.buf, http::blank_line(), 0) is None
        }
        &&& self.phase is Dispatching ==> self.buf.len() > 0
    }

    /// What is to be done next.
    pub open spec fn action(self) -> SessionAction {
        match self.phase {
            SessionPhase::Accepting => SessionAction::Accept,
            SessionPhase::Retrying => SessionAction::Pause,
            SessionPhase::Reading => SessionAction::Read,
            SessionPhase::Dispatching => SessionAction::Dispatch,
            SessionPhase::Settling => SessionAction::Pause,
            SessionPhase::Closing => SessionAction::Close,
            SessionPhase::Lingering => SessionAction::Pause,
            SessionPhase::Aborting => SessionAction::Abort,
            SessionPhase::Dropping => SessionAction::Close,
        }
    }

    /// After waiting for a connection.
    pub open spec fn after_accept(self, accepted: bool) -> SessionModel {
        if accepted {
            SessionModel { phase: SessionPhase::Reading, buf: Seq::empty() }
        } else {
            SessionModel { phase: SessionPhase::Retrying, ..self }
        }
    }

    /// When nothing more is received: an empty connection is dropped, any other answered.
    pub open spec fn received(self) -> SessionModel {
        SessionModel {
            phase: if self.buf.len() == 0 {
                SessionPhase::Dropping
            } else {
                SessionPhase::Dispatching
            },
            ..self
        }
    }

    /// After a read. The end of the stream, a failure, the end of the head or a full buffer end
    /// the receiving.
    pub open spec fn after_read(self, outcome: ReadModel) -> SessionModel {
        match outcome {
            ReadModel::Data(bytes) => {
                let more = SessionModel { buf: self.buf + bytes, ..self };
                if bytes.len() == 0 || more.buf.len() >= HTTP_BUFFER_SIZE || text::first_at(
                    more.buf,
                    http::blank_line(),
                    0,
                ) is Some {
                    more.received()
                } else {
                    more
                }
            },
            ReadModel::Failed => self.received(),
        }
    }

    /// After anything else.
    pub open spec fn after_done(self) -> SessionModel {
        SessionModel {
            phase: match self.phase {
                SessionPhase::Dispatching => SessionPhase::Settling,
                SessionPhase::Settling => SessionPhase::Closing,
                SessionPhase::Closing => SessionPhase::Lingering,
                SessionPhase::Lingering => SessionPhase::Aborting,
                _ => SessionPhase::Accepting,
            },
            ..self
        }
    }
}

impl View for Session {
    type V = SessionModel;

    closed spec fn view(&self) -> SessionModel {
        SessionModel { phase: self.phase, buf: self.buf@ }
    }
}

impl Session {
    /// A session that waits for its first connection.
    pub fn new() -> (r: Session)
        ensures
            r@ == SessionModel::start(),
            r@.wf(),
    {
        Session { phase: SessionPhase::Accepting, buf: Vec::new() }
    }

    /// What is to be done next.
    pub fn action(&self) -> (r: SessionAction)
        ensures
            r == self@.action(),
    {
        match self.phase {
            SessionPhase::Accepting => SessionAction::Accept,
            SessionPhase::Retrying => SessionAction::Pause,
            SessionPhase::Reading => SessionAction::Read,
            SessionPhase::Dispatching => SessionAction::Dispatch,
            SessionPhase::Settling => SessionAction::Pause,
            SessionPhase::Closing => SessionAction::Close,
            SessionPhase::Lingering => SessionAction::Pause,
            SessionPhase::Aborting => SessionAction::Abort,
            SessionPhase::Dropping => SessionAction::Close,
        }
    }

    /// How many bytes a read may bring.
    pub fn room(&self) -> (r: usize)
        requires
            self@.wf(),
        ensures
            r == HTTP_BUFFER_SIZE - self@.buf.len(),
    {
        HTTP_BUFFER_SIZE - self.buf.len()
    }

    /// The bytes received on the current connection.
    pub fn bytes(&self) -> (r: &[u8])
        ensures
            r@ == self@.buf,
    {
        self.buf.as_slice()
    }

    /// The waiting for a connection is over.
    pub fn accepted(&mut self, accepted: bool)
        requires
            old(self)@.wf(),
            old(self)@.action() == SessionAction::Accept,
        ensures
            final(self)@ == old(self)@.after_accept(accepted),
            final(self)@.wf(),
    {
        if accepted {
            self.phase = SessionPhase::Reading;
            self.buf.clear();
        } else {
            self.phase = SessionPhase::Retrying;
        }
    }

    /// A read was made.
    pub fn read(&mut self, outcome: ReadOutcome)
        requires
            old(self)@.wf(),
            old(self)@.action() == SessionAction::Read,
            outcome matches ReadOutcome::Data(bytes) ==> old(self)@.buf.len() + bytes@.len()
                <= HTTP_BUFFER_SIZE,
        ensures
            final(self)@ == old(self)@.after_read(outcome@),
            final(self)@.wf(),
    {
        match outcome {
            ReadOutcome::Data(bytes) => {
                let mut bytes = bytes;
                let n: usize = bytes.len();
                self.buf.append(&mut bytes);
                if n != 0 && self.buf.len() < HTTP_BUFFER_SIZE && !http::head_is_complete(
                    self.buf.as_slice(),
                ) {
                    return;
                }
            },
            ReadOutcome::Failed => {},
        }
        self.phase = if self.buf.len() == 0 {
            SessionPhase::Dropping
        } else {
            SessionPhase::Dispatching
        };
    }

    /// The pause is over, the answer given, the connection closed or dropped.
    pub fn done(&mut self)
        requires
            old(self)@.wf(),
            old(self)@.action() != SessionAction::Accept,
            old(self)@.action() != SessionAction::Read,
        ensures
            final(self)@ == old(self)@.after_done(),
            final(self)@.wf(),
    {
        self.phase = match self.phase {
            SessionPhase::Dispatching => SessionPhase::Settling,
            SessionPhase::Settling => SessionPhase::Closing,
            SessionPhase::Closing => SessionPhase::Lingering,
            SessionPhase::Lingering => SessionPhase::Aborting,
            _ => SessionPhase::Accepting,
        };
    }
}

/// Something that happens to a session.
pub enum SessionEvent {
    Accepted(bool),
    Read(ReadModel),
    Done,
}

impl SessionModel {
    /// Whether `event` is the outcome of what is to be done next.
    pub open spec fn allows(self, event: SessionEvent) -> bool {
        match event {
            SessionEvent::Accepted(_) => self.action() is Accept,
            SessionEvent::Read(outcome) => {
                &&& self.action() is Read
                &&& outcome matches ReadModel::Data(bytes) ==> self.buf.len() + bytes.len()
                    <= HTTP_BUFFER_SIZE
            },
            SessionEvent::Done => self.action() !is Accept && self.action() !is Read,
        }
    }

    /// After an event.
    pub open spec fn step(self, event: SessionEvent) -> SessionModel {
        match event {
            SessionEvent::Accepted(accepted) => self.after_accept(accepted),
            SessionEvent::Read(outcome) => self.after_read(outcome),
            SessionEvent::Done => self.after_done(),
        }
    }

    /// After a history of events.
    pub open spec fn run(self, events: Seq<SessionEvent>) -> SessionModel
        decreases events.len(),
    {
        if events.len() == 0 {
            self
        } else {
            self.run(events.drop_last()).step(events.last())
        }
    }

    /// Whether each event of a history is the outcome of what was to be done when it happened.
    pub open spec fn allows_all(self, events: Seq<SessionEvent>) -> bool
        decreases events.len(),
    {
        events.len() == 0 || {
            &&& self.allows_all(events.drop_last())
            &&& self.run(events.drop_last()).allows(events.last())
        }
    }

    /// Whether the socket was closed in the course of a history of events.
    pub open spec fn closed_in(self, events: Seq<SessionEvent>) -> bool
        decreases events.len(),
    {
        events.len() > 0 && {
            ||| self.closed_in(events.drop_last())
            ||| self.run(events.drop_last()).action() is Close
        }
    }
}

/// A connection that was accepted is closed before the next one is awaited.
pub proof fn connections_are_closed(m: SessionModel, events: Seq<SessionEvent>)
    requires
        m.phase is Reading,
        m.allows_all(events),
        m.run(events).action() is Accept,
    ensures
        m.closed_in(events),
{
    closed_or_open(m, events);
}

/// Until it is closed, a connection is being read, answered, or about to be closed.
proof fn closed_or_open(m: SessionModel, events: Seq<SessionEvent>)
    requires
        m.phase is Reading,
        m.allows_all(events),
    ensures
        m.closed_in(events) || m.run(events).phase is Reading || m.run(events).phase is Dispatching
            || m.run(events).phase is Settling || m.run(events).phase is Closing || m.run(
            events,
        ).phase is Dropping,
    decreases events.len(),
{
    if events.len() > 0 {
        closed_or_open(m, events.drop_last());
    }
}

/// What happens to a well-formed session leaves it well-formed.
proof fn step_stays_wf(m: SessionModel, event: SessionEvent)
    requires
        m.wf(),
        m.allows(event),
    ensures
        m.step(event).wf(),
{
    match event {
        SessionEvent::Accepted(true) => {
            assert(text::first_at(Seq::<u8>::empty(), http::blank_line(), 0) is None);
        },
        SessionEvent::Read(ReadModel::Data(bytes)) => {
            assert(bytes.len() == 0 ==> m.buf + bytes =~= m.buf);
        },
        _ => {},
    }
}

/// Every state that a session reaches is well-formed: it never holds more than its buffer, reads
/// only while there is room and the head of the request has not ended, and never answers an empty
/// request.
pub proof fn sessions_stay_wf(events: Seq<SessionEvent>)
    requires
        SessionModel::start().allows_all(events),
    ensures
        SessionModel::start().run(events).wf(),
    decreases events.len(),
{
    if events.len() > 0 {
        sessions_stay_wf(events.drop_last());
        step_stays_wf(SessionModel::start().run(events.drop_last()), events.last());
    }
}

/// An answered connection is left alone for a moment, closed, left alone again and dropped, and
/// then the next one is awaited.
pub proof fn answer_ends_in_abort(m: SessionModel)
    requires
        m.phase is Dispatching,
    ensures
        m.after_done().action() is Pause,
        m.after_done().after_done().action() is Close,
        m.after_done().after_done().after_done().action() is Pause,
        m.after_done().after_done().after_done().after_done().action() is Abort,
        m.after_done().after_done().after_done().after_done().after_done().action() is Accept,
{
}

/// The bytes that a history of events reads since the last connection was accepted.
pub open spec fn read_since_accept(events: Seq<SessionEvent>) -> Seq<u8>
    decreases events.len(),
{
    if events.len() == 0 {
        Seq::empty()
    } else {
        let before = read_since_accept(events.drop_last());
        match events.last() {
            SessionEvent::Accepted(true) => Seq::empty(),
            SessionEvent::Read(ReadModel::Data(bytes)) => before + bytes,
            _ => before,
        }
    }
}

/// What a session answers is, in order, what was read on the current connection, and nothing of
/// earlier ones.
pub proof fn answers_what_was_read(events: Seq<SessionEvent>)
    requires
        SessionModel::start().allows_all(events),
    ensures
        SessionModel::start().run(events).buf == read_since_accept(events),
    decreases events.len(),
{
    if events.len() > 0 {
        answers_what_was_read(events.drop_last());
    }
}

/// At most how many more events there are before the next connection is awaited: five, or fewer,
/// once the receiving is over; before, also one for each byte there is still room for.
pub open spec fn events_left(m: SessionModel) -> int {
    match m.phase {
        SessionPhase::Accepting => 0,
        SessionPhase::Retrying => 1,
        SessionPhase::Reading => HTTP_BUFFER_SIZE - m.buf.len() + 5,
        SessionPhase::Dispatching => 5,
        SessionPhase::Settling => 4,
        SessionPhase::Closing => 3,
        SessionPhase::Lingering => 2,
        SessionPhase::Aborting => 1,
        SessionPhase::Dropping => 1,
    }
}

/// A session is never final: whatever state it is in, there is something to be done, and its
/// outcome, good or bad, leads on. Every event brings a session nearer to the next connection
/// until that is awaited, and from every phase but `Reading` at most five events lead there.
pub proof fn sessions_go_on(m: SessionModel, event: SessionEvent)
    requires
        m.wf(),
        m.allows(event),
    ensures
        m.allows(SessionEvent::Accepted(false)) || m.allows(SessionEvent::Read(ReadModel::Failed))
            || m.allows(SessionEvent::Done),
        m.step(event).wf(),
        0 <= events_left(m),
        events_left(m) == 0 <==> m.action() is Accept,
        m.phase !is Reading ==> events_left(m) <= 5,
        m.action() !is Accept ==> events_left(m.step(event)) < events_left(m),
{
    step_stays_wf(m, event);
}

/// Whatever happens to it, a session comes back to awaiting a connection: failed reads, requests
/// that cannot be read and answers that cannot be sent do not keep it from that.
pub proof fn sessions_come_back(m: SessionModel, events: Seq<SessionEvent>)
    requires
        m.wf(),
        m.allows_all(events),
        events.len() >= events_left(m),
    ensures
        exists|n: int|
            0 <= n <= events_left(m) && n <= events.len() && #[trigger] m.run(
                events.take(n),
            ).action() is Accept,
{
    let n = events_left(m);
    assert(n >= 0);
    let first = events.take(n);
    prefix_is_allowed(m, events, n);
    nearer_or_back(m, first);
    if exists|k: int|
        0 <= k <= first.len() && #[trigger] m.run(first.take(k)).action() is Accept {
        let k = choose|k: int|
            0 <= k <= first.len() && #[trigger] m.run(first.take(k)).action() is Accept;
        assert(first.take(k) =~= events.take(k));
        assert(m.run(events.take(k)).action() is Accept);
    } else {
        assert(first.take(n) =~= first);
        assert(m.run(first.take(n)).action() !is Accept);
    }
}

/// The beginning of a history is a history.
proof fn prefix_is_allowed(m: SessionModel, events: Seq<SessionEvent>, n: int)
    requires
        m.allows_all(events),
        0 <= n <= events.len(),
    ensures
        m.allows_all(events.take(n)),
    decreases events.len(),
{
    if n == events.len() {
        assert(events.take(n) =~= events);
    } else {
        prefix_is_allowed(m, events.drop_last(), n);
        assert(events.drop_last().take(n) =~= events.take(n));
    }
}

/// In the course of a history a connection is awaited, or each event has brought that nearer.
proof fn nearer_or_back(m: SessionModel, events: Seq<SessionEvent>)
    requires
        m.wf(),
        m.allows_all(events),
    ensures
        m.run(events).wf(),
        (exists|k: int|
            0 <= k <= events.len() && #[trigger] m.run(events.take(k)).action() is Accept)
            || 0 < events_left(m.run(events)) <= events_left(m) - events.len(),
    decreases events.len(),
{
    assert(events.take(events.len() as int) =~= events);
    if events.len() == 0 {
        if m.action() is Accept {
            assert(m.run(events.take(0)).action() is Accept);
        }
    } else {
        let earlier = events.drop_last();
        nearer_or_back(m, earlier);
        let before = m.run(earlier);
        sessions_go_on(before, events.last());
        if exists|k: int|
            0 <= k <= earlier.len() && #[trigger] m.run(earlier.take(k)).action() is Accept {
            let k = choose|k: int|
                0 <= k <= earlier.len() && #[trigger] m.run(earlier.take(k)).action() is Accept;
            assert(earlier.take(k) =~= events.take(k));
            assert(m.run(events.take(k)).action() is Accept);
        } else {
            assert(earlier.take(earlier.len() as int) =~= earlier);
            assert(m.run(earlier.take(earlier.len() as int)).action() !is Accept);
            let last = events.len() as int;
            if m.run(events).action() is Accept {
                assert(m.run(events.take(last)).action() is Accept);
            } else {
                let now = m.run(events);
                assert(now.phase !is Accepting);
                assert(now.buf.len() <= HTTP_BUFFER_SIZE);
            }
        }
    }
}

/// A session starts by awaiting a connection. A connection that came about is read from, with
/// nothing received yet; after one that did not, there is a pause and the next is awaited.
pub proof fn connections_are_awaited(m: SessionModel)
    ensures
        SessionModel::start().action() is Accept,
        m.after_accept(true).action() is Read,
        m.after_accept(true).phase is Reading,
        m.after_accept(true).buf == Seq::<u8>::empty(),
        m.after_accept(false).action() is Pause,
        m.after_accept(false).after_done().action() is Accept,
{
}

/// What was read is gathered, whatever it is. Receiving goes on after a read exactly when the read
/// brought something, there is room for more, and no empty line was received yet. Otherwise it is
/// over, as it is after a read that failed: an empty connection is closed and the next awaited, any
/// other is answered.
pub proof fn receiving_goes_on_until_the_empty_line(m: SessionModel, bytes: Seq<u8>)
    requires
        m.phase is Reading,
    ensures
        ({
            let after = m.after_read(ReadModel::Data(bytes));
            let all = m.buf + bytes;
            let goes_on = bytes.len() > 0 && all.len() < 2048 && forall|j: int|
                0 <= j <= all.len() ==> !seq![13u8, 10u8, 13u8, 10u8].is_prefix_of(
                    #[trigger] all.skip(j),
                );
            &&& after.buf == all
            &&& goes_on ==> after.phase is Reading && after.action() is Read
            &&& !goes_on && all.len() > 0 ==> after.phase is Dispatching && after.action()
                is Dispatch
            &&& !goes_on && all.len() == 0 ==> after.action() is Close && after.after_done().action()
                is Accept
        }),
        ({
            let after = m.after_read(ReadModel::Failed);
            &&& after.buf == m.buf
            &&& m.buf.len() > 0 ==> after.phase is Dispatching && after.action() is Dispatch
            &&& m.buf.len() == 0 ==> after.action() is Close && after.after_done().action()
                is Accept
        }),
{
    let all = m.buf + bytes;
    let end = seq![13u8, 10u8, 13u8, 10u8];
    if forall|j: int| 0 <= j <= all.len() ==> !end.is_prefix_of(#[trigger] all.skip(j)) {
        text::first_at_is_nowhere(all, end, 0);
    } else {
        let j = choose|j: int| 0 <= j <= all.len() && end.is_prefix_of(#[trigger] all.skip(j));
        text::first_at_is_first(all, end, 0);
        assert(all.subrange(j, j + 4) =~= all.skip(j).subrange(0, 4));
        assert(text::occurs_at(all, end, j));
    }
}

/// A connection is answered only when receiving was over: the last read failed or brought nothing,
/// or the empty line has come, or the buffer is full.
pub proof fn answers_wait_for_the_request(events: Seq<SessionEvent>)
    requires
        SessionModel::start().allows_all(events),
        SessionModel::start().run(events).action() is Dispatch,
    ensures
        ({
            let all = SessionModel::start().run(events).buf;
            &&& events.len() > 0
            &&& all.len() > 0
            &&& {
                ||| events.last() == SessionEvent::Read(ReadModel::Failed)
                ||| events.last() matches SessionEvent::Read(ReadModel::Data(bytes)) && {
                    ||| bytes.len() == 0
                    ||| all.len() >= 2048
                    ||| exists|j: int|
                        0 <= j <= all.len() && seq![13u8, 10u8, 13u8, 10u8].is_prefix_of(
                            #[trigger] all.skip(j),
                        )
                }
            }
        }),
{
    assert(events.len() > 0);
    let before = SessionModel::start().run(events.drop_last());
    match events.last() {
        SessionEvent::Read(ReadModel::Data(bytes)) => {
            receiving_goes_on_until_the_empty_line(before, bytes);
        },
        SessionEvent::Read(ReadModel::Failed) => {
            receiving_goes_on_until_the_empty_line(before, Seq::empty());
        },
        _ => {},
    }
}

} // verus!
