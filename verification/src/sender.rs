//! Sending bytes over a connection that takes them a few at a time.
//!
//! A `Sender` says what is to be done next with the connection, and is told what came of it.
use vstd::prelude::*;
use vstd::slice::{slice_subrange, slice_to_vec};

use crate::header;
use crate::http::Response;

verus! {

/// How far a `Sender` is.
#[derive(Clone, Copy)]
pub enum SendPhase {
    /// The current part is being written.
    Writing,
    /// The connection took nothing of what was left: one flush, and the sending is given up.
    Stalled,
    /// The sending is over; the flag says whether everything was taken.
    Done(bool),
}

/// What is to be done next with the connection.
pub enum SendAction<'a> {
    /// Write these bytes, at least one.
    Write(&'a [u8]),
    /// Flush; whether that works makes no difference.
    Flush,
    /// Nothing more; the flag says whether everything was taken.
    Finished(bool),
}

/// Parts that are sent in turn, each followed by a flush.
pub struct Sender {
    parts: Vec<Vec<u8>>,
    part: usize,
    sent: usize,
    phase: SendPhase,
}

/// What a `Sender` knows.
pub struct SendModel {
    /// The parts to send.
    pub parts: Seq<Seq<u8>>,
    /// How many parts are behind.
    pub part: int,
    /// How many bytes of the current part were taken.
    pub sent: int,
    pub phase: SendPhase,
}

/// What is to be done next, over the model.
pub enum SendStep {
    Write(Seq<u8>),
    Flush,
    Finished(bool),
}

/// The first `n` parts, one behind the other.
pub open spec fn first_parts(parts: Seq<Seq<u8>>, n: int) -> Seq<u8>
    decreases n,
{
    if n <= 0 {
        Seq::empty()
    } else {
        first_parts(parts, n - 1) + parts[n - 1]
    }
}

impl SendModel {
    /// A sending that has not begun.
    pub open spec fn start(parts: Seq<Seq<u8>>) -> SendModel {
        SendModel {
            parts,
            part: 0,
            sent: 0,
            phase: if parts.len() == 0 {
                SendPhase::Done(true)
            } else {
                SendPhase::Writing
            },
        }
    }

    /// The position lies inside the parts, and is at their end exactly when all went well.
    pub open spec fn wf(self) -> bool {
        match self.phase {
            SendPhase::Writing => 0 <= self.part < self.parts.len() && 0 <= self.sent
                <= self.parts[self.part].len(),
            SendPhase::Stalled => 0 <= self.part < self.parts.len() && 0 <= self.sent
                < self.parts[self.part].len(),
            SendPhase::Done(ok) => if ok {
                self.part == self.parts.len() && self.sent == 0
            } else {
                0 <= self.part < self.parts.len() && 0 <= self.sent < self.parts[self.part].len()
            },
        }
    }

    /// What is to be done next.
    pub open spec fn next(self) -> SendStep {
        match self.phase {
            SendPhase::Writing => if self.sent < self.parts[self.part].len() {
                SendStep::Write(self.parts[self.part].skip(self.sent))
            } else {
                SendStep::Flush
            },
            SendPhase::Stalled => SendStep::Flush,
            SendPhase::Done(ok) => SendStep::Finished(ok),
        }
    }

    /// After the connection took `n` bytes.
    pub open spec fn after_write(self, n: int) -> SendModel {
        if n == 0 {
            SendModel { phase: SendPhase::Stalled, ..self }
        } else {
            SendModel { sent: self.sent + n, ..self }
        }
    }

    /// After a write that failed.
    pub open spec fn after_failure(self) -> SendModel {
        SendModel { phase: SendPhase::Done(false), ..self }
    }

    /// After a flush.
    pub open spec fn after_flush(self) -> SendModel {
        match self.phase {
            SendPhase::Writing => SendModel {
                part: self.part + 1,
                sent: 0,
                phase: if self.part + 1 == self.parts.len() {
                    SendPhase::Done(true)
                } else {
                    SendPhase::Writing
                },
                ..self
            },
            _ => SendModel { phase: SendPhase::Done(false), ..self },
        }
    }

    /// The bytes that the connection took so far.
    pub open spec fn taken(self) -> Seq<u8> {
        if self.part < self.parts.len() {
            first_parts(self.parts, self.part) + self.parts[self.part].take(self.sent)
        } else {
            first_parts(self.parts, self.part)
        }
    }

    /// All the bytes there are to send.
    pub open spec fn all(self) -> Seq<u8> {
        first_parts(self.parts, self.parts.len() as int)
    }
}

impl View for Sender {
    type V = SendModel;

    closed spec fn view(&self) -> SendModel {
        SendModel {
            parts: self.parts@.map_values(|p: Vec<u8>| p@),
            part: self.part as int,
            sent: self.sent as int,
            phase: self.phase,
        }
    }
}

impl Sender {
    fn of(parts: Vec<Vec<u8>>) -> (r: Sender)
        ensures
            r@ == SendModel::start(parts@.map_values(|p: Vec<u8>| p@)),
            r@.wf(),
    {
        let phase = if parts.len() == 0 {
            SendPhase::Done(true)
        } else {
            SendPhase::Writing
        };
        Sender { parts, part: 0, sent: 0, phase }
    }

    /// Sends one run of bytes.
    pub fn write_all(data: &[u8]) -> (r: Sender)
        ensures
            r@ == SendModel::start(seq![data@]),
            r@.wf(),
    {
        let mut parts: Vec<Vec<u8>> = Vec::new();
        parts.push(slice_to_vec(data));
        assert(parts@.map_values(|p: Vec<u8>| p@) =~= seq![data@]);
        Sender::of(parts)
    }

    /// Sends a response: its head, then its body.
    pub fn write_response(response: &Response<'_>) -> (r: Sender)
        ensures
            r@ == SendModel::start(
                seq![
                    header::head(
                        response.status@,
                        response.content_type@,
                        response.body@.len(),
                    ),
                    response.body@,
                ],
            ),
            r@.wf(),
    {
        let head = header::response_head(
            response.status,
            response.content_type,
            response.body.len(),
        );
        let mut parts: Vec<Vec<u8>> = Vec::new();
        let ghost head_bytes = head@;
        parts.push(head);
        parts.push(slice_to_vec(response.body));
        assert(parts@.map_values(|p: Vec<u8>| p@) =~= seq![head_bytes, response.body@]);
        Sender::of(parts)
    }

    /// What is to be done next with the connection.
    pub fn next(&self) -> (r: SendAction<'_>)
        requires
            self@.wf(),
        ensures
            match r {
                SendAction::Write(bytes) => self@.next() == SendStep::Write(bytes@),
                SendAction::Flush => self@.next() == SendStep::Flush,
                SendAction::Finished(ok) => self@.next() == SendStep::Finished(ok),
            },
    {
        match self.phase {
            SendPhase::Writing => {
                let part = &self.parts[self.part];
                if self.sent < part.len() {
                    let rest = slice_subrange(part.as_slice(), self.sent, part.len());
                    assert(rest@ =~= part@.skip(self.sent as int));
                    SendAction::Write(rest)
                } else {
                    SendAction::Flush
                }
            },
            SendPhase::Stalled => SendAction::Flush,
            SendPhase::Done(ok) => SendAction::Finished(ok),
        }
    }

    /// The connection took `n` of the bytes that were to be written.
    pub fn wrote(&mut self, n: usize)
        requires
            old(self)@.wf(),
            old(self)@.next() matches SendStep::Write(bytes) && n <= bytes.len(),
        ensures
            final(self)@ == old(self)@.after_write(n as int),
            final(self)@.wf(),
    {
        if n == 0 {
            self.phase = SendPhase::Stalled;
        } else {
            let limit: usize = self.parts[self.part].len();
            assert(self.sent + n <= limit);
            self.sent = self.sent + n;
        }
    }

    /// The write failed.
    pub fn write_failed(&mut self)
        requires
            old(self)@.wf(),
            old(self)@.next() is Write,
        ensures
            final(self)@ == old(self)@.after_failure(),
            final(self)@.wf(),
    {
        self.phase = SendPhase::Done(false);
    }

    /// The flush is done, whether it worked or not.
    pub fn flushed(&mut self)
        requires
            old(self)@.wf(),
            old(self)@.next() is Flush,
        ensures
            final(self)@ == old(self)@.after_flush(),
            final(self)@.wf(),
    {
        match self.phase {
            SendPhase::Writing => {
                let count: usize = self.parts.len();
                self.part = self.part + 1;
                self.sent = 0;
                if self.part == count {
                    self.phase = SendPhase::Done(true);
                }
            },
            _ => {
                self.phase = SendPhase::Done(false);
            },
        }
    }
}

/// What the connection took is always the beginning of what there is to send, and a sending that
/// is over reports success exactly when the connection took all of it.
pub proof fn sends_in_order(m: SendModel)
    requires
        m.wf(),
    ensures
        m.taken().is_prefix_of(m.all()),
        m.phase matches SendPhase::Done(ok) ==> (ok <==> m.taken() == m.all()),
{
    if m.part < m.parts.len() {
        first_parts_grow(m.parts, m.part + 1, m.parts.len() as int);
        let upto = first_parts(m.parts, m.part + 1);
        assert(m.taken() =~= upto.take(m.taken().len() as int));
        assert(m.taken() =~= m.all().take(m.taken().len() as int));
        assert(m.taken().len() + m.parts[m.part].len() - m.sent == upto.len());
    } else {
        assert(m.taken() =~= m.all());
    }
}

/// Fewer parts are the beginning of more parts.
proof fn first_parts_grow(parts: Seq<Seq<u8>>, a: int, b: int)
    requires
        0 <= a <= b <= parts.len(),
    ensures
        first_parts(parts, a).len() <= first_parts(parts, b).len(),
        first_parts(parts, a) == first_parts(parts, b).take(first_parts(parts, a).len() as int),
    decreases b - a,
{
    if a < b {
        first_parts_grow(parts, a, b - 1);
    }
    assert(first_parts(parts, a) =~= first_parts(parts, b).take(
        first_parts(parts, a).len() as int,
    ));
}

/// A write hands the connection the very next bytes: what it takes of them is added behind what it
/// took before.
pub proof fn write_continues(m: SendModel, n: int)
    requires
        m.wf(),
        m.next() matches SendStep::Write(bytes) && 0 <= n <= bytes.len(),
    ensures
        m.next() matches SendStep::Write(bytes) && bytes.len() > 0 && m.after_write(n).taken()
            == m.taken() + bytes.take(n),
{
    let rest = m.parts[m.part].skip(m.sent);
    assert(m.parts[m.part].take(m.sent + n) =~= m.parts[m.part].take(m.sent) + rest.take(n));
    assert(m.after_write(n).taken() =~= m.taken() + rest.take(n));
}

/// Flushing and failing change nothing of what the connection took.
pub proof fn only_writes_are_taken(m: SendModel)
    requires
        m.wf(),
    ensures
        m.next() is Write ==> m.after_failure().taken() == m.taken(),
        m.next() is Flush ==> m.after_flush().taken() == m.taken(),
{
    if m.next() is Flush && m.phase is Writing {
        let part = m.parts[m.part];
        assert(part.take(m.sent) =~= part);
        let after = m.after_flush();
        if after.part < m.parts.len() {
            assert(after.parts[after.part].take(0) =~= Seq::<u8>::empty());
        }
        assert(after.taken() =~= m.taken());
    }
}

/// At most how many more times the connection is used before the sending is over.
pub open spec fn uses_left(m: SendModel) -> int {
    match m.phase {
        SendPhase::Writing => m.all().len() - m.taken().len() + m.parts.len() - m.part + 1,
        SendPhase::Stalled => 1,
        SendPhase::Done(_) => 0,
    }
}

/// A sending comes to an end: every use of the connection leaves fewer of them, and it is over
/// exactly when none is left.
pub proof fn sending_ends(m: SendModel, n: int)
    requires
        m.wf(),
        m.next() matches SendStep::Write(bytes) ==> 0 <= n <= bytes.len(),
    ensures
        uses_left(m) >= 0,
        uses_left(m) == 0 <==> m.next() is Finished,
        m.next() is Write ==> uses_left(m.after_write(n)) < uses_left(m) && uses_left(
            m.after_failure(),
        ) < uses_left(m),
        m.next() is Flush ==> uses_left(m.after_flush()) < uses_left(m),
{
    sends_in_order(m);
    only_writes_are_taken(m);
    if m.next() is Write {
        write_continues(m, n);
        let rest = m.parts[m.part].skip(m.sent);
        write_continues(m, rest.len() as int);
        let after = m.after_write(rest.len() as int);
        assert(after.wf());
        sends_in_order(after);
        assert(m.after_write(n).taken().len() == m.taken().len() + n);
    }
}

/// A sending begins with the first byte of the first part, whatever the parts are; where there are
/// none it is over at once. All there is to send of two parts is the one behind the other.
pub proof fn sending_begins_with_the_first_part(parts: Seq<Seq<u8>>, a: Seq<u8>, b: Seq<u8>)
    ensures
        SendModel::start(parts).parts == parts,
        parts.len() == 0 ==> SendModel::start(parts).next() == SendStep::Finished(true),
        parts.len() > 0 && parts[0].len() > 0 ==> SendModel::start(parts).next()
            == SendStep::Write(parts[0]),
        parts.len() > 0 && parts[0].len() == 0 ==> SendModel::start(parts).next()
            == SendStep::Flush,
        parts.len() > 0 ==> {
            &&& SendModel::start(parts).phase is Writing
            &&& SendModel::start(parts).part == 0
            &&& SendModel::start(parts).sent == 0
        },
        SendModel::start(seq![a, b]).all() == a + b,
        SendModel::start(seq![a]).all() == a,
{
    if parts.len() > 0 {
        assert(parts[0].skip(0) =~= parts[0]);
    }
    reveal_with_fuel(first_parts, 3);
    assert(first_parts(seq![a, b], 2) =~= a + b);
    assert(first_parts(seq![a], 1) =~= a);
}

/// The connection is offered all that is left of a part. What it takes is offered no more; when it
/// takes nothing there is one flush and the sending is given up; when writing fails it is given up
/// at once. Once a part is taken there is a flush, and then the next part follows from its first
/// byte, or all was sent.
pub proof fn parts_are_sent_one_after_the_other(m: SendModel, n: int)
    requires
        m.phase is Writing,
        0 <= m.part < m.parts.len(),
        0 <= m.sent <= m.parts[m.part].len(),
    ensures
        ({
            let rest = m.parts[m.part].skip(m.sent);
            if rest.len() > 0 {
                &&& m.next() == SendStep::Write(rest)
                &&& m.after_failure().next() == SendStep::Finished(false)
                &&& m.after_write(0).next() == SendStep::Flush
                &&& m.after_write(0).after_flush().next() == SendStep::Finished(false)
                &&& 0 < n <= rest.len() ==> {
                    &&& m.after_write(n).phase is Writing
                    &&& m.after_write(n).parts == m.parts
                    &&& m.after_write(n).part == m.part
                    &&& m.after_write(n).sent == m.sent + n
                }
                &&& 0 < n < rest.len() ==> m.after_write(n).next() == SendStep::Write(rest.skip(n))
                &&& n == rest.len() ==> m.after_write(n).next() == SendStep::Flush
            } else {
                &&& m.next() == SendStep::Flush
                &&& m.part + 1 == m.parts.len() ==> m.after_flush().next() == SendStep::Finished(
                    true,
                )
                &&& m.part + 1 < m.parts.len() ==> {
                    &&& m.after_flush().phase is Writing
                    &&& m.after_flush().parts == m.parts
                    &&& m.after_flush().part == m.part + 1
                    &&& m.after_flush().sent == 0
                    &&& m.after_flush().next() == (if m.parts[m.part + 1].len() > 0 {
                        SendStep::Write(m.parts[m.part + 1])
                    } else {
                        SendStep::Flush
                    })
                }
            }
        }),
{
    let part = m.parts[m.part];
    let rest = part.skip(m.sent);
    if 0 < n <= rest.len() {
        assert(part.skip(m.sent + n) =~= rest.skip(n));
    }
    if m.part + 1 < m.parts.len() {
        assert(m.parts[m.part + 1].skip(0) =~= m.parts[m.part + 1]);
    }
}

} // verus!
