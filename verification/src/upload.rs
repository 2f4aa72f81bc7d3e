//! Carrying a firmware image from a connection to the flash, chunk by chunk.
//!
//! An `Upload` says what is to be done next, and is told what came of it.
use vstd::prelude::*;
use vstd::string::StringExecFns;

use crate::header;
use crate::http;
use crate::http::{HttpRequest, Response, ResponseModel};
use crate::text;
use crate::update;
use crate::update::UpdateRequest;

verus! {

/// How many bytes are gathered before they go to the flash.
pub const OTA_BUFFER_SIZE: usize = 4096;

/// How long to wait before the restart into the new image, in milliseconds.
pub const RESTART_DELAY_MS: u64 = 100;

/// What came of a read.
pub enum ReadOutcome {
    /// The bytes that were read; none at the end of the stream.
    Data(Vec<u8>),
    /// The read failed.
    Failed,
}

/// What came of a read, over the model.
pub enum ReadModel {
    Data(Seq<u8>),
    Failed,
}

impl View for ReadOutcome {
    type V = ReadModel;

    open spec fn view(&self) -> ReadModel {
        match self {
            ReadOutcome::Data(bytes) => ReadModel::Data(bytes@),
            ReadOutcome::Failed => ReadModel::Failed,
        }
    }
}

/// What is to be done next. The flag says whether the stream has ended.
#[derive(Clone, Copy, Debug, PartialEq, Eq)]
pub enum UploadPhase {
    /// Open the flash.
    Opening,
    /// Prepare the flash for the image that is announced.
    Beginning,
    /// Read more of the body, at most as much as there is room for.
    Receiving,
    /// A chunk is gathered and the stream goes on: report the progress, with one line.
    Report,
    /// Write the gathered chunk to the flash.
    Chunk(bool),
    /// The image is complete: check it and make it the one to boot.
    Verify(bool),
    /// The image was accepted: say so.
    Announce(bool),
    /// Restart into the new image.
    Restart,
    /// Nothing more will come: close with the response for that.
    Over,
    /// The update was refused or failed: close with the response for that.
    Failed,
}

/// A firmware image on its way to the flash.
pub struct Upload {
    buf: Vec<u8>,
    total: usize,
    size: u32,
    crc: u32,
    content_length: usize,
    phase: UploadPhase,
}

/// What an `Upload` knows.
pub struct UploadModel {
    /// The bytes that are gathered and not written yet.
    pub buf: Seq<u8>,
    /// How many bytes went to the flash, with those of a chunk that is about to.
    pub total: int,
    /// The size of the image.
    pub size: int,
    /// The checksum of the image.
    pub crc: int,
    /// How many bytes of body were announced.
    pub content_length: int,
    pub phase: UploadPhase,
}

impl UploadModel {
    /// An upload of which `body` came with the request. A request that does not announce all it
    /// should is refused.
    pub open spec fn start(body: Seq<u8>, announced: Option<UpdateRequest>) -> UploadModel {
        match announced {
            Some(u) => UploadModel {
                buf: body,
                total: 0,
                size: u.size as int,
                crc: u.crc as int,
                content_length: u.content_length as int,
                phase: UploadPhase::Opening,
            },
            None => UploadModel {
                buf: body,
                total: 0,
                size: 0,
                crc: 0,
                content_length: 0,
                phase: UploadPhase::Failed,
            },
        }
    }

    /// The gathered bytes fit the buffer; a chunk is never empty, and is full unless it is the
    /// last one announced or the stream has ended.
    pub open spec fn wf(self) -> bool {
        &&& self.buf.len() <= OTA_BUFFER_SIZE
        &&& 0 <= self.total <= usize::MAX
        &&& 0 <= self.content_length <= usize::MAX
        &&& match self.phase {
            UploadPhase::Report => {
                &&& 0 < self.buf.len() <= self.total
                &&& self.buf.len() == OTA_BUFFER_SIZE || self.total >= self.content_length
            },
            UploadPhase::Chunk(ended) => {
                &&& 0 < self.buf.len() <= self.total
                &&& !ended ==> self.buf.len() == OTA_BUFFER_SIZE || self.total
                    >= self.content_length
            },
            _ => true,
        }
    }

    /// What follows when the flash has not completed the image.
    pub open spec fn settled(self, ended: bool) -> UploadModel {
        UploadModel {
            phase: if ended || self.total >= self.content_length {
                UploadPhase::Over
            } else {
                UploadPhase::Receiving
            },
            ..self
        }
    }

    /// After the flash was opened, or could not be.
    pub open spec fn after_open(self, opened: bool) -> UploadModel {
        UploadModel {
            phase: if opened {
                UploadPhase::Beginning
            } else {
                UploadPhase::Failed
            },
            ..self
        }
    }

    /// After the flash was prepared, or could not be.
    pub open spec fn after_begin(self, begun: bool) -> UploadModel {
        UploadModel {
            phase: if begun {
                UploadPhase::Receiving
            } else {
                UploadPhase::Failed
            },
            ..self
        }
    }

    /// After the progress was reported.
    pub open spec fn after_report(self) -> UploadModel {
        UploadModel { phase: UploadPhase::Chunk(false), ..self }
    }

    /// After a read.
    pub open spec fn after_read(self, outcome: ReadModel) -> UploadModel {
        match outcome {
            ReadModel::Data(bytes) => {
                let buf = self.buf + bytes;
                if bytes.len() == 0 && buf.len() == 0 {
                    UploadModel { phase: UploadPhase::Over, ..self }
                } else if bytes.len() == 0 {
                    UploadModel {
                        total: self.total + buf.len(),
                        phase: UploadPhase::Chunk(true),
                        ..self
                    }
                } else if buf.len() == OTA_BUFFER_SIZE || self.total + buf.len()
                    >= self.content_length {
                    UploadModel {
                        buf,
                        total: self.total + buf.len(),
                        phase: UploadPhase::Report,
                        ..self
                    }
                } else {
                    UploadModel { buf, ..self }
                }
            },
            ReadModel::Failed => UploadModel { phase: UploadPhase::Over, ..self },
        }
    }

    /// After a chunk was offered to the flash, which says whether the image is now complete.
    pub open spec fn after_chunk(self, complete: bool) -> UploadModel {
        let written = UploadModel { buf: Seq::empty(), ..self };
        match self.phase {
            UploadPhase::Chunk(ended) => if complete {
                UploadModel { phase: UploadPhase::Verify(ended), ..written }
            } else {
                written.settled(ended)
            },
            _ => self,
        }
    }

    /// After the image was checked.
    pub open spec fn after_verify(self, accepted: bool) -> UploadModel {
        match self.phase {
            UploadPhase::Verify(ended) => if accepted {
                UploadModel { phase: UploadPhase::Announce(ended), ..self }
            } else {
                self.settled(ended)
            },
            _ => self,
        }
    }

    /// After the success was announced. Where the stream has ended, an announcement that cannot
    /// be sent is a failure.
    pub open spec fn after_announce(self, sent: bool) -> UploadModel {
        match self.phase {
            UploadPhase::Announce(ended) => UploadModel {
                phase: if ended && !sent {
                    UploadPhase::Failed
                } else {
                    UploadPhase::Restart
                },
                ..self
            },
            _ => self,
        }
    }
}

impl View for Upload {
    type V = UploadModel;

    closed spec fn view(&self) -> UploadModel {
        UploadModel {
            buf: self.buf@,
            total: self.total as int,
            size: self.size as int,
            crc: self.crc as int,
            content_length: self.content_length as int,
            phase: self.phase,
        }
    }
}

/// The line that reports the progress of an upload.
pub open spec fn progress_line(total: nat, content_length: nat) -> Seq<char> {
    "PROGRESS:"@ + text::decimal(total) + ","@ + text::decimal(content_length) + "\n"@
}

impl Upload {
    /// An upload of which `body` came with the request, given what the request announces.
    pub fn new(body: &[u8], announced: Option<UpdateRequest>) -> (r: Upload)
        requires
            body@.len() <= OTA_BUFFER_SIZE,
        ensures
            r@ == UploadModel::start(body@, announced),
            r@.wf(),
    {
        let buf = vstd::slice::slice_to_vec(body);
        match announced {
            Some(u) => Upload {
                buf,
                total: 0,
                size: u.size,
                crc: u.crc,
                content_length: u.content_length,
                phase: UploadPhase::Opening,
            },
            None => Upload {
                buf,
                total: 0,
                size: 0,
                crc: 0,
                content_length: 0,
                phase: UploadPhase::Failed,
            },
        }
    }

    /// The upload that a request asks for.
    pub fn for_request(request: &HttpRequest<'_>) -> (r: Upload)
        requires
            request.body@.len() <= OTA_BUFFER_SIZE,
        ensures
            r@ == UploadModel::start(request.body@, update::update_in(request@)),
            r@.wf(),
    {
        Upload::new(request.body, update::parse_update_request(request))
    }

    /// Size and checksum of the image.
    pub fn image(&self) -> (r: (u32, u32))
        ensures
            r.0 == self@.size,
            r.1 == self@.crc,
    {
        (self.size, self.crc)
    }

    /// The flash was opened, or could not be.
    pub fn opened(&mut self, opened: bool)
        requires
            old(self)@.wf(),
            old(self)@.phase is Opening,
        ensures
            final(self)@ == old(self)@.after_open(opened),
            final(self)@.wf(),
    {
        self.phase = if opened {
            UploadPhase::Beginning
        } else {
            UploadPhase::Failed
        };
    }

    /// The flash was prepared for the image, or could not be.
    pub fn begun(&mut self, begun: bool)
        requires
            old(self)@.wf(),
            old(self)@.phase is Beginning,
        ensures
            final(self)@ == old(self)@.after_begin(begun),
            final(self)@.wf(),
    {
        self.phase = if begun {
            UploadPhase::Receiving
        } else {
            UploadPhase::Failed
        };
    }

    /// The progress was reported.
    pub fn reported(&mut self)
        requires
            old(self)@.wf(),
            old(self)@.phase is Report,
        ensures
            final(self)@ == old(self)@.after_report(),
            final(self)@.wf(),
    {
        self.phase = UploadPhase::Chunk(false);
    }

    /// What is to be done next.
    pub fn phase(&self) -> (r: UploadPhase)
        ensures
            r == self@.phase,
    {
        self.phase
    }

    /// How many bytes a read may bring.
    pub fn room(&self) -> (r: usize)
        requires
            self@.wf(),
        ensures
            r == OTA_BUFFER_SIZE - self@.buf.len(),
    {
        OTA_BUFFER_SIZE - self.buf.len()
    }

    /// How many bytes went to the flash, with those of a chunk that is about to.
    pub fn total(&self) -> (r: usize)
        ensures
            r == self@.total,
    {
        self.total
    }

    /// The bytes that are gathered and not written yet.
    pub fn chunk(&self) -> (r: &[u8])
        ensures
            r@ == self@.buf,
    {
        self.buf.as_slice()
    }

    /// How the success is to be announced, if that is what is to be done next: with a line while
    /// the body is still coming, with a response once the stream has ended.
    pub fn announcement(&self) -> (r: Option<Announcement>)
        ensures
            match self@.phase {
                UploadPhase::Announce(ended) => if ended {
                    r matches Some(Announcement::Response(response)) && response@
                        == restarting_page()
                } else {
                    r matches Some(Announcement::Line(line)) && line@ == done_text()
                },
                _ => r is None,
            },
    {
        match self.phase {
            UploadPhase::Announce(ended) => if ended {
                Some(Announcement::Response(restarting_response()))
            } else {
                Some(Announcement::Line(done_line()))
            },
            _ => None,
        }
    }

    /// The response that closes the upload, if that is what is to be done next. An upload that
    /// was not carried through to a restart, but did not fail either, is acknowledged.
    pub fn closing_response(&self) -> (r: Option<Response<'static>>)
        ensures
            match self@.phase {
                UploadPhase::Over => r matches Some(response) && response@ == uploaded_page(),
                UploadPhase::Failed => r matches Some(response) && response@
                    == http::update_failed_page(),
                _ => r is None,
            },
    {
        match self.phase {
            UploadPhase::Over => Some(uploaded_response()),
            UploadPhase::Failed => Some(http::update_failed_response()),
            _ => None,
        }
    }

    /// The line that reports the progress.
    pub fn progress(&self) -> (r: String)
        ensures
            r@ == progress_line(self@.total as nat, self@.content_length as nat),
    {
        let mut s = String::from_str("PROGRESS:");
        let total = text::decimal_text(self.total as u64);
        s.append(total.as_str());
        s.append(",");
        let announced = text::decimal_text(self.content_length as u64);
        s.append(announced.as_str());
        s.append("\n");
        s
    }

    /// A read was made.
    pub fn read(&mut self, outcome: ReadOutcome)
        requires
            old(self)@.wf(),
            old(self)@.phase == UploadPhase::Receiving,
            outcome matches ReadOutcome::Data(bytes) ==> {
                &&& old(self)@.buf.len() + bytes@.len() <= OTA_BUFFER_SIZE
                &&& old(self)@.total + old(self)@.buf.len() + bytes@.len() <= usize::MAX
            },
        ensures
            final(self)@ == old(self)@.after_read(outcome@),
            final(self)@.wf(),
    {
        match outcome {
            ReadOutcome::Data(bytes) => {
                let mut bytes = bytes;
                let ghost d = bytes@;
                let n: usize = bytes.len();
                self.buf.append(&mut bytes);
                let len: usize = self.buf.len();
                if n == 0 {
                    assert(self.buf@ =~= old(self)@.buf);
                    if len == 0 {
                        self.phase = UploadPhase::Over;
                    } else {
                        self.total = self.total + len;
                        self.phase = UploadPhase::Chunk(true);
                    }
                } else if len == OTA_BUFFER_SIZE || self.total + len >= self.content_length {
                    self.total = self.total + len;
                    self.phase = UploadPhase::Report;
                }
            },
            ReadOutcome::Failed => {
                self.phase = UploadPhase::Over;
            },
        }
    }

    /// The chunk was offered to the flash, which says whether the image is now complete.
    pub fn chunk_written(&mut self, complete: bool)
        requires
            old(self)@.wf(),
            old(self)@.phase is Chunk,
        ensures
            final(self)@ == old(self)@.after_chunk(complete),
            final(self)@.wf(),
    {
        self.buf.clear();
        if let UploadPhase::Chunk(ended) = self.phase {
            if complete {
                self.phase = UploadPhase::Verify(ended);
            } else {
                self.settle(ended);
            }
        }
    }

    /// The image was checked.
    pub fn verified(&mut self, accepted: bool)
        requires
            old(self)@.wf(),
            old(self)@.phase is Verify,
        ensures
            final(self)@ == old(self)@.after_verify(accepted),
            final(self)@.wf(),
    {
        if let UploadPhase::Verify(ended) = self.phase {
            if accepted {
                self.phase = UploadPhase::Announce(ended);
            } else {
                self.settle(ended);
            }
        }
    }

    /// The success was announced, or could not be.
    pub fn announced(&mut self, sent: bool)
        requires
            old(self)@.wf(),
            old(self)@.phase is Announce,
        ensures
            final(self)@ == old(self)@.after_announce(sent),
            final(self)@.wf(),
    {
        if let UploadPhase::Announce(ended) = self.phase {
            self.phase = if ended && !sent {
                UploadPhase::Failed
            } else {
                UploadPhase::Restart
            };
        }
    }

    fn settle(&mut self, ended: bool)
        ensures
            final(self)@ == old(self)@.settled(ended),
    {
        self.phase = if ended || self.total >= self.content_length {
            UploadPhase::Over
        } else {
            UploadPhase::Receiving
        };
    }
}

/// How an accepted image is announced.
pub enum Announcement {
    /// A line within the answer that is under way.
    Line(&'static str),
    /// A response of its own.
    Response(Response<'static>),
}

/// The line that announces an accepted image.
pub open spec fn done_text() -> Seq<char> {
    "DONE:OTA Update Successful. Restarting...\n"@
}

/// The response that announces an accepted image.
pub open spec fn restarting_page() -> ResponseModel {
    http::page("200 OK"@, "text/plain"@, "OTA Update Successful. Restarting..."@)
}

/// The line that announces an accepted image while the body is still coming.
pub fn done_line() -> (r: &'static str)
    ensures
        r@ == done_text(),
{
    "DONE:OTA Update Successful. Restarting...\n"
}

/// The response that announces an accepted image once the stream has ended.
pub fn restarting_response() -> (r: Response<'static>)
    ensures
        r@ == restarting_page(),
{
    Response {
        status: "200 OK",
        content_type: "text/plain",
        body: "OTA Update Successful. Restarting...".as_bytes(),
    }
}

/// The response that closes an upload after which there is no restart.
pub open spec fn uploaded_page() -> ResponseModel {
    http::page("200 OK"@, "text/html"@, "Uploaded"@)
}

/// The response that closes an upload after which there is no restart.
pub fn uploaded_response() -> (r: Response<'static>)
    ensures
        r@ == uploaded_page(),
{
    Response { status: "200 OK", content_type: "text/html", body: "Uploaded".as_bytes() }
}

/// Something that happens to an upload.
pub enum UploadEvent {
    Opened(bool),
    Begun(bool),
    Read(ReadModel),
    Reported,
    ChunkWritten(bool),
    Verified(bool),
    Announced(bool),
}

impl UploadModel {
    /// Whether `event` is the outcome of what is to be done next.
    pub open spec fn allows(self, event: UploadEvent) -> bool {
        match event {
            UploadEvent::Opened(_) => self.phase is Opening,
            UploadEvent::Begun(_) => self.phase is Beginning,
            UploadEvent::Read(outcome) => {
                &&& self.phase is Receiving
                &&& outcome matches ReadModel::Data(bytes) ==> self.buf.len() + bytes.len()
                    <= OTA_BUFFER_SIZE
            },
            UploadEvent::Reported => self.phase is Report,
            UploadEvent::ChunkWritten(_) => self.phase is Chunk,
            UploadEvent::Verified(_) => self.phase is Verify,
            UploadEvent::Announced(_) => self.phase is Announce,
        }
    }

    /// After an event.
    pub open spec fn step(self, event: UploadEvent) -> UploadModel {
        match event {
            UploadEvent::Opened(opened) => self.after_open(opened),
            UploadEvent::Begun(begun) => self.after_begin(begun),
            UploadEvent::Read(outcome) => self.after_read(outcome),
            UploadEvent::Reported => self.after_report(),
            UploadEvent::ChunkWritten(complete) => self.after_chunk(complete),
            UploadEvent::Verified(accepted) => self.after_verify(accepted),
            UploadEvent::Announced(sent) => self.after_announce(sent),
        }
    }

    /// After a history of events.
    pub open spec fn run(self, events: Seq<UploadEvent>) -> UploadModel
        decreases events.len(),
    {
        if events.len() == 0 {
            self
        } else {
            self.run(events.drop_last()).step(events.last())
        }
    }

    /// Whether each event of a history is the outcome of what was to be done when it happened.
    pub open spec fn allows_all(self, events: Seq<UploadEvent>) -> bool
        decreases events.len(),
    {
        events.len() == 0 || {
            &&& self.allows_all(events.drop_last())
            &&& self.run(events.drop_last()).allows(events.last())
        }
    }

    /// The bytes that a history of events hands to the flash.
    pub open spec fn flashed(self, events: Seq<UploadEvent>) -> Seq<u8>
        decreases events.len(),
    {
        if events.len() == 0 {
            Seq::empty()
        } else {
            let before = self.flashed(events.drop_last());
            match events.last() {
                UploadEvent::ChunkWritten(_) => before + self.run(events.drop_last()).buf,
                _ => before,
            }
        }
    }

    /// The totals in the progress lines of a history of events.
    pub open spec fn totals(self, events: Seq<UploadEvent>) -> Seq<int>
        decreases events.len(),
    {
        if events.len() == 0 {
            Seq::empty()
        } else {
            let before = self.totals(events.drop_last());
            match events.last() {
                UploadEvent::Reported => before.push(self.run(events.drop_last()).total),
                _ => before,
            }
        }
    }

    /// How many chunks a history of events hands to the flash while the stream goes on.
    pub open spec fn chunks(self, events: Seq<UploadEvent>) -> int
        decreases events.len(),
    {
        if events.len() == 0 {
            0
        } else {
            let before = self.chunks(events.drop_last());
            if events.last() is ChunkWritten && self.run(events.drop_last()).phase
                == UploadPhase::Chunk(false) {
                before + 1
            } else {
                before
            }
        }
    }

    /// How many of the gathered bytes `total` counts already.
    pub open spec fn counted(self) -> int {
        if self.phase is Chunk || self.phase is Report {
            self.buf.len() as int
        } else {
            0
        }
    }
}

/// The bytes that a history of events reads.
pub open spec fn received(events: Seq<UploadEvent>) -> Seq<u8>
    decreases events.len(),
{
    if events.len() == 0 {
        Seq::empty()
    } else {
        let before = received(events.drop_last());
        match events.last() {
            UploadEvent::Read(ReadModel::Data(bytes)) => before + bytes,
            _ => before,
        }
    }
}

/// No byte of an image is lost, repeated or moved: what went to the flash and what is still
/// gathered is, in order, what came with the request and what was read since. And the progress
/// counts the bytes that went to the flash, with those of a chunk that is about to.
pub proof fn upload_keeps_every_byte(
    body: Seq<u8>,
    announced: Option<UpdateRequest>,
    events: Seq<UploadEvent>,
)
    requires
        UploadModel::start(body, announced).allows_all(events),
    ensures
        ({
            let start = UploadModel::start(body, announced);
            let now = start.run(events);
            &&& start.flashed(events) + now.buf == body + received(events)
            &&& now.total == start.flashed(events).len() + now.counted()
            &&& now.size == start.size
            &&& now.crc == start.crc
            &&& now.content_length == start.content_length
        }),
    decreases events.len(),
{
    let start = UploadModel::start(body, announced);
    if events.len() == 0 {
        assert(start.flashed(events) + start.buf =~= body + received(events));
    } else {
        let earlier = events.drop_last();
        upload_keeps_every_byte(body, announced, earlier);
        let before = start.run(earlier);
        let now = start.run(events);
        match events.last() {
            UploadEvent::Read(ReadModel::Data(bytes)) => {
                assert(before.buf + bytes =~= now.buf);
                assert(start.flashed(events) + now.buf =~= (start.flashed(earlier) + before.buf)
                    + bytes);
                assert(body + received(events) =~= (body + received(earlier)) + bytes);
            },
            UploadEvent::ChunkWritten(_) => {
                assert(start.flashed(events) + now.buf =~= start.flashed(earlier) + before.buf);
            },
            _ => {},
        }
    }
}

/// The gathered bytes always fit the buffer, and a chunk that is handed to the flash while the
/// stream goes on and more was announced is a full buffer.
pub proof fn chunks_are_full(m: UploadModel, event: UploadEvent)
    requires
        m.wf(),
        m.allows(event),
        event matches UploadEvent::Read(ReadModel::Data(bytes)) ==> m.total + m.buf.len()
            + bytes.len() <= usize::MAX,
    ensures
        m.step(event).wf(),
        m.step(event).buf.len() <= OTA_BUFFER_SIZE,
        m.step(event).phase matches UploadPhase::Chunk(ended) ==> {
            &&& 0 < m.step(event).buf.len()
            &&& !ended && m.step(event).total < m.content_length ==> m.step(event).buf.len()
                == OTA_BUFFER_SIZE
        },
{
}

/// Each chunk that follows a read with something in it is reported right before it is handed to
/// the flash, and the total in that line counts all that went to the flash, with this chunk. What
/// is handed over at the end of the stream is not reported.
pub proof fn progress_precedes_the_chunk(
    body: Seq<u8>,
    announced: Option<UpdateRequest>,
    events: Seq<UploadEvent>,
)
    requires
        UploadModel::start(body, announced).allows_all(events),
        events.len() > 0,
        events.last() is ChunkWritten,
    ensures
        ({
            let start = UploadModel::start(body, announced);
            let n = events.len() as int;
            match start.run(events.drop_last()).phase {
                UploadPhase::Chunk(ended) => if ended {
                    &&& n >= 2
                    &&& events[n - 2] matches UploadEvent::Read(ReadModel::Data(bytes))
                        && bytes.len() == 0
                } else {
                    &&& n >= 3
                    &&& events[n - 2] is Reported
                    &&& events[n - 3] matches UploadEvent::Read(ReadModel::Data(bytes))
                        && bytes.len() > 0
                    &&& start.totals(events).len() > 0
                    &&& start.totals(events).last() == start.flashed(events).len()
                },
                _ => false,
            }
        }),
{
    reveal_with_fuel(UploadModel::run, 4);
    reveal_with_fuel(UploadModel::allows_all, 4);
    reveal_with_fuel(UploadModel::totals, 3);
    let start = UploadModel::start(body, announced);
    let e1 = events.drop_last();
    upload_keeps_every_byte(body, announced, e1);
    assert(start.run(e1).phase is Chunk);
    assert(e1.len() > 0);
    if start.run(e1).phase == UploadPhase::Chunk(false) {
        assert(e1.last() is Reported);
        let e2 = e1.drop_last();
        assert(start.run(e2).phase is Report);
        assert(e2.len() > 0);
    }
}

/// There is exactly one progress line for each chunk that is handed to the flash while the stream
/// goes on, and the totals in the lines grow strictly.
pub proof fn one_line_for_each_chunk(
    body: Seq<u8>,
    announced: Option<UpdateRequest>,
    events: Seq<UploadEvent>,
)
    requires
        UploadModel::start(body, announced).allows_all(events),
    ensures
        ({
            let start = UploadModel::start(body, announced);
            let now = start.run(events);
            let totals = start.totals(events);
            &&& totals.len() == start.chunks(events) + if now.phase == UploadPhase::Chunk(false) {
                1int
            } else {
                0
            }
            &&& forall|i: int, j: int| 0 <= i < j < totals.len() ==> totals[i] < totals[j]
            &&& forall|i: int|
                0 <= i < totals.len() ==> #[trigger] totals[i] <= now.total && (now.phase is Report
                    ==> totals[i] < now.total)
        }),
    decreases events.len(),
{
    if events.len() > 0 {
        one_line_for_each_chunk(body, announced, events.drop_last());
    }
}

/// The board restarts only after the flash completed the image and the check accepted it: the two
/// steps before a restart are the completed chunk and the accepted check.
pub proof fn restart_needs_an_accepted_image(
    body: Seq<u8>,
    announced: Option<UpdateRequest>,
    events: Seq<UploadEvent>,
)
    requires
        UploadModel::start(body, announced).allows_all(events),
        UploadModel::start(body, announced).run(events).phase is Restart,
    ensures
        ({
            let n = events.len() as int;
            &&& n >= 3
            &&& events[n - 3] == UploadEvent::ChunkWritten(true)
            &&& events[n - 2] == UploadEvent::Verified(true)
            &&& events[n - 1] is Announced
        }),
{
    reveal_with_fuel(UploadModel::run, 4);
    reveal_with_fuel(UploadModel::allows_all, 4);
    let start = UploadModel::start(body, announced);
    let e1 = events.drop_last();
    assert(events.len() > 0);
    assert(start.run(e1).phase is Announce);
    let e2 = e1.drop_last();
    assert(e1.len() > 0);
    assert(start.run(e2).phase is Verify);
    assert(e2.len() > 0);
}

/// Nothing is read, and nothing handed to the flash, before the flash was opened and prepared; and
/// nothing happens to an upload any more once it is closed or the board restarts.
pub proof fn uploads_begin_and_end(
    body: Seq<u8>,
    announced: Option<UpdateRequest>,
    events: Seq<UploadEvent>,
    event: UploadEvent,
)
    requires
        UploadModel::start(body, announced).allows_all(events),
    ensures
        ({
            let now = UploadModel::start(body, announced).run(events);
            &&& now.allows(event) && !(event is Opened) && !(event is Begun) ==> {
                &&& announced is Some
                &&& events.len() >= 2
                &&& events[0] == UploadEvent::Opened(true)
                &&& events[1] == UploadEvent::Begun(true)
            }
            &&& now.phase is Over || now.phase is Failed || now.phase is Restart ==> !now.allows(
                event,
            )
        }),
{
    begins_with_the_flash(body, announced, events);
}

/// Where an upload can be, by how its history begins.
proof fn begins_with_the_flash(
    body: Seq<u8>,
    announced: Option<UpdateRequest>,
    events: Seq<UploadEvent>,
)
    requires
        UploadModel::start(body, announced).allows_all(events),
    ensures
        ({
            let now = UploadModel::start(body, announced).run(events);
            ||| now.phase is Failed
            ||| announced is Some && events.len() == 0 && now.phase is Opening
            ||| announced is Some && events.len() == 1 && now.phase is Beginning && events[0]
                == UploadEvent::Opened(true)
            ||| {
                &&& announced is Some
                &&& events.len() >= 2
                &&& events[0] == UploadEvent::Opened(true)
                &&& events[1] == UploadEvent::Begun(true)
                &&& now.phase !is Opening
                &&& now.phase !is Beginning
            }
        }),
    decreases events.len(),
{
    if events.len() > 0 {
        let earlier = events.drop_last();
        begins_with_the_flash(body, announced, earlier);
        assert(earlier.len() > 0 ==> earlier[0] == events[0]);
        assert(earlier.len() > 1 ==> earlier[1] == events[1]);
    }
}

/// Whether the head of a response with a body of `body_len` bytes is complete.
pub open spec fn has_complete_head(r: ResponseModel, body_len: nat) -> bool {
    header::head(r.status, r.content_type, body_len) == header::joined(
        header::head_pieces(r.status, r.content_type, body_len),
    )
}

/// The heads of the responses to an update are complete.
pub proof fn update_responses_have_complete_heads(body_len: usize)
    ensures
        has_complete_head(uploaded_page(), body_len as nat),
        has_complete_head(restarting_page(), body_len as nat),
        has_complete_head(http::update_failed_page(), body_len as nat),
{
    reveal_strlit("200 OK");
    reveal_strlit("500 Internal Server Error");
    reveal_strlit("text/html");
    reveal_strlit("text/plain");
    header::short_head_is_complete("200 OK"@, "text/html"@, body_len);
    header::short_head_is_complete("200 OK"@, "text/plain"@, body_len);
    header::short_head_is_complete("500 Internal Server Error"@, "text/plain"@, body_len);
}

/// An upload begins with what the request brings and announces, whatever the numbers are: with
/// opening the flash, then with preparing it, then with receiving. It fails when the request does
/// not announce all it should, and when the flash cannot be opened or prepared.
pub proof fn uploads_begin_with_the_flash(body: Seq<u8>, u: UpdateRequest)
    ensures
        ({
            let m = UploadModel::start(body, Some(u));
            &&& m.phase is Opening
            &&& m.buf == body
            &&& m.total == 0
            &&& m.size == u.size
            &&& m.crc == u.crc
            &&& m.content_length == u.content_length
            &&& m.after_open(false).phase is Failed
            &&& m.after_open(true) == (UploadModel { phase: UploadPhase::Beginning, ..m })
            &&& m.after_open(true).after_begin(false).phase is Failed
            &&& m.after_open(true).after_begin(true) == (UploadModel {
                phase: UploadPhase::Receiving,
                ..m
            })
        }),
        UploadModel::start(body, None).phase is Failed,
{
}

/// What is read is gathered until the buffer is full or all that was announced has come; then it is
/// reported and handed to the flash. At the end of the stream what is left is handed to the flash
/// without a report, and where nothing is left, or the read failed, the upload is over. The total
/// counts what is handed to the flash.
pub proof fn chunks_are_gathered(m: UploadModel, bytes: Seq<u8>)
    requires
        m.phase is Receiving,
    ensures
        ({
            let after = m.after_read(ReadModel::Data(bytes));
            let all = m.buf + bytes;
            &&& after.buf == all
            &&& after.size == m.size && after.crc == m.crc && after.content_length
                == m.content_length
            &&& bytes.len() > 0 && all.len() != 4096 && m.total + all.len() < m.content_length ==> {
                &&& after.phase is Receiving
                &&& after.total == m.total
            }
            &&& bytes.len() > 0 && (all.len() == 4096 || m.total + all.len() >= m.content_length)
                ==> {
                &&& after.phase is Report
                &&& after.total == m.total + all.len()
                &&& after.after_report() == (UploadModel {
                    phase: UploadPhase::Chunk(false),
                    ..after
                })
            }
            &&& bytes.len() == 0 && m.buf.len() > 0 ==> {
                &&& after.phase == UploadPhase::Chunk(true)
                &&& after.total == m.total + m.buf.len()
            }
            &&& bytes.len() == 0 && m.buf.len() == 0 ==> after.phase is Over && after.total
                == m.total
        }),
        m.after_read(ReadModel::Failed).phase is Over,
{
    if bytes.len() == 0 {
        assert(m.buf + bytes =~= m.buf);
    }
}

/// An image that the flash calls complete is checked, one that the check accepts is announced, and
/// an announced one is restarted into, whatever its size and however much was announced; only at
/// the end of the stream is an announcement that cannot be sent a failure. Otherwise receiving
/// goes on until all that was announced has come or the stream has ended.
pub proof fn complete_images_are_restarted_into(
    m: UploadModel,
    ended: bool,
    complete: bool,
    accepted: bool,
    sent: bool,
)
    ensures
        m.phase == UploadPhase::Chunk(ended) ==> {
            let after = m.after_chunk(complete);
            &&& after.buf == Seq::<u8>::empty()
            &&& after.total == m.total && after.size == m.size && after.crc == m.crc
                && after.content_length == m.content_length
            &&& complete ==> after.phase == UploadPhase::Verify(ended)
            &&& !complete && !ended && m.total < m.content_length ==> after.phase is Receiving
            &&& !complete && (ended || m.total >= m.content_length) ==> after.phase is Over
        },
        m.phase == UploadPhase::Verify(ended) ==> {
            let after = m.after_verify(accepted);
            &&& after == (UploadModel { phase: after.phase, ..m })
            &&& accepted ==> after.phase == UploadPhase::Announce(ended)
            &&& !accepted && !ended && m.total < m.content_length ==> after.phase is Receiving
            &&& !accepted && (ended || m.total >= m.content_length) ==> after.phase is Over
        },
        m.phase == UploadPhase::Announce(ended) ==> {
            let after = m.after_announce(sent);
            &&& after == (UploadModel { phase: after.phase, ..m })
            &&& sent || !ended ==> after.phase is Restart
            &&& !sent && ended ==> after.phase is Failed
        },
{
}

/// A history that ends with a completed image, an accepted check and a sent announcement ends in a
/// restart, whatever came before.
pub proof fn accepted_images_restart_the_board(
    body: Seq<u8>,
    announced: Option<UpdateRequest>,
    earlier: Seq<UploadEvent>,
)
    requires
        UploadModel::start(body, announced).allows_all(
            earlier.push(UploadEvent::ChunkWritten(true)).push(UploadEvent::Verified(true)).push(
                UploadEvent::Announced(true),
            ),
        ),
    ensures
        UploadModel::start(body, announced).run(
            earlier.push(UploadEvent::ChunkWritten(true)).push(UploadEvent::Verified(true)).push(
                UploadEvent::Announced(true),
            ),
        ).phase is Restart,
{
    let e1 = earlier.push(UploadEvent::ChunkWritten(true));
    let e2 = e1.push(UploadEvent::Verified(true));
    let e3 = e2.push(UploadEvent::Announced(true));
    let start = UploadModel::start(body, announced);
    reveal_with_fuel(UploadModel::run, 4);
    reveal_with_fuel(UploadModel::allows_all, 4);
    assert(e3.drop_last() =~= e2);
    assert(e2.drop_last() =~= e1);
    assert(e1.drop_last() =~= earlier);
    assert(start.allows_all(e2));
    assert(start.run(e1).phase is Verify);
    assert(start.run(e2).phase is Announce);
}

/// A completed and accepted image is never passed over: from the completed chunk on, an accepting
/// check and a sent announcement are what is allowed, and they lead to the restart.
pub proof fn complete_images_can_restart(
    body: Seq<u8>,
    announced: Option<UpdateRequest>,
    earlier: Seq<UploadEvent>,
)
    requires
        UploadModel::start(body, announced).allows_all(earlier),
        UploadModel::start(body, announced).run(earlier).phase is Chunk,
    ensures
        ({
            let all = earlier.push(UploadEvent::ChunkWritten(true)).push(
                UploadEvent::Verified(true),
            ).push(UploadEvent::Announced(true));
            &&& UploadModel::start(body, announced).allows_all(all)
            &&& UploadModel::start(body, announced).run(all).phase is Restart
        }),
{
    let e1 = earlier.push(UploadEvent::ChunkWritten(true));
    let e2 = e1.push(UploadEvent::Verified(true));
    let e3 = e2.push(UploadEvent::Announced(true));
    let start = UploadModel::start(body, announced);
    reveal_with_fuel(UploadModel::run, 4);
    reveal_with_fuel(UploadModel::allows_all, 4);
    assert(e3.drop_last() =~= e2);
    assert(e2.drop_last() =~= e1);
    assert(e1.drop_last() =~= earlier);
    assert(start.allows_all(e1));
    assert(start.run(e1).phase is Verify);
    assert(start.allows_all(e2));
    assert(start.run(e2).phase is Announce);
}

/// A progress line tells the total and the announced length: they are the numbers behind the colon
/// and behind the comma, whatever they are.
pub proof fn progress_reads_back(total: usize, content_length: usize)
    ensures
        exists|a: Seq<char>, b: Seq<char>|
            {
                &&& progress_line(total as nat, content_length as nat) == "PROGRESS:"@ + a + ","@ + b
                    + "\n"@
                &&& #[trigger] text::number(a, usize::MAX as nat) == Some(total as nat)
                &&& #[trigger] text::number(b, usize::MAX as nat) == Some(content_length as nat)
            },
        progress_line(total as nat, content_length as nat) == "PROGRESS:"@ + text::decimal(
            total as nat,
        ) + ","@ + text::decimal(content_length as nat) + "\n"@,
{
    text::decimal_reads_back(total as nat, usize::MAX as nat);
    text::decimal_reads_back(content_length as nat, usize::MAX as nat);
}

/// The three responses to an update and the line that announces its success, in words.
pub proof fn update_responses_in_words()
    ensures
        uploaded_page().status == "200 OK"@,
        uploaded_page().content_type == "text/html"@,
        uploaded_page().body == vstd::utf8::encode_utf8("Uploaded"@),
        restarting_page().status == "200 OK"@,
        restarting_page().content_type == "text/plain"@,
        restarting_page().body == vstd::utf8::encode_utf8("OTA Update Successful. Restarting..."@),
        http::update_failed_page().status == "500 Internal Server Error"@,
        http::update_failed_page().content_type == "text/plain"@,
        http::update_failed_page().body == vstd::utf8::encode_utf8("Update handler failed"@),
        done_text() == "DONE:OTA Update Successful. Restarting...\n"@,
{
}

} // verus!
