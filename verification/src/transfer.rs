//! The browser's upload of one file as a state machine: the upload is
//! started on the server, then the file is read and sent chunk after chunk,
//! a failed chunk is retried with a growing wait, and when every retry
//! failed the upload is cancelled. The caller performs each request, hands
//! back its outcome, and shows the notes the machine emits.

use vstd::prelude::*;
use crate::client::{
    chunk_end, chunk_failed_message, chunk_failure, has_substring, pow2, retry_delay_ms,
    retry_status, ChunkFailure, CHUNK_SIZE,
};
use crate::size_format::decimal;
use crate::upload::{chunk_plan, ChunkPlan};
use crate::text::copy;

verus! {

/// What the machine waits for.
#[derive(Clone, Copy, Debug, PartialEq, Eq, Structural)]
pub enum TransferStage {
    /// The server's answer to the start of the upload.
    Initializing,
    /// The bytes of the current chunk.
    Reading,
    /// The server's answer to the current chunk.
    Sending,
    /// The end of the wait before a retry.
    Waiting,
    /// The end of the cancellation.
    Cancelling,
    /// Nothing: the upload of the file is over.
    Stopped,
}

/// The outcome of the last request.
#[derive(Debug, PartialEq, Eq)]
pub enum TransferEvent {
    /// The server started the upload.
    InitOk,
    /// The server refused to start the upload, with this message.
    InitFailed(String),
    /// The chunk's bytes were read.
    ChunkRead,
    /// The chunk's bytes could not be read, with this message.
    ReadFailed(String),
    /// The server took the chunk.
    ChunkSent,
    /// Sending the chunk failed with this error.
    ChunkFailed(String),
    /// The wait is over.
    Waited,
    /// The upload was cancelled on the server.
    Cancelled,
}

/// What the caller must do next.
#[derive(Clone, Copy, Debug, PartialEq, Eq, Structural)]
pub enum TransferRequest {
    /// Start the upload on the server.
    InitUpload,
    /// Read the bytes of the file from the first offset to the second.
    ReadChunk(u64, u64),
    /// Send the bytes last read.
    SendChunk,
    /// Wait this many milliseconds.
    Wait(u64),
    /// Cancel the upload on the server.
    Cancel,
    /// Nothing more: go on with the next file.
    Stop,
}

/// What the caller shows of the upload.
#[derive(Debug, PartialEq, Eq)]
pub enum TransferNote {
    /// The bytes sent, a status and its colour, with no transfer rate.
    Progress(u64, String, Option<String>),
    /// A chunk was sent: the bytes sent and the status, with the rate the
    /// caller measures since the last chunk.
    Uploaded(u64, String),
    /// The server started the upload.
    Initialized,
    /// The file is uploaded.
    Completed,
    /// The upload failed with this message.
    Failed(String),
}

/// A note with its text as character sequences.
pub enum NoteView {
    Progress(u64, Seq<char>, Option<Seq<char>>),
    Uploaded(u64, Seq<char>),
    Initialized,
    Completed,
    Failed(Seq<char>),
}

impl View for TransferNote {
    type V = NoteView;

    open spec fn view(&self) -> NoteView {
        match self {
            TransferNote::Progress(n, s, c) => NoteView::Progress(
                *n,
                s@,
                match c {
                    Some(c) => Some(c@),
                    None => None,
                },
            ),
            TransferNote::Uploaded(n, s) => NoteView::Uploaded(*n, s@),
            TransferNote::Initialized => NoteView::Initialized,
            TransferNote::Completed => NoteView::Completed,
            TransferNote::Failed(m) => NoteView::Failed(m@),
        }
    }
}

/// The notes of a list, as views.
pub open spec fn note_views(v: Seq<TransferNote>) -> Seq<NoteView> {
    v.map_values(|n: TransferNote| n@)
}

/// The upload of one file.
pub struct FileTransfer {
    pub size: u64,
    pub max_retries: usize,
    /// The bytes the server has taken.
    pub position: u64,
    /// Where the current chunk ends.
    pub end: u64,
    /// The retries made of the current chunk.
    pub attempt: usize,
    /// The error of the last failed attempt, once every retry failed.
    pub last_error: String,
    pub stage: TransferStage,
}

pub struct TransferView {
    pub size: u64,
    pub max_retries: usize,
    pub position: u64,
    pub end: u64,
    pub attempt: usize,
    pub last_error: Seq<char>,
    pub stage: TransferStage,
}

impl View for FileTransfer {
    type V = TransferView;

    open spec fn view(&self) -> TransferView {
        TransferView {
            size: self.size,
            max_retries: self.max_retries,
            position: self.position,
            end: self.end,
            attempt: self.attempt,
            last_error: self.last_error@,
            stage: self.stage,
        }
    }
}

/// Where the chunk that starts at `position` ends: a mebibyte further, or
/// at the end of the file.
pub open spec fn chunk_end_of(position: u64, size: u64) -> u64 {
    if position + CHUNK_SIZE < size {
        (position + CHUNK_SIZE) as u64
    } else {
        size
    }
}

/// What follows the failure of attempt number `attempt` of a chunk.
pub open spec fn failure_kind(attempt: usize, max_retries: usize, err: Seq<char>) -> ChunkFailure {
    if attempt > 0 && has_substring(err, "404"@) {
        ChunkFailure::AssumeComplete
    } else if attempt < max_retries {
        ChunkFailure::Retry
    } else {
        ChunkFailure::GiveUp
    }
}

/// The wait before retry number `attempt`, in milliseconds.
pub open spec fn retry_wait(attempt: nat) -> u64 {
    if 1000 * pow2((attempt - 1) as nat) < 30000 {
        (1000 * pow2((attempt - 1) as nat)) as u64
    } else {
        30000
    }
}

/// The status of a chunk being retried.
pub open spec fn retry_text(attempt: nat, max: nat) -> Seq<char> {
    "Retrying attempt "@ + decimal(attempt) + "/"@ + decimal(max) + "..."@
}

pub open spec fn warning_color() -> Seq<char> {
    "var(--warning-color)"@
}

/// The first state of the upload of a file of `size` bytes.
pub open spec fn transfer_start(size: u64, max_retries: usize) -> TransferView {
    TransferView {
        size,
        max_retries,
        position: 0,
        end: 0,
        attempt: 0,
        last_error: Seq::<char>::empty(),
        stage: TransferStage::Initializing,
    }
}

/// The notes shown when the upload of a file begins.
pub open spec fn start_notes() -> Seq<NoteView> {
    seq![NoteView::Progress(0, "initializing..."@, None)]
}

/// What a state waits for.
pub open spec fn transfer_request(v: TransferView) -> TransferRequest {
    match v.stage {
        TransferStage::Initializing => TransferRequest::InitUpload,
        TransferStage::Reading => TransferRequest::ReadChunk(v.position, v.end),
        TransferStage::Sending => TransferRequest::SendChunk,
        TransferStage::Waiting => TransferRequest::Wait(retry_wait(v.attempt as nat)),
        TransferStage::Cancelling => TransferRequest::Cancel,
        TransferStage::Stopped => TransferRequest::Stop,
    }
}

pub open spec fn moved(v: TransferView, stage: TransferStage) -> TransferView {
    TransferView { stage, ..v }
}

pub open spec fn quiet(v: TransferView) -> (TransferView, Seq<NoteView>) {
    (v, Seq::<NoteView>::empty())
}

/// The state after the outcome `e`, and the notes to show; an outcome of
/// another kind than the request changes nothing and shows nothing.
pub open spec fn transfer_next(v: TransferView, e: TransferEvent) -> (TransferView, Seq<NoteView>) {
    match v.stage {
        TransferStage::Initializing => match e {
            TransferEvent::InitFailed(m) => (
                moved(v, TransferStage::Stopped),
                seq![NoteView::Failed(m@)],
            ),
            TransferEvent::InitOk => if v.size == 0 {
                (
                    moved(v, TransferStage::Stopped),
                    seq![
                        NoteView::Initialized,
                        NoteView::Progress(0, "complete"@, None),
                        NoteView::Completed,
                    ],
                )
            } else {
                (
                    TransferView {
                        end: chunk_end_of(v.position, v.size),
                        stage: TransferStage::Reading,
                        ..v
                    },
                    seq![NoteView::Initialized],
                )
            },
            _ => quiet(v),
        },
        TransferStage::Reading => match e {
            TransferEvent::ChunkRead => quiet(
                TransferView { attempt: 0, stage: TransferStage::Sending, ..v },
            ),
            TransferEvent::ReadFailed(m) => (
                moved(v, TransferStage::Stopped),
                seq![NoteView::Failed(m@)],
            ),
            _ => quiet(v),
        },
        TransferStage::Sending => match e {
            TransferEvent::ChunkSent => if v.end < v.size {
                (
                    TransferView {
                        position: v.end,
                        end: chunk_end_of(v.end, v.size),
                        stage: TransferStage::Reading,
                        ..v
                    },
                    seq![NoteView::Uploaded(v.end, "uploading..."@)],
                )
            } else {
                (
                    TransferView { position: v.end, stage: TransferStage::Stopped, ..v },
                    seq![NoteView::Uploaded(v.end, "uploading..."@), NoteView::Completed],
                )
            },
            TransferEvent::ChunkFailed(err) => match failure_kind(v.attempt, v.max_retries, err@) {
                ChunkFailure::AssumeComplete => (
                    TransferView { position: v.size, stage: TransferStage::Stopped, ..v },
                    seq![NoteView::Progress(v.size, "complete"@, None), NoteView::Completed],
                ),
                ChunkFailure::Retry => (
                    TransferView {
                        attempt: (v.attempt + 1) as usize,
                        stage: TransferStage::Waiting,
                        ..v
                    },
                    seq![
                        NoteView::Progress(
                            v.position,
                            retry_text((v.attempt + 1) as nat, v.max_retries as nat),
                            Some(warning_color()),
                        ),
                    ],
                ),
                ChunkFailure::GiveUp => quiet(
                    TransferView { last_error: err@, stage: TransferStage::Cancelling, ..v },
                ),
            },
            _ => quiet(v),
        },
        TransferStage::Waiting => match e {
            TransferEvent::Waited => quiet(moved(v, TransferStage::Sending)),
            _ => quiet(v),
        },
        TransferStage::Cancelling => match e {
            TransferEvent::Cancelled => (
                moved(v, TransferStage::Stopped),
                seq![NoteView::Failed("Chunk upload failed: "@ + v.last_error)],
            ),
            _ => quiet(v),
        },
        TransferStage::Stopped => quiet(v),
    }
}

/// Whether the outcome would start a retry whose wait cannot be computed
/// in 64 bits (retry number 56 or later).
pub open spec fn retry_overflows(v: TransferView, e: TransferEvent) -> bool {
    &&& v.stage is Sending
    &&& e matches TransferEvent::ChunkFailed(err)
        && failure_kind(v.attempt, v.max_retries, err@) is Retry
    &&& v.attempt + 1 > 55
}

/// What holds of every state the machine reaches: the bytes taken never
/// pass the size, the retries never pass their maximum, and while a chunk
/// is read, sent or waited on it is the next one of the file.
pub open spec fn transfer_inv(v: TransferView) -> bool {
    &&& v.position <= v.size
    &&& v.attempt <= v.max_retries
    &&& v.stage is Initializing ==> v.position == 0
    &&& (v.stage is Reading || v.stage is Sending || v.stage is Waiting) ==> {
        &&& v.position < v.size
        &&& v.end == chunk_end_of(v.position, v.size)
    }
    &&& v.stage is Waiting ==> 1 <= v.attempt <= 55
}

/// Every outcome keeps what holds of the states the machine reaches.
pub proof fn lemma_transfer_keeps_inv(v: TransferView, e: TransferEvent)
    requires
        transfer_inv(v),
        !retry_overflows(v, e),
    ensures
        transfer_inv(transfer_next(v, e).0),
{
}

/// The file is read in order: each chunk starts where the bytes taken end,
/// holds at least one byte and at most a mebibyte, and ends within the file.
pub proof fn lemma_chunks_in_order(v: TransferView)
    requires
        transfer_inv(v),
    ensures
        transfer_request(v) matches TransferRequest::ReadChunk(a, b) ==> {
            &&& a == v.position
            &&& a < b <= v.size
            &&& b - a <= CHUNK_SIZE
        },
{
}

/// Once the server took a chunk, the bytes taken reach its end, and the
/// next chunk read starts there.
pub proof fn lemma_next_chunk_follows(v: TransferView)
    requires
        transfer_inv(v),
        v.stage is Sending,
    ensures
        transfer_next(v, TransferEvent::ChunkSent).0.position == v.end,
        transfer_request(transfer_next(v, TransferEvent::ChunkSent).0) matches
            TransferRequest::ReadChunk(a, _) ==> a == v.end,
{
}

/// The upload of a file is reported complete only when the server has all
/// of its bytes, or answered a retry with `404`.
pub proof fn lemma_completed_means_all_taken(v: TransferView, e: TransferEvent)
    requires
        transfer_inv(v),
        transfer_next(v, e).1.contains(NoteView::Completed),
    ensures
        transfer_next(v, e).0.position == v.size,
        transfer_next(v, e).0.stage is Stopped,
{
    let (w, notes) = transfer_next(v, e);
    if v.stage is Sending {
        if e is ChunkSent && v.end < v.size {
            assert(notes =~= seq![NoteView::Uploaded(v.end, "uploading..."@)]);
            assert(notes[0] != NoteView::Completed);
        }
        if let TransferEvent::ChunkFailed(err) = e {
            if failure_kind(v.attempt, v.max_retries, err@) is Retry {
                assert(notes.len() == 1);
                assert(notes[0] != NoteView::Completed);
            }
        }
    }
    if v.stage is Initializing && e is InitOk && v.size != 0 {
        assert(notes.len() == 1 && notes[0] == NoteView::Initialized);
    }
    if v.stage is Reading && e is ReadFailed {
        assert(notes.len() == 1 && notes[0] is Failed);
    }
    if v.stage is Initializing && e is InitFailed {
        assert(notes.len() == 1 && notes[0] is Failed);
    }
    if v.stage is Cancelling && e is Cancelled {
        assert(notes.len() == 1 && notes[0] is Failed);
    }
}

/// A chunk is given up only after every retry of it failed.
pub proof fn lemma_give_up_after_every_retry(v: TransferView, e: TransferEvent)
    requires
        transfer_inv(v),
        v.stage is Sending,
        transfer_next(v, e).0.stage is Cancelling,
    ensures
        v.attempt == v.max_retries,
        e is ChunkFailed,
{
}

/// The chunks the browser sends are taken whole by the server: when the
/// server holds exactly the bytes before a chunk, it appends all of the
/// chunk and then holds exactly the bytes up to the chunk's end, so both
/// sides count the same bytes after every chunk.
pub proof fn lemma_chunks_taken_whole(position: u64, size: u64)
    requires
        position < size,
    ensures
        chunk_plan(position, size, (chunk_end_of(position, size) - position) as u64)
            == (ChunkPlan::Write {
            write_len: (chunk_end_of(position, size) - position) as u64,
            received_after: chunk_end_of(position, size),
        }),
{
}

impl FileTransfer {
    /// Begins the upload of a file of `size` bytes whose chunks are retried
    /// up to `max_retries` times: the file shows `initializing...` and the
    /// upload is started on the server.
    pub fn new(size: u64, max_retries: usize) -> (r: (FileTransfer, Vec<TransferNote>, TransferRequest))
        ensures
            r.0@ == transfer_start(size, max_retries),
            transfer_inv(r.0@),
            note_views(r.1@) == start_notes(),
            r.2 == transfer_request(r.0@),
    {
        let t = FileTransfer {
            size,
            max_retries,
            position: 0,
            end: 0,
            attempt: 0,
            last_error: String::new(),
            stage: TransferStage::Initializing,
        };
        let notes = vec![TransferNote::Progress(0, copy("initializing..."), None)];
        assert(note_views(notes@) =~= start_notes());
        (t, notes, TransferRequest::InitUpload)
    }

    /// The request the machine waits for.
    pub fn pending(&self) -> (r: TransferRequest)
        requires
            transfer_inv(self@),
        ensures
            r == transfer_request(self@),
    {
        match self.stage {
            TransferStage::Initializing => TransferRequest::InitUpload,
            TransferStage::Reading => TransferRequest::ReadChunk(self.position, self.end),
            TransferStage::Sending => TransferRequest::SendChunk,
            TransferStage::Waiting => TransferRequest::Wait(retry_delay_ms(self.attempt as u32)),
            TransferStage::Cancelling => TransferRequest::Cancel,
            TransferStage::Stopped => TransferRequest::Stop,
        }
    }

    /// Whether the outcome would start a retry whose wait cannot be
    /// computed in 64 bits.
    pub fn retry_overflows(&self, e: &TransferEvent) -> (r: bool)
        ensures
            r == retry_overflows(self@, *e),
    {
        match (self.stage, e) {
            (TransferStage::Sending, TransferEvent::ChunkFailed(err)) => {
                let kind = chunk_failure(self.attempt, self.max_retries, err.as_str());
                match kind {
                    ChunkFailure::Retry => self.attempt >= 55,
                    _ => false,
                }
            },
            _ => false,
        }
    }

    /// Takes the outcome of the pending request, moves on as
    /// `transfer_next` says, and returns the notes to show and the next
    /// request.
    pub fn step(&mut self, e: TransferEvent) -> (r: (Vec<TransferNote>, TransferRequest))
        requires
            transfer_inv(old(self)@),
            !retry_overflows(old(self)@, e),
        ensures
            (final(self)@, note_views(r.0@)) == transfer_next(old(self)@, e),
            transfer_inv(final(self)@),
            r.1 == transfer_request(final(self)@),
    {
        let ghost v = self@;
        let ghost ev = e;
        proof {
            lemma_transfer_keeps_inv(v, ev);
        }
        let mut notes: Vec<TransferNote> = Vec::new();
        match self.stage {
            TransferStage::Initializing => match e {
                TransferEvent::InitFailed(m) => {
                    notes.push(TransferNote::Failed(m));
                    self.stage = TransferStage::Stopped;
                },
                TransferEvent::InitOk => {
                    notes.push(TransferNote::Initialized);
                    if self.size == 0 {
                        notes.push(TransferNote::Progress(0, copy("complete"), None));
                        notes.push(TransferNote::Completed);
                        self.stage = TransferStage::Stopped;
                    } else {
                        self.end = chunk_end(self.position, self.size);
                        self.stage = TransferStage::Reading;
                    }
                },
                _ => {},
            },
            TransferStage::Reading => match e {
                TransferEvent::ChunkRead => {
                    self.attempt = 0;
                    self.stage = TransferStage::Sending;
                },
                TransferEvent::ReadFailed(m) => {
                    notes.push(TransferNote::Failed(m));
                    self.stage = TransferStage::Stopped;
                },
                _ => {},
            },
            TransferStage::Sending => match e {
                TransferEvent::ChunkSent => {
                    self.position = self.end;
                    notes.push(TransferNote::Uploaded(self.end, copy("uploading...")));
                    if self.end < self.size {
                        self.end = chunk_end(self.position, self.size);
                        self.stage = TransferStage::Reading;
                    } else {
                        notes.push(TransferNote::Completed);
                        self.stage = TransferStage::Stopped;
                    }
                },
                TransferEvent::ChunkFailed(err) => {
                    let kind = chunk_failure(self.attempt, self.max_retries, err.as_str());
                    match kind {
                        ChunkFailure::AssumeComplete => {
                            self.position = self.size;
                            notes.push(TransferNote::Progress(self.size, copy("complete"), None));
                            notes.push(TransferNote::Completed);
                            self.stage = TransferStage::Stopped;
                        },
                        ChunkFailure::Retry => {
                            self.attempt = self.attempt + 1;
                            notes.push(
                                TransferNote::Progress(
                                    self.position,
                                    retry_status(self.attempt, self.max_retries),
                                    Some(copy("var(--warning-color)")),
                                ),
                            );
                            self.stage = TransferStage::Waiting;
                        },
                        ChunkFailure::GiveUp => {
                            self.last_error = err;
                            self.stage = TransferStage::Cancelling;
                        },
                    }
                },
                _ => {},
            },
            TransferStage::Waiting => match e {
                TransferEvent::Waited => {
                    self.stage = TransferStage::Sending;
                },
                _ => {},
            },
            TransferStage::Cancelling => match e {
                TransferEvent::Cancelled => {
                    notes.push(TransferNote::Failed(chunk_failed_message(self.last_error.as_str())));
                    self.stage = TransferStage::Stopped;
                },
                _ => {},
            },
            TransferStage::Stopped => {},
        }
        assert(self@ == transfer_next(v, ev).0);
        assert(note_views(notes@) =~= transfer_next(v, ev).1);
        let req = self.pending();
        (notes, req)
    }
}

} // verus!
