//! Receiving one chunk of an upload as a state machine. Each step takes the
//! answer to the last request (the upload's metadata record, whether a path
//! exists, how appending or moving a file went) and says what to do next,
//! until the machine replies with the bytes received so far.

use vstd::prelude::*;
use crate::sanitize::{is_valid_batch_id, valid_batch_id};
use crate::text::copy;
use crate::upload::{chunk_plan, plan_chunk, ChunkPlan, MetadataView, UploadMetadata};

verus! {

/// How appending the chunk to the partial file went.
#[derive(Clone, Copy, Debug, PartialEq, Eq, Structural)]
pub enum AppendOutcome {
    Appended,
    /// The partial file could not be opened.
    OpenFailed,
    /// The bytes could not be written.
    WriteFailed,
}

/// How moving the partial file to its final name went.
#[derive(Clone, Copy, Debug, PartialEq, Eq, Structural)]
pub enum MoveOutcome {
    Moved,
    /// The partial file was not there.
    Missing,
    /// Any other failure.
    Failed,
}

/// Why a chunk was refused.
#[derive(Clone, Copy, Debug, PartialEq, Eq, Structural)]
pub enum ChunkError {
    EmptyChunk,
    SessionNotFound,
    OpenFailed,
    WriteFailed,
}

pub open spec fn chunk_error_status(e: ChunkError) -> u16 {
    match e {
        ChunkError::EmptyChunk => 400,
        ChunkError::SessionNotFound => 404,
        ChunkError::OpenFailed | ChunkError::WriteFailed => 500,
    }
}

pub open spec fn chunk_error_message(e: ChunkError) -> Seq<char> {
    match e {
        ChunkError::EmptyChunk => "Empty chunk received"@,
        ChunkError::SessionNotFound => "Upload session not found or already completed"@,
        ChunkError::OpenFailed => "Failed to open partial file"@,
        ChunkError::WriteFailed => "Failed to write chunk"@,
    }
}

/// How a chunk is answered.
#[derive(Debug, PartialEq, Eq)]
pub enum ChunkReply {
    /// Refused with an HTTP status and a message.
    Refused(u16, String),
    /// Taken: the bytes the upload now has, and its size.
    Progress(u64, u64),
}

pub enum ChunkReplyView {
    Refused(u16, Seq<char>),
    Progress(u64, u64),
}

impl View for ChunkReply {
    type V = ChunkReplyView;

    open spec fn view(&self) -> ChunkReplyView {
        match self {
            ChunkReply::Refused(s, m) => ChunkReplyView::Refused(*s, m@),
            ChunkReply::Progress(r, n) => ChunkReplyView::Progress(*r, *n),
        }
    }
}

/// What the caller must do next.
#[derive(Debug, PartialEq, Eq)]
pub enum ChunkRequest {
    /// Read the metadata record of the upload.
    ReadMetadata(String),
    /// Mark the batch as active now.
    TouchBatch(String),
    /// Tell whether the path exists.
    CheckExists(String),
    /// Move the first path to the second.
    Move(String, String),
    /// Delete the metadata record of the upload.
    DeleteMetadata(String),
    /// Append the first bytes of the chunk, this many, to the file.
    Append(String, u64),
    /// Store the metadata record.
    SaveMetadata(UploadMetadata),
    /// Send the notification of a completed upload of this name and size.
    Notify(String, u64),
    /// Answer the request.
    Respond(ChunkReply),
}

pub enum ChunkRequestView {
    ReadMetadata(Seq<char>),
    TouchBatch(Seq<char>),
    CheckExists(Seq<char>),
    Move(Seq<char>, Seq<char>),
    DeleteMetadata(Seq<char>),
    Append(Seq<char>, u64),
    SaveMetadata(MetadataView),
    Notify(Seq<char>, u64),
    Respond(ChunkReplyView),
}

impl View for ChunkRequest {
    type V = ChunkRequestView;

    open spec fn view(&self) -> ChunkRequestView {
        match self {
            ChunkRequest::ReadMetadata(id) => ChunkRequestView::ReadMetadata(id@),
            ChunkRequest::TouchBatch(b) => ChunkRequestView::TouchBatch(b@),
            ChunkRequest::CheckExists(p) => ChunkRequestView::CheckExists(p@),
            ChunkRequest::Move(a, b) => ChunkRequestView::Move(a@, b@),
            ChunkRequest::DeleteMetadata(id) => ChunkRequestView::DeleteMetadata(id@),
            ChunkRequest::Append(p, n) => ChunkRequestView::Append(p@, *n),
            ChunkRequest::SaveMetadata(m) => ChunkRequestView::SaveMetadata(m@),
            ChunkRequest::Notify(n, s) => ChunkRequestView::Notify(n@, *s),
            ChunkRequest::Respond(r) => ChunkRequestView::Respond(r@),
        }
    }
}

/// The answer to the last request.
#[derive(Debug, PartialEq, Eq)]
pub enum ChunkEvent {
    /// The metadata record, if the upload has one.
    Metadata(Option<UploadMetadata>),
    /// The request was carried out.
    Finished,
    /// Whether the path exists.
    Exists(bool),
    /// How appending went.
    Appended(AppendOutcome),
    /// How moving went.
    Moved(MoveOutcome),
}

/// What the machine waits for.
#[derive(Clone, Copy, Debug, PartialEq, Eq, Structural)]
pub enum ChunkStage {
    ReadingMetadata,
    TouchingBatch,
    /// (The upload already had all its bytes.) Whether the final file exists.
    FinalExists,
    /// Whether the partial file exists.
    PartialExists,
    /// The partial file was moved to its final name, or failed to.
    Finalizing,
    /// The metadata record of a completed upload was deleted.
    Forgetting,
    /// How appending went.
    Appending,
    /// The metadata record was stored.
    Saving,
    /// How moving the completed file went.
    Completing,
    /// The record of the completed file was deleted; then the
    /// notification is sent (`true`) or not (`false`).
    Cleaning(bool),
    /// The notification was sent.
    Notifying,
    /// Nothing: the chunk was refused.
    Refused(ChunkError),
    /// Nothing: the upload's bytes are reported.
    Reported,
}

/// The receipt of one chunk.
pub struct ChunkFlow {
    pub upload_id: String,
    pub chunk_len: u64,
    /// The upload's record once read (empty before), its received count
    /// updated once the chunk is appended.
    pub meta: UploadMetadata,
    pub stage: ChunkStage,
}

pub struct ChunkFlowView {
    pub upload_id: Seq<char>,
    pub chunk_len: u64,
    pub meta: MetadataView,
    pub stage: ChunkStage,
}

impl View for ChunkFlow {
    type V = ChunkFlowView;

    open spec fn view(&self) -> ChunkFlowView {
        ChunkFlowView {
            upload_id: self.upload_id@,
            chunk_len: self.chunk_len,
            meta: self.meta@,
            stage: self.stage,
        }
    }
}

/// The record held before the upload's own is read.
pub open spec fn empty_meta() -> MetadataView {
    MetadataView {
        upload_id: Seq::<char>::empty(),
        original_filename: Seq::<char>::empty(),
        file_path: Seq::<char>::empty(),
        partial_file_path: Seq::<char>::empty(),
        file_size: 0,
        bytes_received: 0,
        batch_id: Seq::<char>::empty(),
        created_at: 0,
        last_activity: 0,
    }
}

/// The receipt of a chunk of `chunk_len` bytes for the upload `upload_id`:
/// an empty chunk is refused at once.
pub open spec fn chunk_start(upload_id: Seq<char>, chunk_len: u64) -> ChunkFlowView {
    ChunkFlowView {
        upload_id,
        chunk_len,
        meta: empty_meta(),
        stage: if chunk_len == 0 {
            ChunkStage::Refused(ChunkError::EmptyChunk)
        } else {
            ChunkStage::ReadingMetadata
        },
    }
}

/// Whether the batch of a record is marked active when a chunk arrives.
pub open spec fn touches_batch(m: MetadataView) -> bool {
    m.batch_id.len() > 0 && valid_batch_id(m.batch_id)
}

/// Where the receipt goes once the record is read and its batch marked:
/// an upload that has all its bytes is finalised again, else the chunk is
/// appended.
pub open spec fn after_touch(m: MetadataView) -> ChunkStage {
    if m.bytes_received >= m.file_size {
        ChunkStage::FinalExists
    } else {
        ChunkStage::Appending
    }
}

/// How many bytes of the chunk are appended.
pub open spec fn write_len_of(m: MetadataView, chunk_len: u64) -> u64 {
    match chunk_plan(m.bytes_received, m.file_size, chunk_len) {
        ChunkPlan::Write { write_len, .. } => write_len,
        ChunkPlan::AlreadyComplete => 0,
    }
}

/// The bytes the upload has once the chunk is appended.
pub open spec fn received_after_of(m: MetadataView, chunk_len: u64) -> u64 {
    match chunk_plan(m.bytes_received, m.file_size, chunk_len) {
        ChunkPlan::Write { received_after, .. } => received_after,
        ChunkPlan::AlreadyComplete => m.bytes_received,
    }
}

pub open spec fn min_u64(a: u64, b: u64) -> u64 {
    if a <= b {
        a
    } else {
        b
    }
}

/// What the receipt waits for.
pub open spec fn chunk_requested(v: ChunkFlowView) -> ChunkRequestView {
    let m = v.meta;
    match v.stage {
        ChunkStage::ReadingMetadata => ChunkRequestView::ReadMetadata(v.upload_id),
        ChunkStage::TouchingBatch => ChunkRequestView::TouchBatch(m.batch_id),
        ChunkStage::FinalExists => ChunkRequestView::CheckExists(m.file_path),
        ChunkStage::PartialExists => ChunkRequestView::CheckExists(m.partial_file_path),
        ChunkStage::Finalizing => ChunkRequestView::Move(m.partial_file_path, m.file_path),
        ChunkStage::Forgetting => ChunkRequestView::DeleteMetadata(v.upload_id),
        ChunkStage::Appending => ChunkRequestView::Append(
            m.partial_file_path,
            write_len_of(m, v.chunk_len),
        ),
        ChunkStage::Saving => ChunkRequestView::SaveMetadata(m),
        ChunkStage::Completing => ChunkRequestView::Move(m.partial_file_path, m.file_path),
        ChunkStage::Cleaning(_) => ChunkRequestView::DeleteMetadata(v.upload_id),
        ChunkStage::Notifying => ChunkRequestView::Notify(m.original_filename, m.file_size),
        ChunkStage::Refused(e) => ChunkRequestView::Respond(
            ChunkReplyView::Refused(chunk_error_status(e), chunk_error_message(e)),
        ),
        ChunkStage::Reported => ChunkRequestView::Respond(
            ChunkReplyView::Progress(min_u64(m.bytes_received, m.file_size), m.file_size),
        ),
    }
}

pub open spec fn chunk_at(v: ChunkFlowView, stage: ChunkStage) -> ChunkFlowView {
    ChunkFlowView { stage, ..v }
}

/// The receipt after the answer `e`; an answer of another kind than the
/// request changes nothing, and so does any answer once it has replied.
pub open spec fn chunk_next(v: ChunkFlowView, e: ChunkEvent) -> ChunkFlowView {
    let m = v.meta;
    match v.stage {
        ChunkStage::ReadingMetadata => match e {
            ChunkEvent::Metadata(None) => chunk_at(v, ChunkStage::Refused(ChunkError::SessionNotFound)),
            ChunkEvent::Metadata(Some(r)) => ChunkFlowView {
                meta: r@,
                stage: if touches_batch(r@) {
                    ChunkStage::TouchingBatch
                } else {
                    after_touch(r@)
                },
                ..v
            },
            _ => v,
        },
        ChunkStage::TouchingBatch => match e {
            ChunkEvent::Finished => chunk_at(v, after_touch(m)),
            _ => v,
        },
        ChunkStage::FinalExists => match e {
            ChunkEvent::Exists(ex) => chunk_at(
                v,
                if ex {
                    ChunkStage::Forgetting
                } else {
                    ChunkStage::PartialExists
                },
            ),
            _ => v,
        },
        ChunkStage::PartialExists => match e {
            ChunkEvent::Exists(ex) => chunk_at(
                v,
                if ex {
                    ChunkStage::Finalizing
                } else {
                    ChunkStage::Forgetting
                },
            ),
            _ => v,
        },
        ChunkStage::Finalizing => match e {
            ChunkEvent::Moved(_) => chunk_at(v, ChunkStage::Forgetting),
            _ => v,
        },
        ChunkStage::Forgetting => match e {
            ChunkEvent::Finished => chunk_at(v, ChunkStage::Reported),
            _ => v,
        },
        ChunkStage::Appending => match e {
            ChunkEvent::Appended(o) => match o {
                AppendOutcome::Appended => ChunkFlowView {
                    meta: MetadataView { bytes_received: received_after_of(m, v.chunk_len), ..m },
                    stage: ChunkStage::Saving,
                    ..v
                },
                AppendOutcome::OpenFailed => chunk_at(v, ChunkStage::Refused(ChunkError::OpenFailed)),
                AppendOutcome::WriteFailed => chunk_at(v, ChunkStage::Refused(ChunkError::WriteFailed)),
            },
            _ => v,
        },
        ChunkStage::Saving => match e {
            ChunkEvent::Finished => chunk_at(
                v,
                if m.bytes_received >= m.file_size {
                    ChunkStage::Completing
                } else {
                    ChunkStage::Reported
                },
            ),
            _ => v,
        },
        ChunkStage::Completing => match e {
            ChunkEvent::Moved(o) => chunk_at(
                v,
                match o {
                    MoveOutcome::Moved => ChunkStage::Cleaning(true),
                    MoveOutcome::Missing => ChunkStage::Cleaning(false),
                    MoveOutcome::Failed => ChunkStage::Reported,
                },
            ),
            _ => v,
        },
        ChunkStage::Cleaning(notify) => match e {
            ChunkEvent::Finished => chunk_at(
                v,
                if notify {
                    ChunkStage::Notifying
                } else {
                    ChunkStage::Reported
                },
            ),
            _ => v,
        },
        ChunkStage::Notifying => match e {
            ChunkEvent::Finished => chunk_at(v, ChunkStage::Reported),
            _ => v,
        },
        ChunkStage::Refused(_) | ChunkStage::Reported => v,
    }
}

/// Whether adding the chunk's length to the bytes received would pass the
/// 64-bit range (only asked of an upload that still misses bytes).
pub open spec fn chunk_overflows(m: MetadataView, chunk_len: u64) -> bool {
    m.bytes_received < m.file_size && m.bytes_received + chunk_len > u64::MAX
}

/// Whether the answer leads to appending a chunk whose end cannot be
/// computed in 64 bits.
pub open spec fn chunk_undefined(v: ChunkFlowView, e: ChunkEvent) -> bool {
    ||| v.stage is ReadingMetadata && (e matches ChunkEvent::Metadata(Some(r)) && !touches_batch(r@)
        && chunk_overflows(r@, v.chunk_len))
    ||| v.stage is TouchingBatch && e is Finished && chunk_overflows(v.meta, v.chunk_len)
}

/// What holds of every receipt: a chunk is asked for only when it has
/// bytes, is appended only to an upload that misses bytes and only as far
/// as its size, and once the bytes are counted they never pass the size.
pub open spec fn chunk_inv(v: ChunkFlowView) -> bool {
    let m = v.meta;
    &&& (v.stage is ReadingMetadata || v.stage is TouchingBatch || v.stage is Appending) ==> v.chunk_len
        > 0
    &&& v.stage is Appending ==> {
        &&& m.bytes_received < m.file_size
        &&& m.bytes_received + v.chunk_len <= u64::MAX
    }
    &&& (v.stage is FinalExists || v.stage is PartialExists || v.stage is Finalizing
        || v.stage is Forgetting) ==> m.bytes_received >= m.file_size
    &&& v.stage is Saving ==> m.bytes_received <= m.file_size
    &&& (v.stage is Completing || v.stage is Cleaning || v.stage is Notifying) ==> m.bytes_received
        == m.file_size
}

/// Every answer keeps what holds of a receipt.
pub proof fn lemma_chunk_keeps_inv(v: ChunkFlowView, e: ChunkEvent)
    requires
        chunk_inv(v),
        !chunk_undefined(v, e),
    ensures
        chunk_inv(chunk_next(v, e)),
{
}

/// A chunk is appended only to an upload that misses bytes, at least one
/// byte of it and no more than the chunk has or the upload misses.
pub proof fn lemma_append_within_size(v: ChunkFlowView)
    requires
        chunk_inv(v),
    ensures
        chunk_requested(v) matches ChunkRequestView::Append(p, n) ==> {
            &&& p == v.meta.partial_file_path
            &&& 0 < n <= v.chunk_len
            &&& v.meta.bytes_received + n <= v.meta.file_size
        },
{
}

/// The record stored after a chunk never counts more bytes than the size,
/// and the reply never reports more.
pub proof fn lemma_counts_never_pass_size(v: ChunkFlowView)
    requires
        chunk_inv(v),
    ensures
        chunk_requested(v) matches ChunkRequestView::SaveMetadata(m) ==> m.bytes_received
            <= m.file_size,
        chunk_requested(v) matches ChunkRequestView::Respond(ChunkReplyView::Progress(r, n)) ==> r
            <= n,
{
}

/// The partial file is moved to its final name, and the record deleted,
/// only once the upload has all its bytes.
pub proof fn lemma_finalised_only_when_complete(v: ChunkFlowView)
    requires
        chunk_inv(v),
    ensures
        chunk_requested(v) matches ChunkRequestView::Move(a, b) ==> {
            &&& a == v.meta.partial_file_path
            &&& b == v.meta.file_path
            &&& v.meta.bytes_received >= v.meta.file_size
        },
        chunk_requested(v) is DeleteMetadata ==> v.meta.bytes_received >= v.meta.file_size,
{
}

/// A chunk that completes the upload has the partial file moved once its
/// count was stored.
pub proof fn lemma_completing_chunk_is_moved(v: ChunkFlowView)
    requires
        chunk_inv(v),
        v.stage is Saving,
        v.meta.bytes_received == v.meta.file_size,
    ensures
        chunk_requested(chunk_next(v, ChunkEvent::Finished)) == ChunkRequestView::Move(
            v.meta.partial_file_path,
            v.meta.file_path,
        ),
{
}

impl ChunkFlow {
    /// Starts the receipt of a chunk of `chunk_len` bytes for the upload
    /// `upload_id`.
    pub fn new(upload_id: &str, chunk_len: u64) -> (r: (ChunkFlow, ChunkRequest))
        ensures
            r.0@ == chunk_start(upload_id@, chunk_len),
            chunk_inv(r.0@),
            r.1@ == chunk_requested(r.0@),
    {
        let flow = ChunkFlow {
            upload_id: upload_id.to_string(),
            chunk_len,
            meta: UploadMetadata {
                upload_id: String::new(),
                original_filename: String::new(),
                file_path: String::new(),
                partial_file_path: String::new(),
                file_size: 0,
                bytes_received: 0,
                batch_id: String::new(),
                created_at: 0,
                last_activity: 0,
            },
            stage: if chunk_len == 0 {
                ChunkStage::Refused(ChunkError::EmptyChunk)
            } else {
                ChunkStage::ReadingMetadata
            },
        };
        assert(flow@ =~= chunk_start(upload_id@, chunk_len));
        let req = flow.pending();
        (flow, req)
    }

    /// The request the receipt waits for.
    pub fn pending(&self) -> (r: ChunkRequest)
        requires
            chunk_inv(self@),
        ensures
            r@ == chunk_requested(self@),
    {
        let m = &self.meta;
        match self.stage {
            ChunkStage::ReadingMetadata => ChunkRequest::ReadMetadata(self.upload_id.clone()),
            ChunkStage::TouchingBatch => ChunkRequest::TouchBatch(m.batch_id.clone()),
            ChunkStage::FinalExists => ChunkRequest::CheckExists(m.file_path.clone()),
            ChunkStage::PartialExists => ChunkRequest::CheckExists(m.partial_file_path.clone()),
            ChunkStage::Finalizing => ChunkRequest::Move(
                m.partial_file_path.clone(),
                m.file_path.clone(),
            ),
            ChunkStage::Forgetting => ChunkRequest::DeleteMetadata(self.upload_id.clone()),
            ChunkStage::Appending => {
                let n = match plan_chunk(m.bytes_received, m.file_size, self.chunk_len) {
                    ChunkPlan::Write { write_len, .. } => write_len,
                    ChunkPlan::AlreadyComplete => 0,
                };
                ChunkRequest::Append(m.partial_file_path.clone(), n)
            },
            ChunkStage::Saving => ChunkRequest::SaveMetadata(copy_meta(m)),
            ChunkStage::Completing => ChunkRequest::Move(
                m.partial_file_path.clone(),
                m.file_path.clone(),
            ),
            ChunkStage::Cleaning(_) => ChunkRequest::DeleteMetadata(self.upload_id.clone()),
            ChunkStage::Notifying => ChunkRequest::Notify(m.original_filename.clone(), m.file_size),
            ChunkStage::Refused(e) => {
                let text = match e {
                    ChunkError::EmptyChunk => "Empty chunk received",
                    ChunkError::SessionNotFound => "Upload session not found or already completed",
                    ChunkError::OpenFailed => "Failed to open partial file",
                    ChunkError::WriteFailed => "Failed to write chunk",
                };
                let status: u16 = match e {
                    ChunkError::EmptyChunk => 400,
                    ChunkError::SessionNotFound => 404,
                    ChunkError::OpenFailed | ChunkError::WriteFailed => 500,
                };
                ChunkRequest::Respond(ChunkReply::Refused(status, copy(text)))
            },
            ChunkStage::Reported => {
                let r = if m.bytes_received <= m.file_size {
                    m.bytes_received
                } else {
                    m.file_size
                };
                ChunkRequest::Respond(ChunkReply::Progress(r, m.file_size))
            },
        }
    }

    /// Whether the answer leads to appending a chunk whose end cannot be
    /// computed in 64 bits.
    pub fn undefined_on(&self, e: &ChunkEvent) -> (r: bool)
        ensures
            r == chunk_undefined(self@, *e),
    {
        let ghost ev = *e;
        match (self.stage, e) {
            (ChunkStage::ReadingMetadata, ChunkEvent::Metadata(Some(m))) => {
                let touch = !m.batch_id.as_str().is_empty() && is_valid_batch_id(m.batch_id.as_str());
                !touch && overflows(m.bytes_received, m.file_size, self.chunk_len)
            },
            (ChunkStage::TouchingBatch, ChunkEvent::Finished) => overflows(
                self.meta.bytes_received,
                self.meta.file_size,
                self.chunk_len,
            ),
            _ => false,
        }
    }

    /// Takes the answer to the pending request, moves on as `chunk_next`
    /// says, and returns the next request.
    pub fn step(&mut self, e: ChunkEvent) -> (r: ChunkRequest)
        requires
            chunk_inv(old(self)@),
            !chunk_undefined(old(self)@, e),
        ensures
            final(self)@ == chunk_next(old(self)@, e),
            chunk_inv(final(self)@),
            r@ == chunk_requested(final(self)@),
    {
        let ghost v = self@;
        let ghost ev = e;
        proof {
            lemma_chunk_keeps_inv(v, ev);
        }
        match self.stage {
            ChunkStage::ReadingMetadata => match e {
                ChunkEvent::Metadata(None) => {
                    self.stage = ChunkStage::Refused(ChunkError::SessionNotFound);
                },
                ChunkEvent::Metadata(Some(m)) => {
                    let touch = !m.batch_id.as_str().is_empty() && is_valid_batch_id(
                        m.batch_id.as_str(),
                    );
                    let complete = m.bytes_received >= m.file_size;
                    self.meta = m;
                    if touch {
                        self.stage = ChunkStage::TouchingBatch;
                    } else if complete {
                        self.stage = ChunkStage::FinalExists;
                    } else {
                        self.stage = ChunkStage::Appending;
                    }
                },
                _ => {},
            },
            ChunkStage::TouchingBatch => match e {
                ChunkEvent::Finished => {
                    if self.meta.bytes_received >= self.meta.file_size {
                        self.stage = ChunkStage::FinalExists;
                    } else {
                        self.stage = ChunkStage::Appending;
                    }
                },
                _ => {},
            },
            ChunkStage::FinalExists => match e {
                ChunkEvent::Exists(ex) => {
                    self.stage = if ex {
                        ChunkStage::Forgetting
                    } else {
                        ChunkStage::PartialExists
                    };
                },
                _ => {},
            },
            ChunkStage::PartialExists => match e {
                ChunkEvent::Exists(ex) => {
                    self.stage = if ex {
                        ChunkStage::Finalizing
                    } else {
                        ChunkStage::Forgetting
                    };
                },
                _ => {},
            },
            ChunkStage::Finalizing => match e {
                ChunkEvent::Moved(_) => {
                    self.stage = ChunkStage::Forgetting;
                },
                _ => {},
            },
            ChunkStage::Forgetting => match e {
                ChunkEvent::Finished => {
                    self.stage = ChunkStage::Reported;
                },
                _ => {},
            },
            ChunkStage::Appending => match e {
                ChunkEvent::Appended(o) => match o {
                    AppendOutcome::Appended => {
                        let after = match plan_chunk(
                            self.meta.bytes_received,
                            self.meta.file_size,
                            self.chunk_len,
                        ) {
                            ChunkPlan::Write { received_after, .. } => received_after,
                            ChunkPlan::AlreadyComplete => self.meta.bytes_received,
                        };
                        self.meta.bytes_received = after;
                        self.stage = ChunkStage::Saving;
                    },
                    AppendOutcome::OpenFailed => {
                        self.stage = ChunkStage::Refused(ChunkError::OpenFailed);
                    },
                    AppendOutcome::WriteFailed => {
                        self.stage = ChunkStage::Refused(ChunkError::WriteFailed);
                    },
                },
                _ => {},
            },
            ChunkStage::Saving => match e {
                ChunkEvent::Finished => {
                    self.stage = if self.meta.bytes_received >= self.meta.file_size {
                        ChunkStage::Completing
                    } else {
                        ChunkStage::Reported
                    };
                },
                _ => {},
            },
            ChunkStage::Completing => match e {
                ChunkEvent::Moved(o) => {
                    self.stage = match o {
                        MoveOutcome::Moved => ChunkStage::Cleaning(true),
                        MoveOutcome::Missing => ChunkStage::Cleaning(false),
                        MoveOutcome::Failed => ChunkStage::Reported,
                    };
                },
                _ => {},
            },
            ChunkStage::Cleaning(notify) => match e {
                ChunkEvent::Finished => {
                    self.stage = if notify {
                        ChunkStage::Notifying
                    } else {
                        ChunkStage::Reported
                    };
                },
                _ => {},
            },
            ChunkStage::Notifying => match e {
                ChunkEvent::Finished => {
                    self.stage = ChunkStage::Reported;
                },
                _ => {},
            },
            ChunkStage::Refused(_) | ChunkStage::Reported => {},
        }
        assert(self@ == chunk_next(v, ev));
        self.pending()
    }
}

/// Whether `received + len` passes the 64-bit range for an upload that
/// still misses bytes.
fn overflows(received: u64, size: u64, len: u64) -> (r: bool)
    ensures
        r == (received < size && received + len > u64::MAX),
{
    received < size && len > u64::MAX - received
}

/// A copy of a metadata record.
fn copy_meta(m: &UploadMetadata) -> (r: UploadMetadata)
    ensures
        r@ == m@,
{
    UploadMetadata {
        upload_id: m.upload_id.clone(),
        original_filename: m.original_filename.clone(),
        file_path: m.file_path.clone(),
        partial_file_path: m.partial_file_path.clone(),
        file_size: m.file_size,
        bytes_received: m.bytes_received,
        batch_id: m.batch_id.clone(),
        created_at: m.created_at,
        last_activity: m.last_activity,
    }
}

} // verus!
