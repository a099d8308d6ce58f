//! The start of an upload as a state machine. Each step takes the answer
//! to the last request (whether a path lies inside the upload directory,
//! whether it exists, what the batch's folder mapping holds, whether a
//! write succeeded) and says what to do next; the caller performs the
//! request and hands back its answer, until the machine replies.

use vstd::prelude::*;
use crate::paths::{join_paths, parent, parent_chars, path_join, file_name};
use crate::text::{from_chars, to_chars};
use crate::upload::{
    MetadataView, UploadMetadata, upload_path_parts, upload_parts, string_views, folder_mapping_key,
    unique_folder_candidate, folder_candidate, file_name_or, remapped_upload_path, pushed_path,
    unique_file_candidate, file_candidate, partial_path_of, partial_suffix,
};

verus! {

/// How the start of an upload ends.
#[derive(Clone, Copy, Debug, PartialEq, Eq, Structural)]
pub enum InitReply {
    /// The upload may send its chunks.
    Accepted,
    /// A path the upload would use lies outside the upload directory.
    InvalidPath,
    /// The metadata record could not be written.
    MetadataFailed,
    /// The empty file of a zero-byte upload could not be written.
    EmptyFileFailed,
}

/// What the machine waits for.
#[derive(Clone, Copy, Debug, PartialEq, Eq, Structural)]
pub enum InitStage {
    /// Whether the first destination lies inside the upload directory.
    FinalWithin,
    /// The folder mapping of the batch's top folder.
    MappingLookup,
    /// Whether the top folder already exists.
    FolderExists,
    /// Whether the current folder candidate exists.
    FolderCandidate,
    /// The folder the batch uses was created.
    FolderCreated,
    /// The folder mapping was recorded.
    MappingRecorded,
    /// Whether the remapped destination lies inside the upload directory.
    RemappedWithin,
    /// The upload directory was created.
    DirCreated,
    /// Whether the current file candidate exists.
    FileExists,
    /// Whether the free destination lies inside the upload directory.
    UniqueWithin,
    /// The destination's parent directory was created.
    ParentCreated,
    /// Whether the partial file lies inside the upload directory.
    PartialWithin,
    /// Whether the metadata record was written.
    MetadataWritten,
    /// Whether the empty file of a zero-byte upload was written.
    EmptyWritten,
    /// The metadata record was deleted (after the empty file was written,
    /// or after that failed).
    CleanedUp(bool),
    /// The notification was sent.
    Notified,
    /// The machine replied.
    Done(InitReply),
}

/// The answer to the last request.
#[derive(Debug, PartialEq, Eq)]
pub enum InitEvent {
    /// Whether the path lies inside the upload directory.
    Within(bool),
    /// The folder recorded for the mapping key, if any.
    Mapping(Option<String>),
    /// Whether the path exists.
    Exists(bool),
    /// The request was carried out.
    Finished,
    /// Whether the write succeeded.
    Written(bool),
}

/// What the caller must do next.
#[derive(Debug, PartialEq, Eq)]
pub enum InitAction {
    /// Tell whether the path lies inside the upload directory.
    CheckWithin(String),
    /// Look up the folder recorded for a mapping key, keeping the upload
    /// state locked until the mapping is recorded or the key was found.
    LookupMapping(String),
    /// Tell whether the path exists.
    CheckExists(String),
    /// Create the directory and its parents, ignoring failure.
    CreateDir(String),
    /// Record the folder for the mapping key.
    RecordMapping(String, String),
    /// Write the metadata record.
    WriteMetadata(UploadMetadata),
    /// Write an empty file at the path.
    WriteEmptyFile(String),
    /// Delete the metadata record of the upload.
    DeleteMetadata(String),
    /// Send the notification of a completed zero-byte upload.
    Notify,
    /// Answer the request.
    Respond(InitReply),
}

/// An action with its text as character sequences.
pub enum InitRequest {
    CheckWithin(Seq<char>),
    LookupMapping(Seq<char>),
    CheckExists(Seq<char>),
    CreateDir(Seq<char>),
    RecordMapping(Seq<char>, Seq<char>),
    WriteMetadata(MetadataView),
    WriteEmptyFile(Seq<char>),
    DeleteMetadata(Seq<char>),
    Notify,
    Respond(InitReply),
}

impl View for InitAction {
    type V = InitRequest;

    open spec fn view(&self) -> InitRequest {
        match self {
            InitAction::CheckWithin(p) => InitRequest::CheckWithin(p@),
            InitAction::LookupMapping(k) => InitRequest::LookupMapping(k@),
            InitAction::CheckExists(p) => InitRequest::CheckExists(p@),
            InitAction::CreateDir(p) => InitRequest::CreateDir(p@),
            InitAction::RecordMapping(k, f) => InitRequest::RecordMapping(k@, f@),
            InitAction::WriteMetadata(m) => InitRequest::WriteMetadata(m@),
            InitAction::WriteEmptyFile(p) => InitRequest::WriteEmptyFile(p@),
            InitAction::DeleteMetadata(id) => InitRequest::DeleteMetadata(id@),
            InitAction::Notify => InitRequest::Notify,
            InitAction::Respond(r) => InitRequest::Respond(*r),
        }
    }
}

/// The start of one upload: what the request asked for, and how far it
/// has come.
pub struct InitFlow {
    pub upload_dir: String,
    pub safe_name: String,
    pub parts: Vec<String>,
    pub batch_id: String,
    pub upload_id: String,
    pub file_size: u64,
    pub now_ms: u64,
    /// `<top folder>-<batch id>` for a folder upload.
    pub mapping_key: String,
    /// The folder path whose existence is asked.
    pub folder_path: String,
    /// The counter of the next folder candidate.
    pub folder_counter: u64,
    /// The folder the batch uses in place of its top folder.
    pub folder: String,
    /// Where the file goes before a free name is looked for.
    pub destination: String,
    /// The destination candidate whose existence is asked.
    pub candidate: String,
    /// The counter of the next file candidate.
    pub file_counter: u64,
    pub stage: InitStage,
    /// Every path that was answered to lie inside the upload directory.
    pub confirmed: Ghost<Set<Seq<char>>>,
}

/// The state with its text as character sequences.
pub struct InitFlowView {
    pub upload_dir: Seq<char>,
    pub safe_name: Seq<char>,
    pub parts: Seq<Seq<char>>,
    pub batch_id: Seq<char>,
    pub upload_id: Seq<char>,
    pub file_size: u64,
    pub now_ms: u64,
    pub mapping_key: Seq<char>,
    pub folder_path: Seq<char>,
    pub folder_counter: u64,
    pub folder: Seq<char>,
    pub destination: Seq<char>,
    pub candidate: Seq<char>,
    pub file_counter: u64,
    pub stage: InitStage,
    pub confirmed: Set<Seq<char>>,
}

impl View for InitFlow {
    type V = InitFlowView;

    open spec fn view(&self) -> InitFlowView {
        InitFlowView {
            upload_dir: self.upload_dir@,
            safe_name: self.safe_name@,
            parts: string_views(self.parts@),
            batch_id: self.batch_id@,
            upload_id: self.upload_id@,
            file_size: self.file_size,
            now_ms: self.now_ms,
            mapping_key: self.mapping_key@,
            folder_path: self.folder_path@,
            folder_counter: self.folder_counter,
            folder: self.folder@,
            destination: self.destination@,
            candidate: self.candidate@,
            file_counter: self.file_counter,
            stage: self.stage,
            confirmed: self.confirmed@,
        }
    }
}

/// Where the start of an upload begins: the file goes to
/// `<upload dir>/<safe name>`, and a folder upload's top folder is mapped
/// under `<top folder>-<batch id>`.
pub open spec fn start(
    upload_dir: Seq<char>,
    safe_name: Seq<char>,
    batch_id: Seq<char>,
    upload_id: Seq<char>,
    file_size: u64,
    now_ms: u64,
) -> InitFlowView {
    let parts = upload_parts(safe_name);
    InitFlowView {
        upload_dir,
        safe_name,
        parts,
        batch_id,
        upload_id,
        file_size,
        now_ms,
        mapping_key: if parts.len() > 1 {
            parts[0] + seq!['-'] + batch_id
        } else {
            Seq::<char>::empty()
        },
        folder_path: Seq::<char>::empty(),
        folder_counter: 1,
        folder: Seq::<char>::empty(),
        destination: path_join(upload_dir, safe_name),
        candidate: Seq::<char>::empty(),
        file_counter: 1,
        stage: InitStage::FinalWithin,
        confirmed: Set::<Seq<char>>::empty(),
    }
}

/// The metadata record of the upload once its destination is settled.
pub open spec fn metadata_of(v: InitFlowView) -> MetadataView {
    MetadataView {
        upload_id: v.upload_id,
        original_filename: v.safe_name,
        file_path: v.candidate,
        partial_file_path: v.candidate + partial_suffix(),
        file_size: v.file_size,
        bytes_received: 0,
        batch_id: v.batch_id,
        created_at: v.now_ms,
        last_activity: v.now_ms,
    }
}

/// The folder upload's destination with `folder` in place of its top
/// folder.
pub open spec fn remapped(v: InitFlowView, folder: Seq<char>) -> Seq<char> {
    path_join(v.upload_dir, pushed_path(v.parts.update(0, folder)))
}

/// `<upload dir>/<top folder>`.
pub open spec fn top_folder_path(v: InitFlowView) -> Seq<char> {
    path_join(v.upload_dir, v.parts[0])
}

/// The file name of a path, or `fallback` when it has none.
pub open spec fn name_or(path: Seq<char>, fallback: Seq<char>) -> Seq<char> {
    match file_name(path) {
        Some(n) => n,
        None => fallback,
    }
}

/// The next value of a candidate counter (it stays at its largest value).
pub open spec fn bump(c: u64) -> u64 {
    if c < u64::MAX {
        (c + 1) as u64
    } else {
        c
    }
}

/// What a state waits for.
pub open spec fn requested(v: InitFlowView) -> InitRequest {
    match v.stage {
        InitStage::FinalWithin => InitRequest::CheckWithin(v.destination),
        InitStage::MappingLookup => InitRequest::LookupMapping(v.mapping_key),
        InitStage::FolderExists => InitRequest::CheckExists(v.folder_path),
        InitStage::FolderCandidate => InitRequest::CheckExists(v.folder_path),
        InitStage::FolderCreated => InitRequest::CreateDir(path_join(v.upload_dir, v.folder)),
        InitStage::MappingRecorded => InitRequest::RecordMapping(v.mapping_key, v.folder),
        InitStage::RemappedWithin => InitRequest::CheckWithin(v.destination),
        InitStage::DirCreated => InitRequest::CreateDir(v.upload_dir),
        InitStage::FileExists => InitRequest::CheckExists(v.candidate),
        InitStage::UniqueWithin => InitRequest::CheckWithin(v.candidate),
        InitStage::ParentCreated => InitRequest::CreateDir(
            match parent(v.candidate) {
                Some(p) => p,
                None => Seq::<char>::empty(),
            },
        ),
        InitStage::PartialWithin => InitRequest::CheckWithin(v.candidate + partial_suffix()),
        InitStage::MetadataWritten => InitRequest::WriteMetadata(metadata_of(v)),
        InitStage::EmptyWritten => InitRequest::WriteEmptyFile(v.candidate),
        InitStage::CleanedUp(_) => InitRequest::DeleteMetadata(v.upload_id),
        InitStage::Notified => InitRequest::Notify,
        InitStage::Done(r) => InitRequest::Respond(r),
    }
}

/// The state with a new stage.
pub open spec fn at(v: InitFlowView, stage: InitStage) -> InitFlowView {
    InitFlowView { stage, ..v }
}

/// The state after the answer `e`; an answer of another kind than the
/// request changes nothing, and so does any answer once the machine has
/// replied.
pub open spec fn next(v: InitFlowView, e: InitEvent) -> InitFlowView {
    match v.stage {
        InitStage::FinalWithin => match e {
            InitEvent::Within(ok) => if !ok {
                at(v, InitStage::Done(InitReply::InvalidPath))
            } else if v.parts.len() > 1 {
                InitFlowView {
                    stage: InitStage::MappingLookup,
                    confirmed: v.confirmed.insert(v.destination),
                    ..v
                }
            } else {
                InitFlowView {
                    stage: InitStage::DirCreated,
                    confirmed: v.confirmed.insert(v.destination),
                    ..v
                }
            },
            _ => v,
        },
        InitStage::MappingLookup => match e {
            InitEvent::Mapping(Some(f)) => InitFlowView {
                folder: f@,
                destination: remapped(v, f@),
                stage: InitStage::RemappedWithin,
                ..v
            },
            InitEvent::Mapping(None) => InitFlowView {
                folder_path: top_folder_path(v),
                stage: InitStage::FolderExists,
                ..v
            },
            _ => v,
        },
        InitStage::FolderExists => match e {
            InitEvent::Exists(ex) => if ex {
                InitFlowView { folder_counter: 1, stage: InitStage::FolderCandidate, ..v }
            } else {
                InitFlowView { folder: v.parts[0], stage: InitStage::FolderCreated, ..v }
            },
            _ => v,
        },
        InitStage::FolderCandidate => match e {
            InitEvent::Exists(ex) => if ex {
                InitFlowView {
                    folder_path: folder_candidate(top_folder_path(v), v.folder_counter as nat),
                    folder_counter: bump(v.folder_counter),
                    ..v
                }
            } else {
                InitFlowView {
                    folder: name_or(v.folder_path, v.parts[0]),
                    stage: InitStage::FolderCreated,
                    ..v
                }
            },
            _ => v,
        },
        InitStage::FolderCreated => match e {
            InitEvent::Finished => at(v, InitStage::MappingRecorded),
            _ => v,
        },
        InitStage::MappingRecorded => match e {
            InitEvent::Finished => InitFlowView {
                destination: remapped(v, v.folder),
                stage: InitStage::RemappedWithin,
                ..v
            },
            _ => v,
        },
        InitStage::RemappedWithin => match e {
            InitEvent::Within(ok) => if !ok {
                at(v, InitStage::Done(InitReply::InvalidPath))
            } else {
                InitFlowView {
                    candidate: v.destination,
                    file_counter: 1,
                    stage: InitStage::FileExists,
                    confirmed: v.confirmed.insert(v.destination),
                    ..v
                }
            },
            _ => v,
        },
        InitStage::DirCreated => match e {
            InitEvent::Finished => InitFlowView {
                candidate: v.destination,
                file_counter: 1,
                stage: InitStage::FileExists,
                ..v
            },
            _ => v,
        },
        InitStage::FileExists => match e {
            InitEvent::Exists(ex) => if ex {
                InitFlowView {
                    candidate: file_candidate(v.destination, v.upload_dir, v.file_counter as nat),
                    file_counter: bump(v.file_counter),
                    ..v
                }
            } else {
                at(v, InitStage::UniqueWithin)
            },
            _ => v,
        },
        InitStage::UniqueWithin => match e {
            InitEvent::Within(ok) => if !ok {
                at(v, InitStage::Done(InitReply::InvalidPath))
            } else {
                InitFlowView {
                    stage: if parent(v.candidate) is Some {
                        InitStage::ParentCreated
                    } else {
                        InitStage::PartialWithin
                    },
                    confirmed: v.confirmed.insert(v.candidate),
                    ..v
                }
            },
            _ => v,
        },
        InitStage::ParentCreated => match e {
            InitEvent::Finished => at(v, InitStage::PartialWithin),
            _ => v,
        },
        InitStage::PartialWithin => match e {
            InitEvent::Within(ok) => if !ok {
                at(v, InitStage::Done(InitReply::InvalidPath))
            } else {
                InitFlowView {
                    stage: InitStage::MetadataWritten,
                    confirmed: v.confirmed.insert(v.candidate + partial_suffix()),
                    ..v
                }
            },
            _ => v,
        },
        InitStage::MetadataWritten => match e {
            InitEvent::Written(ok) => if !ok {
                at(v, InitStage::Done(InitReply::MetadataFailed))
            } else if v.file_size == 0 {
                at(v, InitStage::EmptyWritten)
            } else {
                at(v, InitStage::Done(InitReply::Accepted))
            },
            _ => v,
        },
        InitStage::EmptyWritten => match e {
            InitEvent::Written(ok) => at(v, InitStage::CleanedUp(ok)),
            _ => v,
        },
        InitStage::CleanedUp(ok) => match e {
            InitEvent::Finished => if ok {
                at(v, InitStage::Notified)
            } else {
                at(v, InitStage::Done(InitReply::EmptyFileFailed))
            },
            _ => v,
        },
        InitStage::Notified => match e {
            InitEvent::Finished => at(v, InitStage::Done(InitReply::Accepted)),
            _ => v,
        },
        InitStage::Done(_) => v,
    }
}

/// What holds of every state the machine reaches: the parts and mapping
/// key are those of the name, the folder stages belong to folder
/// uploads, and from the moment the destination is settled both it and
/// its partial file were answered to lie inside the upload directory.
pub open spec fn inv(v: InitFlowView) -> bool {
    &&& v.parts == upload_parts(v.safe_name)
    &&& v.parts.len() > 1 ==> v.mapping_key == v.parts[0] + seq!['-'] + v.batch_id
    &&& (v.stage is MappingLookup || v.stage is FolderExists || v.stage is FolderCandidate
        || v.stage is FolderCreated || v.stage is MappingRecorded || v.stage is RemappedWithin)
        ==> v.parts.len() > 1
    &&& v.stage is ParentCreated ==> parent(v.candidate) is Some
    &&& (v.stage is ParentCreated || v.stage is PartialWithin) ==> v.confirmed.contains(v.candidate)
    &&& settled(v.stage) ==> {
        &&& v.confirmed.contains(v.candidate)
        &&& v.confirmed.contains(v.candidate + partial_suffix())
    }
}

/// The stages after the partial file was answered to lie inside the
/// upload directory.
pub open spec fn settled(stage: InitStage) -> bool {
    match stage {
        InitStage::MetadataWritten | InitStage::EmptyWritten | InitStage::CleanedUp(_)
        | InitStage::Notified => true,
        InitStage::Done(r) => r == InitReply::Accepted || r == InitReply::EmptyFileFailed,
        _ => false,
    }
}

/// Every answer keeps what holds of the states the machine reaches.
pub proof fn lemma_next_keeps_inv(v: InitFlowView, e: InitEvent)
    requires
        inv(v),
    ensures
        inv(next(v, e)),
{
}

/// Nothing is written for an upload at a path that was not answered to
/// lie inside the upload directory: the metadata record names a
/// destination and a partial file that both were, and so does the empty
/// file of a zero-byte upload.
pub proof fn lemma_writes_only_confirmed_paths(v: InitFlowView)
    requires
        inv(v),
    ensures
        requested(v) matches InitRequest::WriteMetadata(m) ==> {
            &&& v.confirmed.contains(m.file_path)
            &&& v.confirmed.contains(m.partial_file_path)
        },
        requested(v) matches InitRequest::WriteEmptyFile(p) ==> v.confirmed.contains(p),
{
}

/// A path joins the confirmed paths only when the machine asked whether
/// it lies inside the upload directory and the answer was yes.
pub proof fn lemma_confirmed_only_by_checks(v: InitFlowView, e: InitEvent)
    ensures
        next(v, e).confirmed == v.confirmed || {
            &&& requested(v) matches InitRequest::CheckWithin(p)
            &&& e matches InitEvent::Within(ok) && ok
            &&& next(v, e).confirmed == v.confirmed.insert(p)
        },
{
}

/// A path answered to lie outside the upload directory ends the start of
/// the upload with the invalid-path reply.
pub proof fn lemma_refused_check_ends(v: InitFlowView, e: InitEvent)
    requires
        requested(v) is CheckWithin,
        e matches InitEvent::Within(ok) && !ok,
    ensures
        next(v, e).stage == InitStage::Done(InitReply::InvalidPath),
        requested(next(v, e)) == InitRequest::Respond(InitReply::InvalidPath),
{
}

/// Once the machine has replied, no answer changes it.
pub proof fn lemma_reply_is_final(v: InitFlowView, e: InitEvent)
    requires
        v.stage is Done,
    ensures
        next(v, e) == v,
{
}

/// An upload is accepted only once its metadata record was written: right
/// after that write when it has bytes to come, or after its empty file was
/// written, the record deleted and the notification sent when it has none.
pub proof fn lemma_accepted_after_metadata(v: InitFlowView, e: InitEvent)
    requires
        v.stage != InitStage::Done(InitReply::Accepted),
        next(v, e).stage == InitStage::Done(InitReply::Accepted),
    ensures
        (v.stage == InitStage::MetadataWritten && (e matches InitEvent::Written(ok) && ok)
            && v.file_size > 0) || (v.stage == InitStage::Notified && e is Finished),
{
}

impl InitFlow {
    /// Starts an upload of `safe_name` (already sanitised) of `file_size`
    /// bytes into `upload_dir`, for the batch `batch_id`, under the id
    /// `upload_id`, at `now_ms` milliseconds since the epoch; the first
    /// request asks whether `<upload dir>/<safe name>` lies inside the
    /// upload directory.
    pub fn new(
        upload_dir: &str,
        safe_name: &str,
        batch_id: &str,
        upload_id: &str,
        file_size: u64,
        now_ms: u64,
    ) -> (r: (InitFlow, InitAction))
        ensures
            r.0@ == start(upload_dir@, safe_name@, batch_id@, upload_id@, file_size, now_ms),
            inv(r.0@),
            r.1@ == requested(r.0@),
    {
        let parts = upload_path_parts(safe_name);
        let mapping_key = if parts.len() > 1 {
            folder_mapping_key(parts[0].as_str(), batch_id)
        } else {
            String::new()
        };
        proof {
            if parts@.len() > 1 {
                assert(string_views(parts@)[0] == parts@[0]@);
            }
        }
        let flow = InitFlow {
            upload_dir: upload_dir.to_string(),
            safe_name: safe_name.to_string(),
            parts,
            batch_id: batch_id.to_string(),
            upload_id: upload_id.to_string(),
            file_size,
            now_ms,
            mapping_key,
            folder_path: String::new(),
            folder_counter: 1,
            folder: String::new(),
            destination: join_paths(upload_dir, safe_name),
            candidate: String::new(),
            file_counter: 1,
            stage: InitStage::FinalWithin,
            confirmed: Ghost(Set::<Seq<char>>::empty()),
        };
        assert(flow@ =~= start(upload_dir@, safe_name@, batch_id@, upload_id@, file_size, now_ms));
        let a = flow.pending();
        (flow, a)
    }

    /// The request the machine waits for.
    pub fn pending(&self) -> (a: InitAction)
        ensures
            a@ == requested(self@),
    {
        match self.stage {
            InitStage::FinalWithin => InitAction::CheckWithin(self.destination.clone()),
            InitStage::MappingLookup => InitAction::LookupMapping(self.mapping_key.clone()),
            InitStage::FolderExists => InitAction::CheckExists(self.folder_path.clone()),
            InitStage::FolderCandidate => InitAction::CheckExists(self.folder_path.clone()),
            InitStage::FolderCreated => InitAction::CreateDir(
                join_paths(self.upload_dir.as_str(), self.folder.as_str()),
            ),
            InitStage::MappingRecorded => InitAction::RecordMapping(
                self.mapping_key.clone(),
                self.folder.clone(),
            ),
            InitStage::RemappedWithin => InitAction::CheckWithin(self.destination.clone()),
            InitStage::DirCreated => InitAction::CreateDir(self.upload_dir.clone()),
            InitStage::FileExists => InitAction::CheckExists(self.candidate.clone()),
            InitStage::UniqueWithin => InitAction::CheckWithin(self.candidate.clone()),
            InitStage::ParentCreated => {
                let c = to_chars(self.candidate.as_str());
                let p = match parent_chars(c.as_slice()) {
                    Some(p) => from_chars(p.as_slice()),
                    None => String::new(),
                };
                InitAction::CreateDir(p)
            },
            InitStage::PartialWithin => InitAction::CheckWithin(
                partial_path_of(self.candidate.as_str()),
            ),
            InitStage::MetadataWritten => InitAction::WriteMetadata(
                UploadMetadata {
                    upload_id: self.upload_id.clone(),
                    original_filename: self.safe_name.clone(),
                    file_path: self.candidate.clone(),
                    partial_file_path: partial_path_of(self.candidate.as_str()),
                    file_size: self.file_size,
                    bytes_received: 0,
                    batch_id: self.batch_id.clone(),
                    created_at: self.now_ms,
                    last_activity: self.now_ms,
                },
            ),
            InitStage::EmptyWritten => InitAction::WriteEmptyFile(self.candidate.clone()),
            InitStage::CleanedUp(_) => InitAction::DeleteMetadata(self.upload_id.clone()),
            InitStage::Notified => InitAction::Notify,
            InitStage::Done(r) => InitAction::Respond(r),
        }
    }

    /// Takes the answer to the pending request, moves on as `next` says,
    /// and returns the request the machine then waits for.
    pub fn step(&mut self, event: InitEvent) -> (a: InitAction)
        requires
            inv(old(self)@),
        ensures
            final(self)@ == next(old(self)@, event),
            inv(final(self)@),
            a@ == requested(final(self)@),
    {
        let ghost v = self@;
        let ghost e = event;
        proof {
            lemma_next_keeps_inv(v, e);
            if v.parts.len() > 0 {
                assert(v.parts[0] == self.parts@[0]@);
            }
        }
        match self.stage {
            InitStage::FinalWithin => match event {
                InitEvent::Within(ok) => {
                    if !ok {
                        self.stage = InitStage::Done(InitReply::InvalidPath);
                    } else {
                        self.confirmed = Ghost(self.confirmed@.insert(self.destination@));
                        if self.parts.len() > 1 {
                            self.stage = InitStage::MappingLookup;
                        } else {
                            self.stage = InitStage::DirCreated;
                        }
                    }
                },
                _ => {},
            },
            InitStage::MappingLookup => match event {
                InitEvent::Mapping(Some(f)) => {
                    self.destination = remapped_upload_path(
                        self.upload_dir.as_str(),
                        &self.parts,
                        f.as_str(),
                    );
                    self.folder = f;
                    self.stage = InitStage::RemappedWithin;
                },
                InitEvent::Mapping(None) => {
                    self.folder_path = join_paths(self.upload_dir.as_str(), self.parts[0].as_str());
                    self.stage = InitStage::FolderExists;
                },
                _ => {},
            },
            InitStage::FolderExists => match event {
                InitEvent::Exists(ex) => {
                    if ex {
                        self.folder_counter = 1;
                        self.stage = InitStage::FolderCandidate;
                    } else {
                        self.folder = self.parts[0].clone();
                        self.stage = InitStage::FolderCreated;
                    }
                },
                _ => {},
            },
            InitStage::FolderCandidate => match event {
                InitEvent::Exists(ex) => {
                    if ex {
                        let top = join_paths(self.upload_dir.as_str(), self.parts[0].as_str());
                        self.folder_path = unique_folder_candidate(top.as_str(), self.folder_counter);
                        if self.folder_counter < u64::MAX {
                            self.folder_counter = self.folder_counter + 1;
                        }
                    } else {
                        self.folder = file_name_or(self.folder_path.as_str(), self.parts[0].as_str());
                        self.stage = InitStage::FolderCreated;
                    }
                },
                _ => {},
            },
            InitStage::FolderCreated => match event {
                InitEvent::Finished => {
                    self.stage = InitStage::MappingRecorded;
                },
                _ => {},
            },
            InitStage::MappingRecorded => match event {
                InitEvent::Finished => {
                    self.destination = remapped_upload_path(
                        self.upload_dir.as_str(),
                        &self.parts,
                        self.folder.as_str(),
                    );
                    self.stage = InitStage::RemappedWithin;
                },
                _ => {},
            },
            InitStage::RemappedWithin => match event {
                InitEvent::Within(ok) => {
                    if !ok {
                        self.stage = InitStage::Done(InitReply::InvalidPath);
                    } else {
                        self.confirmed = Ghost(self.confirmed@.insert(self.destination@));
                        self.candidate = self.destination.clone();
                        self.file_counter = 1;
                        self.stage = InitStage::FileExists;
                    }
                },
                _ => {},
            },
            InitStage::DirCreated => match event {
                InitEvent::Finished => {
                    self.candidate = self.destination.clone();
                    self.file_counter = 1;
                    self.stage = InitStage::FileExists;
                },
                _ => {},
            },
            InitStage::FileExists => match event {
                InitEvent::Exists(ex) => {
                    if ex {
                        self.candidate = unique_file_candidate(
                            self.destination.as_str(),
                            self.upload_dir.as_str(),
                            self.file_counter,
                        );
                        if self.file_counter < u64::MAX {
                            self.file_counter = self.file_counter + 1;
                        }
                    } else {
                        self.stage = InitStage::UniqueWithin;
                    }
                },
                _ => {},
            },
            InitStage::UniqueWithin => match event {
                InitEvent::Within(ok) => {
                    if !ok {
                        self.stage = InitStage::Done(InitReply::InvalidPath);
                    } else {
                        self.confirmed = Ghost(self.confirmed@.insert(self.candidate@));
                        let c = to_chars(self.candidate.as_str());
                        match parent_chars(c.as_slice()) {
                            Some(_) => {
                                self.stage = InitStage::ParentCreated;
                            },
                            None => {
                                self.stage = InitStage::PartialWithin;
                            },
                        }
                    }
                },
                _ => {},
            },
            InitStage::ParentCreated => match event {
                InitEvent::Finished => {
                    self.stage = InitStage::PartialWithin;
                },
                _ => {},
            },
            InitStage::PartialWithin => match event {
                InitEvent::Within(ok) => {
                    if !ok {
                        self.stage = InitStage::Done(InitReply::InvalidPath);
                    } else {
                        self.confirmed = Ghost(
                            self.confirmed@.insert(self.candidate@ + partial_suffix()),
                        );
                        self.stage = InitStage::MetadataWritten;
                    }
                },
                _ => {},
            },
            InitStage::MetadataWritten => match event {
                InitEvent::Written(ok) => {
                    if !ok {
                        self.stage = InitStage::Done(InitReply::MetadataFailed);
                    } else if self.file_size == 0 {
                        self.stage = InitStage::EmptyWritten;
                    } else {
                        self.stage = InitStage::Done(InitReply::Accepted);
                    }
                },
                _ => {},
            },
            InitStage::EmptyWritten => match event {
                InitEvent::Written(ok) => {
                    self.stage = InitStage::CleanedUp(ok);
                },
                _ => {},
            },
            InitStage::CleanedUp(ok) => match event {
                InitEvent::Finished => {
                    if ok {
                        self.stage = InitStage::Notified;
                    } else {
                        self.stage = InitStage::Done(InitReply::EmptyFileFailed);
                    }
                },
                _ => {},
            },
            InitStage::Notified => match event {
                InitEvent::Finished => {
                    self.stage = InitStage::Done(InitReply::Accepted);
                },
                _ => {},
            },
            InitStage::Done(_) => {},
        }
        assert(self@ =~= next(v, e));
        self.pending()
    }
}

} // verus!
