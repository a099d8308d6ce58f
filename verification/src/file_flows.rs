//! Reading, renaming and deleting a stored item as state machines. Each
//! step takes the answer to the last request (whether a path lies inside
//! the upload directory, what is stored at a path, whether an operation
//! succeeded) and says what to do next, until the machine replies.

use vstd::prelude::*;
use crate::file_ops::{
    blank, download_name, plan_rename, rename_destination, rename_name_is_blank, rename_report,
    renamed_relative_path, request_file_path, percent_decoded_lossy,
};
use crate::paths::path_join;
use crate::sanitize::{sanitize_filename_is_total, sanitize_total, sanitized_filename};
use crate::text::{copy, from_chars, to_chars, trim_whitespace, trim_ws};

verus! {

/// Why a request about a stored item was refused.
#[derive(Clone, Copy, Debug, PartialEq, Eq, Structural)]
pub enum FileError {
    NameRequired,
    AccessDenied,
    NotFound,
    InvalidName,
    InvalidDestination,
    InvalidSource,
    NameTaken,
    RenameFailed,
    DirDeleteFailed,
    FileDeleteFailed,
    FileMissing,
}

/// The HTTP status of a refusal.
pub open spec fn error_status(e: FileError) -> u16 {
    match e {
        FileError::NameRequired | FileError::InvalidName => 400,
        FileError::AccessDenied | FileError::InvalidDestination | FileError::InvalidSource => 403,
        FileError::NotFound | FileError::FileMissing => 404,
        FileError::NameTaken => 409,
        FileError::RenameFailed | FileError::DirDeleteFailed | FileError::FileDeleteFailed => 500,
    }
}

/// The message of a refusal.
pub open spec fn error_message(e: FileError) -> Seq<char> {
    match e {
        FileError::NameRequired => "New name is required"@,
        FileError::AccessDenied => "Access denied"@,
        FileError::NotFound => "File or directory not found"@,
        FileError::InvalidName => "Invalid or empty filename after sanitization"@,
        FileError::InvalidDestination => "Invalid destination path"@,
        FileError::InvalidSource => "Invalid source path"@,
        FileError::NameTaken => "A file or directory with that name already exists"@,
        FileError::RenameFailed => "Failed to rename item"@,
        FileError::DirDeleteFailed => "Failed to delete directory"@,
        FileError::FileDeleteFailed => "Failed to delete file"@,
        FileError::FileMissing => "File not found"@,
    }
}

/// How a request about a stored item is answered.
#[derive(Debug, PartialEq, Eq)]
pub enum FileReply {
    /// Refused with an HTTP status and a message.
    Refused(u16, String),
    /// Renamed: the message, the old name, the new name and the new path
    /// relative to the upload directory.
    Renamed(String, String, String, String),
    /// Deleted, with the message.
    Deleted(String),
    /// Found: the path relative to the upload directory, decoded, and the
    /// path.
    Found(String, String),
}

/// What the caller must do next.
#[derive(Debug, PartialEq, Eq)]
pub enum FileRequest {
    /// Tell whether the path lies inside the upload directory; with `true`
    /// it must also exist.
    CheckWithin(String, bool),
    /// Tell what is stored at the path.
    Stat(String),
    /// Tell whether the path exists.
    CheckExists(String),
    /// Move the first path to the second.
    Rename(String, String),
    /// Remove the directory and all it holds.
    RemoveDir(String),
    /// Remove the file.
    RemoveFile(String),
    /// Open the file for reading.
    Open(String),
    /// Answer the request.
    Respond(FileReply),
}

/// The answer to the last request.
#[derive(Debug, PartialEq, Eq)]
pub enum FileEvent {
    /// Whether the path lies inside the upload directory.
    Within(bool),
    /// Nothing is stored at the path, or whether what is there is a
    /// directory.
    Stat(Option<bool>),
    /// Whether the path exists.
    Exists(bool),
    /// Whether the operation succeeded.
    Done(bool),
}

pub enum ReplyView {
    Refused(u16, Seq<char>),
    Renamed(Seq<char>, Seq<char>, Seq<char>, Seq<char>),
    Deleted(Seq<char>),
    Found(Seq<char>, Seq<char>),
}

pub enum FileRequestView {
    CheckWithin(Seq<char>, bool),
    Stat(Seq<char>),
    CheckExists(Seq<char>),
    Rename(Seq<char>, Seq<char>),
    RemoveDir(Seq<char>),
    RemoveFile(Seq<char>),
    Open(Seq<char>),
    Respond(ReplyView),
}

impl View for FileReply {
    type V = ReplyView;

    open spec fn view(&self) -> ReplyView {
        match self {
            FileReply::Refused(s, m) => ReplyView::Refused(*s, m@),
            FileReply::Renamed(m, o, n, p) => ReplyView::Renamed(m@, o@, n@, p@),
            FileReply::Deleted(m) => ReplyView::Deleted(m@),
            FileReply::Found(d, p) => ReplyView::Found(d@, p@),
        }
    }
}

impl View for FileRequest {
    type V = FileRequestView;

    open spec fn view(&self) -> FileRequestView {
        match self {
            FileRequest::CheckWithin(p, e) => FileRequestView::CheckWithin(p@, *e),
            FileRequest::Stat(p) => FileRequestView::Stat(p@),
            FileRequest::CheckExists(p) => FileRequestView::CheckExists(p@),
            FileRequest::Rename(a, b) => FileRequestView::Rename(a@, b@),
            FileRequest::RemoveDir(p) => FileRequestView::RemoveDir(p@),
            FileRequest::RemoveFile(p) => FileRequestView::RemoveFile(p@),
            FileRequest::Open(p) => FileRequestView::Open(p@),
            FileRequest::Respond(r) => FileRequestView::Respond(r@),
        }
    }
}

/// The refusal for an error.
pub open spec fn refusal(e: FileError) -> ReplyView {
    ReplyView::Refused(error_status(e), error_message(e))
}

/// The reply to a refused request.
fn refuse(e: FileError) -> (r: FileReply)
    ensures
        r@ == refusal(e),
{
    let m = match e {
        FileError::NameRequired => "New name is required",
        FileError::AccessDenied => "Access denied",
        FileError::NotFound => "File or directory not found",
        FileError::InvalidName => "Invalid or empty filename after sanitization",
        FileError::InvalidDestination => "Invalid destination path",
        FileError::InvalidSource => "Invalid source path",
        FileError::NameTaken => "A file or directory with that name already exists",
        FileError::RenameFailed => "Failed to rename item",
        FileError::DirDeleteFailed => "Failed to delete directory",
        FileError::FileDeleteFailed => "Failed to delete file",
        FileError::FileMissing => "File not found",
    };
    let status: u16 = match e {
        FileError::NameRequired | FileError::InvalidName => 400,
        FileError::AccessDenied | FileError::InvalidDestination | FileError::InvalidSource => 403,
        FileError::NotFound | FileError::FileMissing => 404,
        FileError::NameTaken => 409,
        FileError::RenameFailed | FileError::DirDeleteFailed | FileError::FileDeleteFailed => 500,
    };
    FileReply::Refused(status, copy(m))
}

// ---------------------------------------------------------------------
// Renaming
// ---------------------------------------------------------------------

/// What a rename waits for.
#[derive(Clone, Copy, Debug, PartialEq, Eq, Structural)]
pub enum RenameStage {
    /// Whether the item's path lies inside the upload directory.
    SourceWithin,
    /// What is stored at the item's path.
    SourceStat,
    /// Whether the destination lies inside the upload directory.
    DestWithin,
    /// Whether the item still exists inside the upload directory.
    SourceRecheck,
    /// Whether the destination is taken.
    DestExists,
    /// Whether the move succeeded.
    Renaming,
    /// Nothing: the rename was refused.
    Refused(FileError),
    /// Nothing: the item was renamed.
    Renamed,
}

/// The rename of a stored item.
pub struct RenameFlow {
    pub upload_dir: String,
    /// The new name as requested.
    pub new_name: String,
    /// The item's path relative to the upload directory, decoded.
    pub decoded: String,
    /// The item's path.
    pub current: String,
    pub is_dir: bool,
    /// The new name sanitised.
    pub sanitized: String,
    /// Where the item moves.
    pub new_path: String,
    pub stage: RenameStage,
    /// Each path answered to lie inside the upload directory, with whether
    /// it was asked to exist too.
    pub confirmed: Ghost<Set<(Seq<char>, bool)>>,
}

pub struct RenameView {
    pub upload_dir: Seq<char>,
    pub new_name: Seq<char>,
    pub decoded: Seq<char>,
    pub current: Seq<char>,
    pub is_dir: bool,
    pub sanitized: Seq<char>,
    pub new_path: Seq<char>,
    pub stage: RenameStage,
    pub confirmed: Set<(Seq<char>, bool)>,
}

impl View for RenameFlow {
    type V = RenameView;

    open spec fn view(&self) -> RenameView {
        RenameView {
            upload_dir: self.upload_dir@,
            new_name: self.new_name@,
            decoded: self.decoded@,
            current: self.current@,
            is_dir: self.is_dir,
            sanitized: self.sanitized@,
            new_path: self.new_path@,
            stage: self.stage,
            confirmed: self.confirmed@,
        }
    }
}

/// The rename of the item at `raw_path` (as it came in the request) to
/// `new_name`: refused at once when the name is blank, else the item's
/// path is checked first.
pub open spec fn rename_start(upload_dir: Seq<char>, raw_path: Seq<char>, new_name: Seq<char>) -> RenameView {
    let decoded = percent_decoded_lossy(raw_path);
    RenameView {
        upload_dir,
        new_name,
        decoded,
        current: path_join(upload_dir, decoded),
        is_dir: false,
        sanitized: Seq::<char>::empty(),
        new_path: Seq::<char>::empty(),
        stage: if blank(new_name) {
            RenameStage::Refused(FileError::NameRequired)
        } else {
            RenameStage::SourceWithin
        },
        confirmed: Set::<(Seq<char>, bool)>::empty(),
    }
}

/// The message of a successful rename.
pub open spec fn renamed_message(is_dir: bool) -> Seq<char> {
    if is_dir {
        "Directory renamed successfully"@
    } else {
        "File renamed successfully"@
    }
}

/// What a rename waits for.
pub open spec fn rename_requested(v: RenameView) -> FileRequestView {
    match v.stage {
        RenameStage::SourceWithin => FileRequestView::CheckWithin(v.current, false),
        RenameStage::SourceStat => FileRequestView::Stat(v.current),
        RenameStage::DestWithin => FileRequestView::CheckWithin(v.new_path, false),
        RenameStage::SourceRecheck => FileRequestView::CheckWithin(v.current, true),
        RenameStage::DestExists => FileRequestView::CheckExists(v.new_path),
        RenameStage::Renaming => FileRequestView::Rename(v.current, v.new_path),
        RenameStage::Refused(e) => FileRequestView::Respond(refusal(e)),
        RenameStage::Renamed => FileRequestView::Respond(
            ReplyView::Renamed(
                renamed_message(v.is_dir),
                download_name(v.decoded),
                v.sanitized,
                renamed_relative_path(v.new_path, v.upload_dir, v.sanitized),
            ),
        ),
    }
}

pub open spec fn rename_at(v: RenameView, stage: RenameStage) -> RenameView {
    RenameView { stage, ..v }
}

/// The rename after the answer `e`; an answer of another kind than the
/// request changes nothing, and so does any answer once it has replied.
pub open spec fn rename_next(v: RenameView, e: FileEvent) -> RenameView {
    match v.stage {
        RenameStage::SourceWithin => match e {
            FileEvent::Within(ok) => if ok {
                RenameView {
                    stage: RenameStage::SourceStat,
                    confirmed: v.confirmed.insert((v.current, false)),
                    ..v
                }
            } else {
                rename_at(v, RenameStage::Refused(FileError::AccessDenied))
            },
            _ => v,
        },
        RenameStage::SourceStat => match e {
            FileEvent::Stat(None) => rename_at(v, RenameStage::Refused(FileError::NotFound)),
            FileEvent::Stat(Some(d)) => {
                let n = sanitized_filename(trim_ws(v.new_name));
                if blank(n) {
                    RenameView { is_dir: d, stage: RenameStage::Refused(FileError::InvalidName), ..v }
                } else {
                    RenameView {
                        is_dir: d,
                        sanitized: n,
                        new_path: rename_destination(v.upload_dir, v.current, n),
                        stage: RenameStage::DestWithin,
                        ..v
                    }
                }
            },
            _ => v,
        },
        RenameStage::DestWithin => match e {
            FileEvent::Within(ok) => if ok {
                RenameView {
                    stage: RenameStage::SourceRecheck,
                    confirmed: v.confirmed.insert((v.new_path, false)),
                    ..v
                }
            } else {
                rename_at(v, RenameStage::Refused(FileError::InvalidDestination))
            },
            _ => v,
        },
        RenameStage::SourceRecheck => match e {
            FileEvent::Within(ok) => if ok {
                RenameView {
                    stage: RenameStage::DestExists,
                    confirmed: v.confirmed.insert((v.current, true)),
                    ..v
                }
            } else {
                rename_at(v, RenameStage::Refused(FileError::InvalidSource))
            },
            _ => v,
        },
        RenameStage::DestExists => match e {
            FileEvent::Exists(ex) => if ex {
                rename_at(v, RenameStage::Refused(FileError::NameTaken))
            } else {
                rename_at(v, RenameStage::Renaming)
            },
            _ => v,
        },
        RenameStage::Renaming => match e {
            FileEvent::Done(ok) => if ok {
                rename_at(v, RenameStage::Renamed)
            } else {
                rename_at(v, RenameStage::Refused(FileError::RenameFailed))
            },
            _ => v,
        },
        RenameStage::Refused(_) | RenameStage::Renamed => v,
    }
}

/// Whether the answer would have the new name sanitised where sanitising
/// it is not defined (its cut falls inside a character).
pub open spec fn rename_undefined(v: RenameView, e: FileEvent) -> bool {
    &&& v.stage is SourceStat
    &&& e matches FileEvent::Stat(Some(_))
    &&& !sanitize_total(trim_ws(v.new_name))
}

/// The stages once the new name is known.
pub open spec fn rename_planned(stage: RenameStage) -> bool {
    stage is DestWithin || stage is SourceRecheck || stage is DestExists || stage is Renaming
        || stage is Renamed
}

/// What holds of every rename: once planned, the destination is the new
/// name in the item's directory, and each check answered yes is recorded.
pub open spec fn rename_inv(v: RenameView) -> bool {
    &&& v.current == path_join(v.upload_dir, v.decoded)
    &&& rename_planned(v.stage) ==> {
        &&& v.sanitized == sanitized_filename(trim_ws(v.new_name))
        &&& v.new_path == rename_destination(v.upload_dir, v.current, v.sanitized)
        &&& v.confirmed.contains((v.current, false))
    }
    &&& v.stage is SourceStat ==> v.confirmed.contains((v.current, false))
    &&& (v.stage is SourceRecheck || v.stage is DestExists || v.stage is Renaming || v.stage is Renamed)
        ==> v.confirmed.contains((v.new_path, false))
    &&& (v.stage is DestExists || v.stage is Renaming || v.stage is Renamed) ==> v.confirmed.contains(
        (v.current, true),
    )
}

/// Every answer keeps what holds of a rename.
pub proof fn lemma_rename_keeps_inv(v: RenameView, e: FileEvent)
    requires
        rename_inv(v),
    ensures
        rename_inv(rename_next(v, e)),
{
}

/// An item is moved only from a path that was answered to lie inside the
/// upload directory (and, checked again just before, to exist there), to
/// the new name in its own directory, answered to lie inside the upload
/// directory too.
pub proof fn lemma_rename_moves_only_checked_paths(v: RenameView)
    requires
        rename_inv(v),
    ensures
        rename_requested(v) matches FileRequestView::Rename(a, b) ==> {
            &&& a == v.current
            &&& b == rename_destination(v.upload_dir, v.current, sanitized_filename(trim_ws(v.new_name)))
            &&& v.confirmed.contains((a, false))
            &&& v.confirmed.contains((a, true))
            &&& v.confirmed.contains((b, false))
        },
{
}

/// An item is moved only once its destination was answered not to exist:
/// nothing is overwritten.
pub proof fn lemma_rename_never_overwrites(v: RenameView, e: FileEvent)
    requires
        !(v.stage is Renaming),
        rename_next(v, e).stage is Renaming,
    ensures
        v.stage is DestExists,
        e == FileEvent::Exists(false),
{
}

impl RenameFlow {
    /// Starts the rename of the item at `raw_path` (relative to
    /// `upload_dir`, percent-encoded) to `new_name`.
    pub fn new(upload_dir: &str, raw_path: &str, new_name: &str) -> (r: (RenameFlow, FileRequest))
        ensures
            r.0@ == rename_start(upload_dir@, raw_path@, new_name@),
            rename_inv(r.0@),
            r.1@ == rename_requested(r.0@),
    {
        let (decoded, current) = request_file_path(upload_dir, raw_path);
        let stage = if rename_name_is_blank(new_name) {
            RenameStage::Refused(FileError::NameRequired)
        } else {
            RenameStage::SourceWithin
        };
        let flow = RenameFlow {
            upload_dir: upload_dir.to_string(),
            new_name: new_name.to_string(),
            decoded,
            current,
            is_dir: false,
            sanitized: String::new(),
            new_path: String::new(),
            stage,
            confirmed: Ghost(Set::<(Seq<char>, bool)>::empty()),
        };
        assert(flow@ =~= rename_start(upload_dir@, raw_path@, new_name@));
        let req = flow.pending();
        (flow, req)
    }

    /// The request the rename waits for.
    pub fn pending(&self) -> (r: FileRequest)
        ensures
            r@ == rename_requested(self@),
    {
        match self.stage {
            RenameStage::SourceWithin => FileRequest::CheckWithin(self.current.clone(), false),
            RenameStage::SourceStat => FileRequest::Stat(self.current.clone()),
            RenameStage::DestWithin => FileRequest::CheckWithin(self.new_path.clone(), false),
            RenameStage::SourceRecheck => FileRequest::CheckWithin(self.current.clone(), true),
            RenameStage::DestExists => FileRequest::CheckExists(self.new_path.clone()),
            RenameStage::Renaming => FileRequest::Rename(self.current.clone(), self.new_path.clone()),
            RenameStage::Refused(e) => FileRequest::Respond(refuse(e)),
            RenameStage::Renamed => {
                let message = if self.is_dir {
                    copy("Directory renamed successfully")
                } else {
                    copy("File renamed successfully")
                };
                let (old_name, relative) = rename_report(
                    self.upload_dir.as_str(),
                    self.decoded.as_str(),
                    self.new_path.as_str(),
                    self.sanitized.as_str(),
                );
                FileRequest::Respond(
                    FileReply::Renamed(message, old_name, self.sanitized.clone(), relative),
                )
            },
        }
    }

    /// Whether the answer would have the new name sanitised where that is
    /// not defined.
    pub fn undefined_on(&self, e: &FileEvent) -> (r: bool)
        ensures
            r == rename_undefined(self@, *e),
    {
        match (self.stage, e) {
            (RenameStage::SourceStat, FileEvent::Stat(Some(_))) => {
                let t = trim_whitespace(to_chars(self.new_name.as_str()).as_slice());
                !sanitize_filename_is_total(from_chars(t.as_slice()).as_str())
            },
            _ => false,
        }
    }

    /// Takes the answer to the pending request, moves on as `rename_next`
    /// says, and returns the next request.
    pub fn step(&mut self, e: FileEvent) -> (r: FileRequest)
        requires
            rename_inv(old(self)@),
            !rename_undefined(old(self)@, e),
        ensures
            final(self)@ == rename_next(old(self)@, e),
            rename_inv(final(self)@),
            r@ == rename_requested(final(self)@),
    {
        let ghost v = self@;
        let ghost ev = e;
        proof {
            lemma_rename_keeps_inv(v, ev);
        }
        match self.stage {
            RenameStage::SourceWithin => match e {
                FileEvent::Within(ok) => {
                    if ok {
                        self.confirmed = Ghost(self.confirmed@.insert((self.current@, false)));
                        self.stage = RenameStage::SourceStat;
                    } else {
                        self.stage = RenameStage::Refused(FileError::AccessDenied);
                    }
                },
                _ => {},
            },
            RenameStage::SourceStat => match e {
                FileEvent::Stat(None) => {
                    self.stage = RenameStage::Refused(FileError::NotFound);
                },
                FileEvent::Stat(Some(d)) => {
                    self.is_dir = d;
                    match plan_rename(
                        self.upload_dir.as_str(),
                        self.current.as_str(),
                        self.new_name.as_str(),
                    ) {
                        None => {
                            self.stage = RenameStage::Refused(FileError::InvalidName);
                        },
                        Some((n, p)) => {
                            self.sanitized = n;
                            self.new_path = p;
                            self.stage = RenameStage::DestWithin;
                        },
                    }
                },
                _ => {},
            },
            RenameStage::DestWithin => match e {
                FileEvent::Within(ok) => {
                    if ok {
                        self.confirmed = Ghost(self.confirmed@.insert((self.new_path@, false)));
                        self.stage = RenameStage::SourceRecheck;
                    } else {
                        self.stage = RenameStage::Refused(FileError::InvalidDestination);
                    }
                },
                _ => {},
            },
            RenameStage::SourceRecheck => match e {
                FileEvent::Within(ok) => {
                    if ok {
                        self.confirmed = Ghost(self.confirmed@.insert((self.current@, true)));
                        self.stage = RenameStage::DestExists;
                    } else {
                        self.stage = RenameStage::Refused(FileError::InvalidSource);
                    }
                },
                _ => {},
            },
            RenameStage::DestExists => match e {
                FileEvent::Exists(ex) => {
                    if ex {
                        self.stage = RenameStage::Refused(FileError::NameTaken);
                    } else {
                        self.stage = RenameStage::Renaming;
                    }
                },
                _ => {},
            },
            RenameStage::Renaming => match e {
                FileEvent::Done(ok) => {
                    if ok {
                        self.stage = RenameStage::Renamed;
                    } else {
                        self.stage = RenameStage::Refused(FileError::RenameFailed);
                    }
                },
                _ => {},
            },
            RenameStage::Refused(_) | RenameStage::Renamed => {},
        }
        assert(self@ =~= rename_next(v, ev));
        self.pending()
    }
}

// ---------------------------------------------------------------------
// Deleting
// ---------------------------------------------------------------------

/// What a deletion waits for.
#[derive(Clone, Copy, Debug, PartialEq, Eq, Structural)]
pub enum DeleteStage {
    /// Whether the item's path lies inside the upload directory.
    Within,
    /// What is stored at the item's path.
    Stat,
    /// Whether the directory (`true`) or the file (`false`) was removed.
    Removing(bool),
    /// Nothing: the deletion was refused.
    Refused(FileError),
    /// Nothing: the directory (`true`) or the file (`false`) was deleted.
    Deleted(bool),
}

/// The deletion of a stored item.
pub struct DeleteFlow {
    /// The item's path relative to the upload directory, decoded.
    pub decoded: String,
    /// The item's path.
    pub path: String,
    pub stage: DeleteStage,
    /// Each path answered to lie inside the upload directory.
    pub confirmed: Ghost<Set<Seq<char>>>,
}

pub struct DeleteView {
    pub decoded: Seq<char>,
    pub path: Seq<char>,
    pub stage: DeleteStage,
    pub confirmed: Set<Seq<char>>,
}

impl View for DeleteFlow {
    type V = DeleteView;

    open spec fn view(&self) -> DeleteView {
        DeleteView {
            decoded: self.decoded@,
            path: self.path@,
            stage: self.stage,
            confirmed: self.confirmed@,
        }
    }
}

/// The deletion of the item at `raw_path` (as it came in the request).
pub open spec fn delete_start(upload_dir: Seq<char>, raw_path: Seq<char>) -> DeleteView {
    let decoded = percent_decoded_lossy(raw_path);
    DeleteView {
        decoded,
        path: path_join(upload_dir, decoded),
        stage: DeleteStage::Within,
        confirmed: Set::<Seq<char>>::empty(),
    }
}

/// The message of a successful deletion.
pub open spec fn deleted_message(is_dir: bool) -> Seq<char> {
    if is_dir {
        "Directory deleted successfully"@
    } else {
        "File deleted successfully"@
    }
}

/// What a deletion waits for.
pub open spec fn delete_requested(v: DeleteView) -> FileRequestView {
    match v.stage {
        DeleteStage::Within => FileRequestView::CheckWithin(v.path, false),
        DeleteStage::Stat => FileRequestView::Stat(v.path),
        DeleteStage::Removing(d) => if d {
            FileRequestView::RemoveDir(v.path)
        } else {
            FileRequestView::RemoveFile(v.path)
        },
        DeleteStage::Refused(e) => FileRequestView::Respond(refusal(e)),
        DeleteStage::Deleted(d) => FileRequestView::Respond(ReplyView::Deleted(deleted_message(d))),
    }
}

/// The deletion after the answer `e`; an answer of another kind than the
/// request changes nothing, and so does any answer once it has replied.
pub open spec fn delete_next(v: DeleteView, e: FileEvent) -> DeleteView {
    match v.stage {
        DeleteStage::Within => match e {
            FileEvent::Within(ok) => if ok {
                DeleteView { stage: DeleteStage::Stat, confirmed: v.confirmed.insert(v.path), ..v }
            } else {
                DeleteView { stage: DeleteStage::Refused(FileError::AccessDenied), ..v }
            },
            _ => v,
        },
        DeleteStage::Stat => match e {
            FileEvent::Stat(None) => DeleteView { stage: DeleteStage::Refused(FileError::NotFound), ..v },
            FileEvent::Stat(Some(d)) => DeleteView { stage: DeleteStage::Removing(d), ..v },
            _ => v,
        },
        DeleteStage::Removing(d) => match e {
            FileEvent::Done(ok) => if ok {
                DeleteView { stage: DeleteStage::Deleted(d), ..v }
            } else if d {
                DeleteView { stage: DeleteStage::Refused(FileError::DirDeleteFailed), ..v }
            } else {
                DeleteView { stage: DeleteStage::Refused(FileError::FileDeleteFailed), ..v }
            },
            _ => v,
        },
        DeleteStage::Refused(_) | DeleteStage::Deleted(_) => v,
    }
}

/// What holds of every deletion: past the first check, the item's path
/// was answered to lie inside the upload directory.
pub open spec fn delete_inv(v: DeleteView) -> bool {
    (v.stage is Stat || v.stage is Removing || v.stage is Deleted) ==> v.confirmed.contains(v.path)
}

/// Every answer keeps what holds of a deletion.
pub proof fn lemma_delete_keeps_inv(v: DeleteView, e: FileEvent)
    requires
        delete_inv(v),
    ensures
        delete_inv(delete_next(v, e)),
{
}

/// Nothing is removed but at a path that was answered to lie inside the
/// upload directory, and a directory is removed only where one was found.
pub proof fn lemma_delete_removes_only_checked_paths(v: DeleteView, e: FileEvent)
    requires
        delete_inv(v),
    ensures
        delete_requested(v) matches FileRequestView::RemoveDir(p) ==> v.confirmed.contains(p),
        delete_requested(v) matches FileRequestView::RemoveFile(p) ==> v.confirmed.contains(p),
        (v.stage is Stat && delete_requested(delete_next(v, e)) is RemoveDir) ==> e == FileEvent::Stat(
            Some(true),
        ),
{
}

impl DeleteFlow {
    /// Starts the deletion of the item at `raw_path` (relative to
    /// `upload_dir`, percent-encoded).
    pub fn new(upload_dir: &str, raw_path: &str) -> (r: (DeleteFlow, FileRequest))
        ensures
            r.0@ == delete_start(upload_dir@, raw_path@),
            delete_inv(r.0@),
            r.1@ == delete_requested(r.0@),
    {
        let (decoded, path) = request_file_path(upload_dir, raw_path);
        let flow = DeleteFlow {
            decoded,
            path,
            stage: DeleteStage::Within,
            confirmed: Ghost(Set::<Seq<char>>::empty()),
        };
        let req = flow.pending();
        (flow, req)
    }

    /// The request the deletion waits for.
    pub fn pending(&self) -> (r: FileRequest)
        ensures
            r@ == delete_requested(self@),
    {
        match self.stage {
            DeleteStage::Within => FileRequest::CheckWithin(self.path.clone(), false),
            DeleteStage::Stat => FileRequest::Stat(self.path.clone()),
            DeleteStage::Removing(d) => if d {
                FileRequest::RemoveDir(self.path.clone())
            } else {
                FileRequest::RemoveFile(self.path.clone())
            },
            DeleteStage::Refused(e) => FileRequest::Respond(refuse(e)),
            DeleteStage::Deleted(d) => FileRequest::Respond(
                FileReply::Deleted(
                    if d {
                        copy("Directory deleted successfully")
                    } else {
                        copy("File deleted successfully")
                    },
                ),
            ),
        }
    }

    /// Takes the answer to the pending request, moves on as `delete_next`
    /// says, and returns the next request.
    pub fn step(&mut self, e: FileEvent) -> (r: FileRequest)
        requires
            delete_inv(old(self)@),
        ensures
            final(self)@ == delete_next(old(self)@, e),
            delete_inv(final(self)@),
            r@ == delete_requested(final(self)@),
    {
        let ghost v = self@;
        let ghost ev = e;
        proof {
            lemma_delete_keeps_inv(v, ev);
        }
        match self.stage {
            DeleteStage::Within => match e {
                FileEvent::Within(ok) => {
                    if ok {
                        self.confirmed = Ghost(self.confirmed@.insert(self.path@));
                        self.stage = DeleteStage::Stat;
                    } else {
                        self.stage = DeleteStage::Refused(FileError::AccessDenied);
                    }
                },
                _ => {},
            },
            DeleteStage::Stat => match e {
                FileEvent::Stat(None) => {
                    self.stage = DeleteStage::Refused(FileError::NotFound);
                },
                FileEvent::Stat(Some(d)) => {
                    self.stage = DeleteStage::Removing(d);
                },
                _ => {},
            },
            DeleteStage::Removing(d) => match e {
                FileEvent::Done(ok) => {
                    if ok {
                        self.stage = DeleteStage::Deleted(d);
                    } else if d {
                        self.stage = DeleteStage::Refused(FileError::DirDeleteFailed);
                    } else {
                        self.stage = DeleteStage::Refused(FileError::FileDeleteFailed);
                    }
                },
                _ => {},
            },
            DeleteStage::Refused(_) | DeleteStage::Deleted(_) => {},
        }
        assert(self@ =~= delete_next(v, ev));
        self.pending()
    }
}

// ---------------------------------------------------------------------
// Reading
// ---------------------------------------------------------------------

/// What is read of a stored item.
#[derive(Clone, Copy, Debug, PartialEq, Eq, Structural)]
pub enum ReadKind {
    /// Its details.
    Info,
    /// Its bytes.
    Download,
}

/// What a read waits for.
#[derive(Clone, Copy, Debug, PartialEq, Eq, Structural)]
pub enum ReadStage {
    /// Whether the item's path lies inside the upload directory.
    Within,
    /// What is stored there (for details), or whether the file opened.
    Fetching,
    /// Nothing: the read was refused.
    Refused(FileError),
    /// Nothing: the item was found.
    Found,
}

/// A read of a stored item.
pub struct ReadFlow {
    pub kind: ReadKind,
    /// The item's path relative to the upload directory, decoded.
    pub decoded: String,
    /// The item's path.
    pub path: String,
    pub stage: ReadStage,
    /// Each path answered to lie inside the upload directory.
    pub confirmed: Ghost<Set<Seq<char>>>,
}

pub struct ReadView {
    pub kind: ReadKind,
    pub decoded: Seq<char>,
    pub path: Seq<char>,
    pub stage: ReadStage,
    pub confirmed: Set<Seq<char>>,
}

impl View for ReadFlow {
    type V = ReadView;

    open spec fn view(&self) -> ReadView {
        ReadView {
            kind: self.kind,
            decoded: self.decoded@,
            path: self.path@,
            stage: self.stage,
            confirmed: self.confirmed@,
        }
    }
}

/// The read of the item at `raw_path` (as it came in the request).
pub open spec fn read_start(kind: ReadKind, upload_dir: Seq<char>, raw_path: Seq<char>) -> ReadView {
    let decoded = percent_decoded_lossy(raw_path);
    ReadView {
        kind,
        decoded,
        path: path_join(upload_dir, decoded),
        stage: ReadStage::Within,
        confirmed: Set::<Seq<char>>::empty(),
    }
}

/// What a read waits for.
pub open spec fn read_requested(v: ReadView) -> FileRequestView {
    match v.stage {
        ReadStage::Within => FileRequestView::CheckWithin(v.path, false),
        ReadStage::Fetching => match v.kind {
            ReadKind::Info => FileRequestView::Stat(v.path),
            ReadKind::Download => FileRequestView::Open(v.path),
        },
        ReadStage::Refused(e) => FileRequestView::Respond(refusal(e)),
        ReadStage::Found => FileRequestView::Respond(ReplyView::Found(v.decoded, v.path)),
    }
}

/// The read after the answer `e`; an answer of another kind than the
/// request changes nothing, and so does any answer once it has replied.
pub open spec fn read_next(v: ReadView, e: FileEvent) -> ReadView {
    match v.stage {
        ReadStage::Within => match e {
            FileEvent::Within(ok) => if ok {
                ReadView { stage: ReadStage::Fetching, confirmed: v.confirmed.insert(v.path), ..v }
            } else {
                ReadView { stage: ReadStage::Refused(FileError::AccessDenied), ..v }
            },
            _ => v,
        },
        ReadStage::Fetching => match v.kind {
            ReadKind::Info => match e {
                FileEvent::Stat(Some(_)) => ReadView { stage: ReadStage::Found, ..v },
                FileEvent::Stat(None) => ReadView { stage: ReadStage::Refused(FileError::FileMissing), ..v },
                _ => v,
            },
            ReadKind::Download => match e {
                FileEvent::Done(ok) => if ok {
                    ReadView { stage: ReadStage::Found, ..v }
                } else {
                    ReadView { stage: ReadStage::Refused(FileError::FileMissing), ..v }
                },
                _ => v,
            },
        },
        ReadStage::Refused(_) | ReadStage::Found => v,
    }
}

/// What holds of every read: once past the first check, the item's path
/// was answered to lie inside the upload directory.
pub open spec fn read_inv(v: ReadView) -> bool {
    (v.stage is Fetching || v.stage is Found) ==> v.confirmed.contains(v.path)
}

/// Every answer keeps what holds of a read.
pub proof fn lemma_read_keeps_inv(v: ReadView, e: FileEvent)
    requires
        read_inv(v),
    ensures
        read_inv(read_next(v, e)),
{
}

/// Nothing is looked at or opened, and nothing is handed out, but at a
/// path that was answered to lie inside the upload directory.
pub proof fn lemma_read_only_checked_paths(v: ReadView)
    requires
        read_inv(v),
    ensures
        read_requested(v) matches FileRequestView::Stat(p) ==> v.confirmed.contains(p),
        read_requested(v) matches FileRequestView::Open(p) ==> v.confirmed.contains(p),
        read_requested(v) matches FileRequestView::Respond(ReplyView::Found(_, p)) ==> v.confirmed.contains(p),
{
}

impl ReadFlow {
    /// Starts the read of the item at `raw_path` (relative to `upload_dir`,
    /// percent-encoded).
    pub fn new(kind: ReadKind, upload_dir: &str, raw_path: &str) -> (r: (ReadFlow, FileRequest))
        ensures
            r.0@ == read_start(kind, upload_dir@, raw_path@),
            read_inv(r.0@),
            r.1@ == read_requested(r.0@),
    {
        let (decoded, path) = request_file_path(upload_dir, raw_path);
        let flow = ReadFlow {
            kind,
            decoded,
            path,
            stage: ReadStage::Within,
            confirmed: Ghost(Set::<Seq<char>>::empty()),
        };
        let req = flow.pending();
        (flow, req)
    }

    /// The request the read waits for.
    pub fn pending(&self) -> (r: FileRequest)
        ensures
            r@ == read_requested(self@),
    {
        match self.stage {
            ReadStage::Within => FileRequest::CheckWithin(self.path.clone(), false),
            ReadStage::Fetching => match self.kind {
                ReadKind::Info => FileRequest::Stat(self.path.clone()),
                ReadKind::Download => FileRequest::Open(self.path.clone()),
            },
            ReadStage::Refused(e) => FileRequest::Respond(refuse(e)),
            ReadStage::Found => FileRequest::Respond(
                FileReply::Found(self.decoded.clone(), self.path.clone()),
            ),
        }
    }

    /// Takes the answer to the pending request, moves on as `read_next`
    /// says, and returns the next request.
    pub fn step(&mut self, e: FileEvent) -> (r: FileRequest)
        requires
            read_inv(old(self)@),
        ensures
            final(self)@ == read_next(old(self)@, e),
            read_inv(final(self)@),
            r@ == read_requested(final(self)@),
    {
        let ghost v = self@;
        let ghost ev = e;
        proof {
            lemma_read_keeps_inv(v, ev);
        }
        match self.stage {
            ReadStage::Within => match e {
                FileEvent::Within(ok) => {
                    if ok {
                        self.confirmed = Ghost(self.confirmed@.insert(self.path@));
                        self.stage = ReadStage::Fetching;
                    } else {
                        self.stage = ReadStage::Refused(FileError::AccessDenied);
                    }
                },
                _ => {},
            },
            ReadStage::Fetching => match self.kind {
                ReadKind::Info => match e {
                    FileEvent::Stat(Some(_)) => {
                        self.stage = ReadStage::Found;
                    },
                    FileEvent::Stat(None) => {
                        self.stage = ReadStage::Refused(FileError::FileMissing);
                    },
                    _ => {},
                },
                ReadKind::Download => match e {
                    FileEvent::Done(ok) => {
                        self.stage = if ok {
                            ReadStage::Found
                        } else {
                            ReadStage::Refused(FileError::FileMissing)
                        };
                    },
                    _ => {},
                },
            },
            ReadStage::Refused(_) | ReadStage::Found => {},
        }
        assert(self@ =~= read_next(v, ev));
        self.pending()
    }
}

} // verus!
