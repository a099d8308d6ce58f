//! The browser client's state and its reaction to each event.
//!
//! Every event is a method of `ClientState`. It updates the state and
//! returns whether the page must be drawn again together with the commands
//! the caller must carry out, in order: calls to the server, changes to
//! input elements, timers, and messages the client sends itself.

use vstd::prelude::*;
use crate::str_map::StrMap;
use crate::file_ops::{percent_byte, percent_encoded, upper_hex_digit, utf8_char};
use crate::text::{
    concat_chars, copy, from_chars, join_chars, join_with, split_chars, split_on, to_chars,
    trim_whitespace, trim_ws,
};
use crate::size_format::{decimal, decimal_exec};
use crate::upload::lower_hex;

verus! {

broadcast use crate::lemmas::lemma_chars_deep_view;

/// The settings the server hands the client.
pub struct FrontendConfig {
    pub site_title: String,
    pub auto_upload: bool,
    pub show_file_list: bool,
    pub pin_required: bool,
    pub pin_length: usize,
    pub max_file_size: u64,
    pub client_max_retries: u32,
}

/// A notice shown for a few seconds; `toast_type` is `success`, `error` or
/// `info`.
pub struct Toast {
    pub id: usize,
    pub message: String,
    pub toast_type: String,
}

/// The item being renamed.
pub struct RenameData {
    pub item_path: String,
    pub current_name: String,
}

/// A file chosen for upload: its name, its path (relative for a folder
/// upload) and its size.
pub struct QueuedFile {
    pub name: String,
    pub path: String,
    pub size: u64,
}

/// The progress of one upload.
pub struct UploadEntry {
    pub name: String,
    pub path: String,
    pub size: u64,
    pub uploaded: u64,
    pub status: String,
    pub error_color: Option<String>,
}

/// What the caller must do after an event.
#[derive(Debug, PartialEq, Eq)]
pub enum Command {
    /// Set the document title.
    SetTitle(String),
    /// Ask the server whether the session is already signed in.
    CheckSession,
    /// Send the client the `RefreshFiles` event.
    RefreshFiles,
    /// Fetch the listing from the server.
    FetchFiles,
    /// Send the client the `VerifyPin` event.
    VerifyPin,
    /// Submit the PIN to the server.
    SubmitPin(String),
    /// Set the value of the PIN input at an index.
    SetPinInput(usize, String),
    /// Focus the PIN input at an index.
    FocusPin(usize),
    /// Clear every PIN input and focus the first one.
    ClearPinInputs,
    /// Sign out on the server, then send the client `RefreshFiles`.
    Logout,
    /// Store the theme and apply it to the page.
    SaveTheme(String),
    /// Send the client the `StartUploads` event.
    StartUploads,
    /// Upload the queued files in one batch, retrying a chunk up to the
    /// given number of times.
    RunUploads(usize),
    /// Clear the file and folder inputs.
    ClearFileInputs,
    /// Ask the user to confirm the deletion of a path with the given
    /// prompt, and delete it if they do.
    ConfirmDelete(String, String),
    /// Ask the server to rename a path.
    SubmitRename(String, String),
    /// Send the client the `AddToast` event with a message and a type.
    ShowToast(String, String),
    /// Send the client `RemoveToast` for this id in three seconds.
    ExpireToast(usize),
}

/// A command with its text as character sequences.
pub enum CommandView {
    SetTitle(Seq<char>),
    CheckSession,
    RefreshFiles,
    FetchFiles,
    VerifyPin,
    SubmitPin(Seq<char>),
    SetPinInput(usize, Seq<char>),
    FocusPin(usize),
    ClearPinInputs,
    Logout,
    SaveTheme(Seq<char>),
    StartUploads,
    RunUploads(usize),
    ClearFileInputs,
    ConfirmDelete(Seq<char>, Seq<char>),
    SubmitRename(Seq<char>, Seq<char>),
    ShowToast(Seq<char>, Seq<char>),
    ExpireToast(usize),
}

impl View for Command {
    type V = CommandView;

    open spec fn view(&self) -> CommandView {
        match self {
            Command::SetTitle(t) => CommandView::SetTitle(t@),
            Command::CheckSession => CommandView::CheckSession,
            Command::RefreshFiles => CommandView::RefreshFiles,
            Command::FetchFiles => CommandView::FetchFiles,
            Command::VerifyPin => CommandView::VerifyPin,
            Command::SubmitPin(p) => CommandView::SubmitPin(p@),
            Command::SetPinInput(i, v) => CommandView::SetPinInput(*i, v@),
            Command::FocusPin(i) => CommandView::FocusPin(*i),
            Command::ClearPinInputs => CommandView::ClearPinInputs,
            Command::Logout => CommandView::Logout,
            Command::SaveTheme(t) => CommandView::SaveTheme(t@),
            Command::StartUploads => CommandView::StartUploads,
            Command::RunUploads(n) => CommandView::RunUploads(*n),
            Command::ClearFileInputs => CommandView::ClearFileInputs,
            Command::ConfirmDelete(p, q) => CommandView::ConfirmDelete(p@, q@),
            Command::SubmitRename(p, n) => CommandView::SubmitRename(p@, n@),
            Command::ShowToast(m, k) => CommandView::ShowToast(m@, k@),
            Command::ExpireToast(i) => CommandView::ExpireToast(*i),
        }
    }
}

/// The commands of a list, as views.
pub open spec fn commands(v: Seq<Command>) -> Seq<CommandView> {
    v.map_values(|c: Command| c@)
}

pub open spec fn success() -> Seq<char> {
    "success"@
}

pub open spec fn error() -> Seq<char> {
    "error"@
}

/// A notice of the given type.
pub open spec fn toast(message: Seq<char>, kind: Seq<char>) -> CommandView {
    CommandView::ShowToast(message, kind)
}

/// The last `/`-separated piece of a path (the whole path without `/`).
pub open spec fn last_segment(path: Seq<char>) -> Seq<char> {
    split_on(path, seq!['/']).last()
}

fn last_segment_exec(path: &str) -> (r: String)
    ensures
        r@ == last_segment(path@),
{
    let p = to_chars(path);
    let sep = vec!['/'];
    assert(sep@ =~= seq!['/']);
    let parts = split_chars(p.as_slice(), sep.as_slice());
    proof {
        crate::text::lemma_split_on_nonempty(p@, seq!['/']);
    }
    let last = parts.len() - 1;
    assert(parts.deep_view()[last as int] == parts@[last as int]@);
    from_chars(parts[last].as_slice())
}

/// `a` followed by `b`.
fn cat(a: &str, b: &str) -> (r: String)
    ensures
        r@ == a@ + b@,
{
    let x = to_chars(a);
    let y = to_chars(b);
    from_chars(concat_chars(x.as_slice(), y.as_slice()).as_slice())
}

/// The settings, theme and drag highlight are unchanged.
pub open spec fn same_settings(a: ClientState, b: ClientState) -> bool {
    a.config == b.config && a.theme == b.theme && a.drag_over == b.drag_over
}

/// The sign-in part is unchanged: the PIN inputs, error, lockout and
/// whether signed in.
pub open spec fn same_sign_in(a: ClientState, b: ClientState) -> bool {
    &&& a.is_authenticated == b.is_authenticated
    &&& a.pin_digits == b.pin_digits
    &&& a.error_message == b.error_message
    &&& a.is_lockout == b.is_lockout
}

/// The upload part is unchanged: the queue, the progress table and
/// whether uploading.
pub open spec fn same_uploads(a: ClientState, b: ClientState) -> bool {
    a.upload_queue == b.upload_queue && a.active_uploads == b.active_uploads && a.is_uploading
        == b.is_uploading
}

/// The rename dialog is unchanged.
pub open spec fn same_rename(a: ClientState, b: ClientState) -> bool {
    a.rename_target == b.rename_target && a.rename_input == b.rename_input
}

/// The notices are unchanged.
pub open spec fn same_toasts(a: ClientState, b: ClientState) -> bool {
    a.toasts == b.toasts && a.next_toast_id == b.next_toast_id
}

/// The notices in order of their ids, each below the next id to hand out.
pub open spec fn toasts_ordered(s: ClientState) -> bool {
    &&& forall|i: int, j: int|
        0 <= i < j < s.toasts@.len() ==> (#[trigger] s.toasts@[i]).id < (#[trigger] s.toasts@[j]).id
    &&& forall|i: int| 0 <= i < s.toasts@.len() ==> (#[trigger] s.toasts@[i]).id < s.next_toast_id
}

/// The notices but those of id `k`.
pub open spec fn without_id(s: Seq<Toast>, k: usize) -> Seq<Toast> {
    s.filter(|t: Toast| t.id != k)
}

/// What an event may do to the notices: leave them and the next id as
/// they were, add one notice under the next id and advance the id, or drop
/// every notice of one id.
pub open spec fn toast_step(a: ClientState, b: ClientState) -> bool {
    ||| same_toasts(a, b)
    ||| {
        &&& b.next_toast_id == a.next_toast_id + 1
        &&& b.toasts@.len() == a.toasts@.len() + 1
        &&& b.toasts@.drop_last() == a.toasts@
        &&& b.toasts@.last().id == a.next_toast_id
    }
    ||| {
        &&& b.next_toast_id == a.next_toast_id
        &&& exists|k: usize| b.toasts@ == #[trigger] without_id(a.toasts@, k)
    }
}

/// Whatever the event, the notices stay in the order of their ids, each
/// below the next id, and the next id never falls. Every event method of
/// `ClientState` ensures `toast_step` (`add_toast` and `remove_toast`
/// state it, every other one states `same_toasts`), and a new state has
/// its notices in order.
pub proof fn lemma_toast_step_keeps_order(a: ClientState, b: ClientState)
    requires
        toasts_ordered(a),
        toast_step(a, b),
    ensures
        toasts_ordered(b),
        b.next_toast_id >= a.next_toast_id,
{
    if !same_toasts(a, b) && b.next_toast_id == a.next_toast_id + 1 && b.toasts@.len()
        == a.toasts@.len() + 1 && b.toasts@.drop_last() == a.toasts@ && b.toasts@.last().id
        == a.next_toast_id {
        assert forall|i: int| 0 <= i < a.toasts@.len() implies b.toasts@[i] == a.toasts@[i] by {
            assert(b.toasts@.drop_last()[i] == b.toasts@[i]);
        }
    } else if !same_toasts(a, b) {
        let k = choose|k: usize| b.toasts@ == #[trigger] without_id(a.toasts@, k);
        let keep = |t: Toast| t.id != k;
        lemma_filter_keeps_order(a.toasts@, keep);
        let f = a.toasts@.filter(keep);
        assert(b.toasts@ == f);
        assert forall|i: int| 0 <= i < f.len() implies (#[trigger] f[i]).id < b.next_toast_id by {
            assert(a.toasts@.contains(f[i]));
            let m = choose|m: int| 0 <= m < a.toasts@.len() && a.toasts@[m] == f[i];
            assert(a.toasts@[m].id < a.next_toast_id);
        }
    }
}

/// Keeping some of the notices keeps them in order.
proof fn lemma_filter_keeps_order(t: Seq<Toast>, p: spec_fn(Toast) -> bool)
    requires
        forall|i: int, j: int| 0 <= i < j < t.len() ==> (#[trigger] t[i]).id < (#[trigger] t[j]).id,
    ensures
        forall|i: int, j: int|
            0 <= i < j < t.filter(p).len() ==> (#[trigger] t.filter(p)[i]).id < (#[trigger] t.filter(
                p,
            )[j]).id,
        forall|i: int| 0 <= i < t.filter(p).len() ==> t.contains(#[trigger] t.filter(p)[i]),
    decreases t.len(),
{
    reveal(Seq::filter);
    if t.len() > 0 {
        let d = t.drop_last();
        assert forall|i: int, j: int| 0 <= i < j < d.len() implies (#[trigger] d[i]).id < (
        #[trigger] d[j]).id by {
            assert(d[i] == t[i] && d[j] == t[j]);
        }
        lemma_filter_keeps_order(d, p);
        let fd = d.filter(p);
        let f = t.filter(p);
        assert forall|i: int| 0 <= i < fd.len() implies t.contains(#[trigger] fd[i]) && fd[i].id
            < t.last().id by {
            assert(d.contains(fd[i]));
            let k = choose|k: int| 0 <= k < d.len() && d[k] == fd[i];
            assert(t[k] == fd[i]);
            assert(t[k].id < t[t.len() - 1].id);
        }
        if p(t.last()) {
            assert(f == fd.push(t.last()));
            assert forall|i: int| 0 <= i < f.len() implies t.contains(#[trigger] f[i]) by {
                if i < fd.len() {
                    assert(f[i] == fd[i]);
                } else {
                    assert(t[t.len() - 1] == f[i]);
                }
            }
            assert forall|i: int, j: int| 0 <= i < j < f.len() implies (#[trigger] f[i]).id < (
            #[trigger] f[j]).id by {
                assert(f[i] == fd[i]);
                if j < fd.len() {
                    assert(f[j] == fd[j]);
                } else {
                    assert(f[j] == t.last());
                }
            }
        } else {
            assert(f == fd);
        }
    }
}

/// The state of the client.
pub struct ClientState {
    pub config: Option<FrontendConfig>,
    pub is_authenticated: bool,
    pub theme: String,
    pub pin_digits: Vec<String>,
    pub error_message: Option<String>,
    pub is_lockout: bool,
    pub upload_queue: Vec<QueuedFile>,
    pub active_uploads: StrMap<UploadEntry>,
    pub is_uploading: bool,
    pub drag_over: bool,
    pub rename_target: Option<RenameData>,
    pub rename_input: String,
    pub toasts: Vec<Toast>,
    pub next_toast_id: usize,
}

impl ClientState {
    /// Every PIN input holds nothing or one ASCII digit, and the upload
    /// table is well formed.
    pub open spec fn wf(&self) -> bool {
        &&& self.active_uploads.wf()
        &&& forall|i: int|
            0 <= i < self.pin_digits@.len() ==> pin_cell(#[trigger] self.pin_digits@[i]@)
    }

    /// The state before the settings arrive.
    pub fn new(theme: String) -> (r: Self)
        ensures
            r.wf(),
            r.config is None,
            !r.is_authenticated,
            r.theme@ == theme@,
            r.pin_digits@.len() == 0,
            r.error_message is None,
            !r.is_lockout,
            r.upload_queue@.len() == 0,
            r.active_uploads@ == Map::<Seq<char>, UploadEntry>::empty(),
            !r.is_uploading,
            !r.drag_over,
            r.rename_target is None,
            r.rename_input@.len() == 0,
            r.toasts@.len() == 0,
            r.next_toast_id == 0,
            toasts_ordered(r),
    {
        ClientState {
            config: None,
            is_authenticated: false,
            theme,
            pin_digits: Vec::new(),
            error_message: None,
            is_lockout: false,
            upload_queue: Vec::new(),
            active_uploads: StrMap::new(),
            is_uploading: false,
            drag_over: false,
            rename_target: None,
            rename_input: String::new(),
            toasts: Vec::new(),
            next_toast_id: 0,
        }
    }

    /// The theme toggles between `light` and `dark`, and is stored and
    /// applied.
    pub fn toggle_theme(&mut self) -> (r: (bool, Vec<Command>))
        ensures
            final(self).theme@ == (if old(self).theme@ == "light"@ {
                "dark"@
            } else {
                "light"@
            }),
            commands(r.1@) == seq![CommandView::SaveTheme(final(self).theme@)],
            r.0,
            final(self).pin_digits == old(self).pin_digits,
            final(self).active_uploads == old(self).active_uploads,
            final(self).toasts == old(self).toasts,
            same_sign_in(*old(self), *final(self)),
            same_uploads(*old(self), *final(self)),
            same_rename(*old(self), *final(self)),
            same_toasts(*old(self), *final(self)),
            final(self).config == old(self).config,
            final(self).drag_over == old(self).drag_over,
    {
        let light = "light";
        let t = to_chars(self.theme.as_str());
        let l = to_chars(light);
        self.theme = if crate::text::chars_eq(t.as_slice(), l.as_slice()) {
            from_chars(to_chars("dark").as_slice())
        } else {
            from_chars(l.as_slice())
        };
        let saved = from_chars(to_chars(self.theme.as_str()).as_slice());
        let cmds = vec![Command::SaveTheme(saved)];
        assert(commands(cmds@) =~= seq![CommandView::SaveTheme(self.theme@)]);
        (true, cmds)
    }

    /// The drop zone is highlighted while something is dragged over it; the
    /// page is drawn again only when that changes.
    pub fn drag_over(&mut self, over: bool) -> (r: (bool, Vec<Command>))
        ensures
            final(self).drag_over == over,
            r.0 == (old(self).drag_over != over),
            r.1@.len() == 0,
            final(self).theme == old(self).theme,
            final(self).pin_digits == old(self).pin_digits,
            final(self).active_uploads == old(self).active_uploads,
            final(self).toasts == old(self).toasts,
            same_sign_in(*old(self), *final(self)),
            same_uploads(*old(self), *final(self)),
            same_rename(*old(self), *final(self)),
            same_toasts(*old(self), *final(self)),
            final(self).config == old(self).config,
    {
        if self.drag_over != over {
            self.drag_over = over;
            (true, Vec::new())
        } else {
            (false, Vec::new())
        }
    }

    /// A notice is added under the next id, and removed three seconds
    /// later.
    pub fn add_toast(&mut self, message: String, toast_type: String) -> (r: (bool, Vec<Command>))
        requires
            old(self).next_toast_id < usize::MAX,
        ensures
            final(self).next_toast_id == old(self).next_toast_id + 1,
            final(self).toasts@.len() == old(self).toasts@.len() + 1,
            final(self).toasts@.drop_last() == old(self).toasts@,
            final(self).toasts@.last().id == old(self).next_toast_id,
            final(self).toasts@.last().message@ == message@,
            final(self).toasts@.last().toast_type@ == toast_type@,
            commands(r.1@) == seq![CommandView::ExpireToast(old(self).next_toast_id)],
            r.0,
            toasts_ordered(*old(self)) ==> toasts_ordered(*final(self)),
            toast_step(*old(self), *final(self)),
            same_settings(*old(self), *final(self)),
            same_sign_in(*old(self), *final(self)),
            same_uploads(*old(self), *final(self)),
            same_rename(*old(self), *final(self)),
    {
        let id = self.next_toast_id;
        self.next_toast_id = self.next_toast_id + 1;
        let ghost before = self.toasts@;
        self.toasts.push(Toast { id, message, toast_type });
        proof {
            assert forall|i: int| 0 <= i < before.len() implies self.toasts@[i] == before[i] by {}
            assert(self.toasts@.drop_last() =~= before);
            assert(self.toasts@.last().id == id);
        }
        let cmds = vec![Command::ExpireToast(id)];
        assert(commands(cmds@) =~= seq![CommandView::ExpireToast(id)]);
        (true, cmds)
    }

    /// Every notice with this id is removed.
    pub fn remove_toast(&mut self, id: usize) -> (r: (bool, Vec<Command>))
        ensures
            final(self).toasts@ == old(self).toasts@.filter(|t: Toast| t.id != id),
            final(self).next_toast_id == old(self).next_toast_id,
            r.0,
            r.1@.len() == 0,
            toasts_ordered(*old(self)) ==> toasts_ordered(*final(self)),
            toast_step(*old(self), *final(self)),
            same_settings(*old(self), *final(self)),
            same_sign_in(*old(self), *final(self)),
            same_uploads(*old(self), *final(self)),
            same_rename(*old(self), *final(self)),
    {
        let ghost orig = self.toasts@;
        let mut kept: Vec<Toast> = Vec::new();
        let mut rest: Vec<Toast> = Vec::new();
        std::mem::swap(&mut rest, &mut self.toasts);
        let n0 = rest.len();
        let ghost n = n0 as nat;
        assert(rest@ == orig);
        let mut i: usize = 0;
        while rest.len() > 0
            invariant
                i + rest@.len() == n,
                n == orig.len(),
                n <= usize::MAX,
                rest@ == orig.skip(i as int),
                kept@ == orig.take(i as int).filter(|t: Toast| t.id != id),
            decreases rest.len(),
        {
            let t = rest.remove(0);
            proof {
                assert(orig.take(i + 1).drop_last() == orig.take(i as int));
                assert(orig.take(i + 1).last() == t);
                assert(orig.skip(i as int).remove(0) == orig.skip(i + 1));
                vstd::seq_lib::lemma_seq_skip_index::<Toast>(orig, i as int, 0);
                reveal(Seq::filter);
            }
            if t.id != id {
                kept.push(t);
            }
            i = i + 1;
        }
        assert(orig.take(n as int) == orig);
        self.toasts = kept;
        proof {
            assert(self.toasts@ == without_id(orig, id));
            if toasts_ordered(*old(self)) {
                let keep = |t: Toast| t.id != id;
                lemma_filter_keeps_order(orig, keep);
                let f = orig.filter(keep);
                assert forall|i: int| 0 <= i < f.len() implies (#[trigger] f[i]).id
                    < self.next_toast_id by {
                    assert(orig.contains(f[i]));
                    let k = choose|k: int| 0 <= k < orig.len() && orig[k] == f[i];
                    assert(old(self).toasts@[k] == f[i]);
                }
            }
        }
        (true, Vec::new())
    }

    /// The rename dialog opens on an item, with its current name in the
    /// input.
    pub fn start_rename(&mut self, path: String, current_name: String) -> (r: (bool, Vec<Command>))
        ensures
            final(self).rename_target matches Some(t) && t.item_path@ == path@
                && t.current_name@ == current_name@,
            final(self).rename_input@ == current_name@,
            r.0,
            r.1@.len() == 0,
            same_settings(*old(self), *final(self)),
            same_sign_in(*old(self), *final(self)),
            same_uploads(*old(self), *final(self)),
            same_toasts(*old(self), *final(self)),
    {
        let input = from_chars(to_chars(current_name.as_str()).as_slice());
        self.rename_target = Some(RenameData { item_path: path, current_name });
        self.rename_input = input;
        (true, Vec::new())
    }

    /// The rename dialog closes and its input is cleared.
    pub fn cancel_rename(&mut self) -> (r: (bool, Vec<Command>))
        ensures
            final(self).rename_target is None,
            final(self).rename_input@.len() == 0,
            r.0,
            r.1@.len() == 0,
            same_settings(*old(self), *final(self)),
            same_sign_in(*old(self), *final(self)),
            same_uploads(*old(self), *final(self)),
            same_toasts(*old(self), *final(self)),
    {
        self.rename_target = None;
        self.rename_input = String::new();
        (true, Vec::new())
    }

    /// The rename input now holds `value`.
    pub fn rename_input_changed(&mut self, value: String) -> (r: (bool, Vec<Command>))
        ensures
            final(self).rename_input@ == value@,
            final(self).rename_target == old(self).rename_target,
            r.0,
            r.1@.len() == 0,
            same_settings(*old(self), *final(self)),
            same_sign_in(*old(self), *final(self)),
            same_uploads(*old(self), *final(self)),
            same_toasts(*old(self), *final(self)),
    {
        self.rename_input = value;
        (true, Vec::new())
    }

    /// A non-blank new name is submitted for the item of the open dialog
    /// (trimmed), and the dialog's item is cleared; a blank name does
    /// nothing.
    pub fn confirm_rename(&mut self) -> (r: (bool, Vec<Command>))
        ensures
            !r.0,
            trim_ws(old(self).rename_input@).len() == 0 ==> final(self).rename_target
                == old(self).rename_target && r.1@.len() == 0,
            trim_ws(old(self).rename_input@).len() > 0 ==> final(self).rename_target is None
                && commands(r.1@) == match old(self).rename_target {
                Some(t) => seq![
                    CommandView::SubmitRename(t.item_path@, trim_ws(old(self).rename_input@)),
                ],
                None => Seq::<CommandView>::empty(),
            },
            final(self).rename_input == old(self).rename_input,
            same_settings(*old(self), *final(self)),
            same_sign_in(*old(self), *final(self)),
            same_uploads(*old(self), *final(self)),
            same_toasts(*old(self), *final(self)),
    {
        let input = to_chars(self.rename_input.as_str());
        let trimmed = trim_whitespace(input.as_slice());
        if trimmed.len() == 0 {
            return (false, Vec::new());
        }
        let target = self.rename_target.take();
        match target {
            Some(t) => {
                let cmds = vec![Command::SubmitRename(t.item_path, from_chars(trimmed.as_slice()))];
                assert(commands(cmds@) =~= seq![
                    CommandView::SubmitRename(t.item_path@, trim_ws(self.rename_input@)),
                ]);
                (false, cmds)
            },
            None => {
                let cmds: Vec<Command> = Vec::new();
                assert(commands(cmds@) =~= Seq::<CommandView>::empty());
                (false, cmds)
            },
        }
    }

    /// The dialog closes; success reports the new name and refreshes the
    /// listing, failure reports the error.
    pub fn rename_result(&mut self, result: Result<String, String>) -> (r: (bool, Vec<Command>))
        ensures
            final(self).rename_target is None,
            final(self).rename_input@.len() == 0,
            r.0,
            commands(r.1@) == match result {
                Ok(n) => seq![toast("Renamed to: "@ + n@, success()), CommandView::RefreshFiles],
                Err(e) => seq![toast("Rename failed: "@ + e@, error())],
            },
            same_settings(*old(self), *final(self)),
            same_sign_in(*old(self), *final(self)),
            same_uploads(*old(self), *final(self)),
            same_toasts(*old(self), *final(self)),
    {
        self.rename_target = None;
        self.rename_input = String::new();
        match result {
            Ok(n) => {
                let msg = cat("Renamed to: ", n.as_str());
                let cmds = vec![Command::ShowToast(msg, from_chars(to_chars("success").as_slice())), Command::RefreshFiles];
                assert(commands(cmds@) =~= seq![toast("Renamed to: "@ + n@, success()), CommandView::RefreshFiles]);
                (true, cmds)
            },
            Err(e) => {
                let msg = cat("Rename failed: ", e.as_str());
                let cmds = vec![Command::ShowToast(msg, from_chars(to_chars("error").as_slice()))];
                assert(commands(cmds@) =~= seq![toast("Rename failed: "@ + e@, error())]);
                (true, cmds)
            },
        }
    }
}

/// A PIN input's content: nothing or one ASCII digit.
pub open spec fn pin_cell(s: Seq<char>) -> bool {
    s.len() == 0 || (s.len() == 1 && '0' <= s[0] && s[0] <= '9')
}

/// The ASCII digits of a text, in order.
pub open spec fn digits_of(s: Seq<char>) -> Seq<char>
    decreases s.len(),
{
    if s.len() == 0 {
        Seq::<char>::empty()
    } else if '0' <= s.last() && s.last() <= '9' {
        digits_of(s.drop_last()).push(s.last())
    } else {
        digits_of(s.drop_last())
    }
}

fn digits_exec(s: &str) -> (r: Vec<char>)
    ensures
        r@ == digits_of(s@),
        forall|i: int| 0 <= i < r@.len() ==> '0' <= #[trigger] r@[i] && r@[i] <= '9',
{
    let v = to_chars(s);
    let mut r: Vec<char> = Vec::new();
    let mut i: usize = 0;
    while i < v.len()
        invariant
            i <= v@.len(),
            r@ == digits_of(v@.take(i as int)),
            forall|k: int| 0 <= k < r@.len() ==> '0' <= #[trigger] r@[k] && r@[k] <= '9',
        decreases v.len() - i,
    {
        assert(v@.take(i + 1).drop_last() == v@.take(i as int));
        let c = v[i];
        if '0' <= c && c <= '9' {
            r.push(c);
        }
        i = i + 1;
    }
    assert(v@.take(v@.len() as int) == v@);
    r
}

/// The texts of a list of strings.
pub open spec fn texts(v: Seq<String>) -> Seq<Seq<char>> {
    v.map_values(|s: String| s@)
}

/// The texts one after the other.
pub open spec fn concat_all(parts: Seq<Seq<char>>) -> Seq<char>
    decreases parts.len(),
{
    if parts.len() == 0 {
        Seq::<char>::empty()
    } else {
        concat_all(parts.drop_last()) + parts.last()
    }
}

/// Every PIN input holds a digit.
pub open spec fn all_filled(cells: Seq<Seq<char>>) -> bool {
    forall|i: int| 0 <= i < cells.len() ==> (#[trigger] cells[i]).len() > 0
}

/// The index of the first empty PIN input (the length when there is none).
pub open spec fn first_empty(cells: Seq<Seq<char>>) -> int
    decreases cells.len(),
{
    if cells.len() == 0 {
        0
    } else if first_empty(cells.drop_last()) < cells.len() - 1 {
        first_empty(cells.drop_last())
    } else if cells.last().len() == 0 {
        cells.len() - 1
    } else {
        cells.len() as int
    }
}

proof fn lemma_first_empty(cells: Seq<Seq<char>>)
    ensures
        0 <= first_empty(cells) <= cells.len(),
        first_empty(cells) < cells.len() ==> cells[first_empty(cells)].len() == 0,
        forall|k: int| 0 <= k < first_empty(cells) ==> (#[trigger] cells[k]).len() > 0,
        first_empty(cells) == cells.len() <==> all_filled(cells),
    decreases cells.len(),
{
    if cells.len() > 0 {
        let d = cells.drop_last();
        lemma_first_empty(d);
        let f = first_empty(d);
        assert forall|k: int| 0 <= k < cells.len() - 1 implies #[trigger] d[k] == cells[k] by {}
        if f < cells.len() - 1 {
            assert(cells[f] == d[f]);
            assert forall|k: int| 0 <= k < f implies (#[trigger] cells[k]).len() > 0 by {
                assert(d[k] == cells[k]);
            }
        } else if cells.last().len() == 0 {
            assert forall|k: int| 0 <= k < cells.len() - 1 implies (#[trigger] cells[k]).len()
                > 0 by {
                assert(d[k] == cells[k]);
            }
        } else {
            assert forall|k: int| 0 <= k < cells.len() implies (#[trigger] cells[k]).len() > 0 by {
                if k < cells.len() - 1 {
                    assert(d[k] == cells[k]);
                }
            }
        }
    } else {
        assert(all_filled(cells));
    }
}

/// The PIN inputs after pasting digits: the first ones take the digits, in
/// order; the others keep their content.
pub open spec fn pasted(cells: Seq<Seq<char>>, digits: Seq<char>) -> Seq<Seq<char>> {
    Seq::new(cells.len(), |i: int| if i < digits.len() { seq![digits[i]] } else { cells[i] })
}

/// One `SetPinInput` per pasted digit.
pub open spec fn paste_commands(n: nat, digits: Seq<char>) -> Seq<CommandView> {
    Seq::new(
        if digits.len() < n {
            digits.len()
        } else {
            n
        },
        |i: int| CommandView::SetPinInput(i as usize, seq![digits[i]]),
    )
}

/// Whether `t` occurs in `s`.
pub open spec fn has_substring(s: Seq<char>, t: Seq<char>) -> bool {
    exists|i: int| 0 <= i && i + t.len() <= s.len() && #[trigger] s.subrange(i, i + t.len()) == t
}

fn has_substring_exec(s: &str, t: &str) -> (r: bool)
    ensures
        r == has_substring(s@, t@),
{
    let a = to_chars(s);
    let b = to_chars(t);
    if b.len() > a.len() {
        return false;
    }
    if b.len() == 0 {
        assert(s@.subrange(0int, 0int + t@.len()) =~= t@);
        return true;
    }
    let al = a.len();
    let bl = b.len();
    let last = al - bl;
    let mut i: usize = 0;
    while i <= last
        invariant
            a@ == s@,
            b@ == t@,
            1 <= b@.len() <= a@.len(),
            al == a@.len(),
            bl == b@.len(),
            last == al - bl,
            i <= last + 1,
            forall|k: int| 0 <= k < i ==> #[trigger] a@.subrange(k, k + b@.len()) != b@,
        decreases last + 1 - i,
    {
        let piece = crate::text::slice_chars(a.as_slice(), i, i + bl);
        if crate::text::chars_eq(piece.as_slice(), b.as_slice()) {
            assert(a@.subrange(i as int, i + b@.len()) == b@);
            return true;
        }
        i = i + 1;
    }
    false
}

impl ClientState {
    /// The PIN inputs all emptied.
    fn clear_pin_digits(&mut self)
        requires
            old(self).wf(),
        ensures
            final(self).wf(),
            texts(final(self).pin_digits@) == empty_cells(old(self).pin_digits@.len()),
            final(self).pin_digits@.len() == old(self).pin_digits@.len(),
            final(self).active_uploads == old(self).active_uploads,
            final(self).is_lockout == old(self).is_lockout,
            final(self).is_authenticated == old(self).is_authenticated,
            final(self).error_message == old(self).error_message,
            final(self).config == old(self).config,
            same_settings(*old(self), *final(self)),
            same_uploads(*old(self), *final(self)),
            same_rename(*old(self), *final(self)),
            same_toasts(*old(self), *final(self)),
    {
        let n = self.pin_digits.len();
        let mut cleared: Vec<String> = Vec::new();
        let mut i: usize = 0;
        while i < n
            invariant
                i <= n,
                texts(cleared@) =~= empty_cells(i as nat),
            decreases n - i,
        {
            let ghost c0 = texts(cleared@);
            cleared.push(String::new());
            assert(texts(cleared@) =~= c0.push(Seq::<char>::empty()));
            i = i + 1;
        }
        assert forall|k: int| 0 <= k < cleared@.len() implies pin_cell(#[trigger] cleared@[k]@) by {
            assert(texts(cleared@)[k] == cleared@[k]@);
        }
        assert(cleared@.len() == texts(cleared@).len());
        self.pin_digits = cleared;
    }

    /// Typing into a PIN input keeps its first digit (an input without a
    /// digit is emptied) and moves on to the next input; filling the last
    /// input submits the PIN once every input is filled. Nothing happens
    /// while locked out.
    pub fn pin_digit_input(&mut self, idx: usize, value: &str) -> (r: (bool, Vec<Command>))
        requires
            old(self).wf(),
            !old(self).is_lockout ==> idx < old(self).pin_digits@.len(),
        ensures
            final(self).wf(),
            final(self).is_lockout == old(self).is_lockout,
            final(self).error_message == old(self).error_message,
            final(self).is_authenticated == old(self).is_authenticated,
            old(self).is_lockout ==> !r.0 && r.1@.len() == 0 && *final(self) == *old(self),
            !old(self).is_lockout ==> r.0 && ({
                let d = digits_of(value@);
                let n = old(self).pin_digits@.len();
                if d.len() > 0 {
                    &&& texts(final(self).pin_digits@) == texts(old(self).pin_digits@).update(
                        idx as int,
                        seq![d[0]],
                    )
                    &&& commands(r.1@) == seq![CommandView::SetPinInput(idx, seq![d[0]])] + (if idx
                        < n - 1 {
                        seq![CommandView::FocusPin((idx + 1) as usize)]
                    } else if all_filled(texts(final(self).pin_digits@)) {
                        seq![CommandView::VerifyPin]
                    } else {
                        Seq::<CommandView>::empty()
                    })
                } else {
                    &&& texts(final(self).pin_digits@) == texts(old(self).pin_digits@).update(
                        idx as int,
                        Seq::<char>::empty(),
                    )
                    &&& commands(r.1@) == seq![CommandView::SetPinInput(idx, Seq::<char>::empty())]
                }
            }),
            same_settings(*old(self), *final(self)),
            same_uploads(*old(self), *final(self)),
            same_rename(*old(self), *final(self)),
            same_toasts(*old(self), *final(self)),
    {
        if self.is_lockout {
            return (false, Vec::new());
        }
        let d = digits_exec(value);
        let n = self.pin_digits.len();
        let ghost before = texts(self.pin_digits@);
        if d.len() > 0 {
            let one = vec![d[0]];
            assert(one@ =~= seq![d@[0]]);
            self.pin_digits.set(idx, from_chars(one.as_slice()));
            assert(texts(self.pin_digits@) =~= before.update(idx as int, seq![d@[0]]));
            let mut cmds = vec![Command::SetPinInput(idx, from_chars(one.as_slice()))];
            if idx < n - 1 {
                cmds.push(Command::FocusPin(idx + 1));
            } else {
                let filled = self.all_pin_filled();
                if filled {
                    cmds.push(Command::VerifyPin);
                }
            }
            assert(commands(cmds@) =~= seq![CommandView::SetPinInput(idx, seq![d@[0]])] + (if idx
                < n - 1 {
                seq![CommandView::FocusPin((idx + 1) as usize)]
            } else if all_filled(texts(self.pin_digits@)) {
                seq![CommandView::VerifyPin]
            } else {
                Seq::<CommandView>::empty()
            }));
            (true, cmds)
        } else {
            self.pin_digits.set(idx, String::new());
            assert(texts(self.pin_digits@) =~= before.update(idx as int, Seq::<char>::empty()));
            let cmds = vec![Command::SetPinInput(idx, String::new())];
            assert(commands(cmds@) =~= seq![CommandView::SetPinInput(idx, Seq::<char>::empty())]);
            (true, cmds)
        }
    }

    /// Whether every PIN input holds a digit.
    fn all_pin_filled(&self) -> (r: bool)
        ensures
            r == all_filled(texts(self.pin_digits@)),
    {
        let mut i: usize = 0;
        while i < self.pin_digits.len()
            invariant
                i <= self.pin_digits@.len(),
                forall|k: int| 0 <= k < i ==> (#[trigger] self.pin_digits@[k])@.len() > 0,
            decreases self.pin_digits.len() - i,
        {
            if to_chars(self.pin_digits[i].as_str()).len() == 0 {
                assert(texts(self.pin_digits@)[i as int].len() == 0);
                return false;
            }
            i = i + 1;
        }
        assert forall|k: int| 0 <= k < texts(self.pin_digits@).len() implies (
        #[trigger] texts(self.pin_digits@)[k]).len() > 0 by {
            assert(texts(self.pin_digits@)[k] == self.pin_digits@[k]@);
        }
        true
    }

    /// Backspace in an empty PIN input empties the one before it and moves
    /// there. Nothing happens while locked out.
    pub fn pin_backspace(&mut self, idx: usize) -> (r: (bool, Vec<Command>))
        requires
            old(self).wf(),
            !old(self).is_lockout ==> idx < old(self).pin_digits@.len(),
        ensures
            final(self).wf(),
            final(self).is_lockout == old(self).is_lockout,
            final(self).error_message == old(self).error_message,
            final(self).is_authenticated == old(self).is_authenticated,
            old(self).is_lockout ==> !r.0 && r.1@.len() == 0 && *final(self) == *old(self),
            (!old(self).is_lockout && old(self).pin_digits@[idx as int]@.len() == 0 && idx > 0)
                ==> r.0 && texts(final(self).pin_digits@) == texts(old(self).pin_digits@).update(
                idx - 1,
                Seq::<char>::empty(),
            ) && commands(r.1@) == seq![
                CommandView::SetPinInput((idx - 1) as usize, Seq::<char>::empty()),
                CommandView::FocusPin((idx - 1) as usize),
            ],
            !(!old(self).is_lockout && old(self).pin_digits@[idx as int]@.len() == 0 && idx > 0)
                ==> !r.0 && r.1@.len() == 0 && final(self).pin_digits == old(self).pin_digits,
            same_settings(*old(self), *final(self)),
            same_uploads(*old(self), *final(self)),
            same_rename(*old(self), *final(self)),
            same_toasts(*old(self), *final(self)),
    {
        if self.is_lockout {
            return (false, Vec::new());
        }
        let cur = to_chars(self.pin_digits[idx].as_str());
        if cur.len() == 0 && idx > 0 {
            let ghost before = texts(self.pin_digits@);
            self.pin_digits.set(idx - 1, String::new());
            assert(texts(self.pin_digits@) =~= before.update(idx - 1, Seq::<char>::empty()));
            let cmds = vec![Command::SetPinInput(idx - 1, String::new()), Command::FocusPin(idx - 1)];
            assert(commands(cmds@) =~= seq![
                CommandView::SetPinInput((idx - 1) as usize, Seq::<char>::empty()),
                CommandView::FocusPin((idx - 1) as usize),
            ]);
            (true, cmds)
        } else {
            (false, Vec::new())
        }
    }

    /// Pasting fills the PIN inputs with the pasted digits from the first
    /// one on; the PIN is then submitted if every input is filled, and the
    /// first empty input is focused otherwise. A paste without digits, or
    /// any paste while locked out, does nothing.
    pub fn pin_paste(&mut self, text: &str) -> (r: (bool, Vec<Command>))
        requires
            old(self).wf(),
        ensures
            final(self).wf(),
            final(self).is_lockout == old(self).is_lockout,
            final(self).error_message == old(self).error_message,
            final(self).is_authenticated == old(self).is_authenticated,
            (old(self).is_lockout || digits_of(text@).len() == 0) ==> !r.0 && r.1@.len() == 0
                && *final(self) == *old(self),
            !(old(self).is_lockout || digits_of(text@).len() == 0) ==> r.0 && texts(
                final(self).pin_digits@,
            ) == pasted(texts(old(self).pin_digits@), digits_of(text@)) && commands(r.1@)
                == paste_commands(old(self).pin_digits@.len(), digits_of(text@)) + (if all_filled(
                texts(final(self).pin_digits@),
            ) {
                seq![CommandView::VerifyPin]
            } else {
                seq![CommandView::FocusPin(first_empty(texts(final(self).pin_digits@)) as usize)]
            }),
            same_settings(*old(self), *final(self)),
            same_uploads(*old(self), *final(self)),
            same_rename(*old(self), *final(self)),
            same_toasts(*old(self), *final(self)),
    {
        if self.is_lockout {
            return (false, Vec::new());
        }
        let d = digits_exec(text);
        if d.len() == 0 {
            return (false, Vec::new());
        }
        let n = self.pin_digits.len();
        let ghost before = texts(self.pin_digits@);
        let ghost dv = d@;
        let mut cmds: Vec<Command> = Vec::new();
        let mut i: usize = 0;
        while i < d.len() && i < n
            invariant
                n == self.pin_digits@.len(),
                d@ == dv,
                forall|k: int| 0 <= k < dv.len() ==> '0' <= #[trigger] dv[k] && dv[k] <= '9',
                i <= n,
                i <= dv.len(),
                self.active_uploads.wf(),
                self.is_lockout == old(self).is_lockout,
                self.error_message == old(self).error_message,
                self.is_authenticated == old(self).is_authenticated,
                same_settings(*old(self), *self),
                same_uploads(*old(self), *self),
                same_rename(*old(self), *self),
                same_toasts(*old(self), *self),
                forall|k: int| 0 <= k < n ==> pin_cell(#[trigger] self.pin_digits@[k]@),
                texts(self.pin_digits@) =~= Seq::new(
                    n as nat,
                    |k: int| if k < i { seq![dv[k]] } else { before[k] },
                ),
                commands(cmds@) =~= Seq::new(
                    i as nat,
                    |k: int| CommandView::SetPinInput(k as usize, seq![dv[k]]),
                ),
            decreases n - i,
        {
            let one = vec![d[i]];
            assert(one@ =~= seq![dv[i as int]]);
            let ghost t0 = texts(self.pin_digits@);
            let ghost c0 = commands(cmds@);
            self.pin_digits.set(i, from_chars(one.as_slice()));
            assert(texts(self.pin_digits@) =~= t0.update(i as int, seq![dv[i as int]]));
            cmds.push(Command::SetPinInput(i, from_chars(one.as_slice())));
            assert(commands(cmds@) =~= c0.push(CommandView::SetPinInput(i, seq![dv[i as int]])));
            i = i + 1;
        }
        let ghost now = texts(self.pin_digits@);
        assert(now =~= pasted(before, dv));
        assert(commands(cmds@) =~= paste_commands(n as nat, dv));
        let ghost head = commands(cmds@);
        proof {
            lemma_first_empty(now);
        }
        if self.all_pin_filled() {
            cmds.push(Command::VerifyPin);
            assert(commands(cmds@) =~= head + seq![CommandView::VerifyPin]);
        } else {
            let k = self.first_empty_pin();
            cmds.push(Command::FocusPin(k));
            assert(commands(cmds@) =~= head + seq![CommandView::FocusPin(first_empty(now) as usize)]);
        }
        (true, cmds)
    }

    /// The index of the first empty PIN input.
    fn first_empty_pin(&self) -> (r: usize)
        ensures
            r == first_empty(texts(self.pin_digits@)),
    {
        let ghost cells = texts(self.pin_digits@);
        let mut i: usize = 0;
        while i < self.pin_digits.len()
            invariant
                i <= self.pin_digits@.len(),
                cells == texts(self.pin_digits@),
                first_empty(cells.take(i as int)) == i,
            decreases self.pin_digits.len() - i,
        {
            assert(cells.take(i + 1).drop_last() == cells.take(i as int));
            if to_chars(self.pin_digits[i].as_str()).len() == 0 {
                assert(first_empty(cells.take(i + 1)) == i);
                proof {
                    lemma_first_empty_prefix(cells, i + 1);
                }
                return i;
            }
            i = i + 1;
        }
        assert(cells.take(i as int) == cells);
        i
    }

    /// The PIN, all inputs put together, is submitted once it is complete.
    pub fn verify_pin(&self) -> (r: (bool, Vec<Command>))
        ensures
            !r.0,
            concat_all(texts(self.pin_digits@)).len() < self.pin_digits@.len() ==> r.1@.len()
                == 0,
            concat_all(texts(self.pin_digits@)).len() >= self.pin_digits@.len() ==> commands(r.1@)
                == seq![CommandView::SubmitPin(concat_all(texts(self.pin_digits@)))],
    {
        let ghost cells = texts(self.pin_digits@);
        let mut pin: Vec<char> = Vec::new();
        let mut i: usize = 0;
        while i < self.pin_digits.len()
            invariant
                i <= self.pin_digits@.len(),
                cells == texts(self.pin_digits@),
                pin@ == concat_all(cells.take(i as int)),
            decreases self.pin_digits.len() - i,
        {
            assert(cells.take(i + 1).drop_last() == cells.take(i as int));
            let c = to_chars(self.pin_digits[i].as_str());
            pin = concat_chars(pin.as_slice(), c.as_slice());
            i = i + 1;
        }
        assert(cells.take(i as int) == cells);
        if pin.len() < self.pin_digits.len() {
            return (false, Vec::new());
        }
        let cmds = vec![Command::SubmitPin(from_chars(pin.as_slice()))];
        assert(commands(cmds@) =~= seq![CommandView::SubmitPin(concat_all(cells))]);
        (false, cmds)
    }
}

/// A prefix ending at an empty input has it as its first empty input, and
/// so does the whole.
proof fn lemma_first_empty_prefix(cells: Seq<Seq<char>>, m: int)
    requires
        0 < m <= cells.len(),
        first_empty(cells.take(m)) == m - 1,
    ensures
        first_empty(cells) == m - 1,
    decreases cells.len(),
{
    if cells.len() > m {
        assert(cells.drop_last().take(m) == cells.take(m));
        lemma_first_empty_prefix(cells.drop_last(), m);
    } else {
        assert(cells.take(m) == cells);
    }
}

/// Whether an authentication error means the client is locked out.
pub open spec fn lockout_error(e: Seq<char>) -> bool {
    has_substring(e, "Too many"@) || has_substring(e, "locked"@)
}

/// A text held by an optional string.
pub open spec fn opt_text(o: Option<String>) -> Option<Seq<char>> {
    match o {
        Some(s) => Some(s@),
        None => None,
    }
}

/// `n` empty texts.
pub open spec fn empty_cells(n: nat) -> Seq<Seq<char>> {
    Seq::new(n, |i: int| Seq::<char>::empty())
}

impl ClientState {
    /// The settings arrive: one empty PIN input per PIN digit, the title
    /// set, and either signed in at once (no PIN required) with a refresh
    /// of the listing, or a check whether the session is already signed
    /// in. A failure is reported.
    pub fn load_config(&mut self, result: Result<FrontendConfig, String>) -> (r: (bool, Vec<Command>))
        requires
            old(self).wf(),
        ensures
            final(self).wf(),
            r.0,
            match result {
                Ok(conf) => {
                    &&& final(self).config == Some(conf)
                    &&& texts(final(self).pin_digits@) == empty_cells(conf.pin_length as nat)
                    &&& final(self).is_authenticated == (old(self).is_authenticated
                        || !conf.pin_required)
                    &&& commands(r.1@) == seq![
                        CommandView::SetTitle(conf.site_title@ + " - Simple File Upload"@),
                    ] + if conf.pin_required {
                        seq![CommandView::CheckSession]
                    } else {
                        seq![CommandView::RefreshFiles]
                    }
                },
                Err(e) => {
                    &&& final(self).config == old(self).config
                    &&& final(self).pin_digits == old(self).pin_digits
                    &&& final(self).is_authenticated == old(self).is_authenticated
                    &&& commands(r.1@) == seq![
                        toast("Failed to load configuration: "@ + e@, error()),
                    ]
                },
            },
            final(self).is_lockout == old(self).is_lockout,
            final(self).error_message == old(self).error_message,
            final(self).theme == old(self).theme,
            final(self).drag_over == old(self).drag_over,
            same_uploads(*old(self), *final(self)),
            same_rename(*old(self), *final(self)),
            same_toasts(*old(self), *final(self)),
    {
        match result {
            Ok(conf) => {
                let n = conf.pin_length;
                let mut cells: Vec<String> = Vec::new();
                let mut i: usize = 0;
                while i < n
                    invariant
                        i <= n,
                        texts(cells@) =~= empty_cells(i as nat),
                    decreases n - i,
                {
                    let ghost c0 = texts(cells@);
                    cells.push(String::new());
                    assert(texts(cells@) =~= c0.push(Seq::<char>::empty()));
                    i = i + 1;
                }
                assert forall|k: int| 0 <= k < cells@.len() implies pin_cell(
                    #[trigger] cells@[k]@,
                ) by {
                    assert(texts(cells@)[k] == cells@[k]@);
                }
                self.pin_digits = cells;
                let title = cat(conf.site_title.as_str(), " - Simple File Upload");
                let mut cmds = vec![Command::SetTitle(title)];
                if !conf.pin_required {
                    self.is_authenticated = true;
                    cmds.push(Command::RefreshFiles);
                } else {
                    cmds.push(Command::CheckSession);
                }
                let ghost site = conf.site_title@;
                let ghost required = conf.pin_required;
                self.config = Some(conf);
                assert(commands(cmds@) =~= seq![
                    CommandView::SetTitle(site + " - Simple File Upload"@),
                ] + if required {
                    seq![CommandView::CheckSession]
                } else {
                    seq![CommandView::RefreshFiles]
                });
                (true, cmds)
            },
            Err(e) => {
                let msg = cat("Failed to load configuration: ", e.as_str());
                let cmds = vec![Command::ShowToast(msg, copy("error"))];
                assert(commands(cmds@) =~= seq![toast("Failed to load configuration: "@ + e@, error())]);
                (true, cmds)
            },
        }
    }

    /// The answer to a PIN or session check. Success signs in, clears the
    /// error and the lockout, reports it and refreshes the listing. A
    /// rejected PIN shows "Invalid PIN" and clears the inputs. An error
    /// with text is shown; it locks the inputs when it speaks of too many
    /// attempts or a lock, and clears them otherwise. An error without
    /// text (a session that is not signed in) changes nothing.
    pub fn pin_verification_result(&mut self, result: Result<bool, String>) -> (r: (bool, Vec<Command>))
        requires
            old(self).wf(),
        ensures
            final(self).wf(),
            r.0,
            final(self).pin_digits@.len() == old(self).pin_digits@.len(),
            final(self).config == old(self).config,
            match result {
                Ok(true) => {
                    &&& final(self).is_authenticated
                    &&& final(self).error_message is None
                    &&& !final(self).is_lockout
                    &&& final(self).pin_digits == old(self).pin_digits
                    &&& commands(r.1@) == seq![
                        toast("Authentication successful"@, success()),
                        CommandView::RefreshFiles,
                    ]
                },
                Ok(false) => {
                    &&& final(self).is_authenticated == old(self).is_authenticated
                    &&& opt_text(final(self).error_message) == Some("Invalid PIN"@)
                    &&& final(self).is_lockout == old(self).is_lockout
                    &&& texts(final(self).pin_digits@) == empty_cells(old(self).pin_digits@.len())
                    &&& commands(r.1@) == seq![CommandView::ClearPinInputs]
                },
                Err(e) => {
                    &&& final(self).is_authenticated == old(self).is_authenticated
                    &&& e@.len() == 0 ==> final(self).error_message == old(self).error_message
                        && final(self).is_lockout == old(self).is_lockout && final(self).pin_digits
                        == old(self).pin_digits && r.1@.len() == 0
                    &&& e@.len() > 0 ==> opt_text(final(self).error_message) == Some(e@)
                    &&& (e@.len() > 0 && lockout_error(e@)) ==> final(self).is_lockout
                        && final(self).pin_digits == old(self).pin_digits && r.1@.len() == 0
                    &&& (e@.len() > 0 && !lockout_error(e@)) ==> final(self).is_lockout
                        == old(self).is_lockout && texts(final(self).pin_digits@) == empty_cells(
                        old(self).pin_digits@.len(),
                    ) && commands(r.1@) == seq![CommandView::ClearPinInputs]
                },
            },
            same_settings(*old(self), *final(self)),
            same_uploads(*old(self), *final(self)),
            same_rename(*old(self), *final(self)),
            same_toasts(*old(self), *final(self)),
    {
        match result {
            Ok(true) => {
                self.is_authenticated = true;
                self.error_message = None;
                self.is_lockout = false;
                let cmds = vec![
                    Command::ShowToast(copy("Authentication successful"), copy("success")),
                    Command::RefreshFiles,
                ];
                assert(commands(cmds@) =~= seq![
                    toast("Authentication successful"@, success()),
                    CommandView::RefreshFiles,
                ]);
                (true, cmds)
            },
            Ok(false) => {
                self.error_message = Some(copy("Invalid PIN"));
                self.clear_pin_digits();
                let cmds = vec![Command::ClearPinInputs];
                assert(commands(cmds@) =~= seq![CommandView::ClearPinInputs]);
                (true, cmds)
            },
            Err(e) => {
                if to_chars(e.as_str()).len() == 0 {
                    return (true, Vec::new());
                }
                let locked = has_substring_exec(e.as_str(), "Too many") || has_substring_exec(
                    e.as_str(),
                    "locked",
                );
                self.error_message = Some(e);
                if locked {
                    self.is_lockout = true;
                    (true, Vec::new())
                } else {
                    self.clear_pin_digits();
                    let cmds = vec![Command::ClearPinInputs];
                    assert(commands(cmds@) =~= seq![CommandView::ClearPinInputs]);
                    (true, cmds)
                }
            },
        }
    }

    /// Signing out: the server is told, the client is signed out and the
    /// PIN inputs are cleared.
    pub fn logout(&mut self) -> (r: (bool, Vec<Command>))
        requires
            old(self).wf(),
        ensures
            final(self).wf(),
            r.0,
            !final(self).is_authenticated,
            texts(final(self).pin_digits@) == empty_cells(old(self).pin_digits@.len()),
            final(self).is_lockout == old(self).is_lockout,
            final(self).error_message == old(self).error_message,
            commands(r.1@) == seq![CommandView::Logout, CommandView::ClearPinInputs],
            same_settings(*old(self), *final(self)),
            same_uploads(*old(self), *final(self)),
            same_rename(*old(self), *final(self)),
            same_toasts(*old(self), *final(self)),
    {
        self.is_authenticated = false;
        self.clear_pin_digits();
        let cmds = vec![Command::Logout, Command::ClearPinInputs];
        assert(commands(cmds@) =~= seq![CommandView::Logout, CommandView::ClearPinInputs]);
        (true, cmds)
    }
}

// ---------------------------------------------------------------------
// Uploads
// ---------------------------------------------------------------------

/// An upload's progress with its texts as character sequences.
pub struct UploadView {
    pub name: Seq<char>,
    pub path: Seq<char>,
    pub size: u64,
    pub uploaded: u64,
    pub status: Seq<char>,
    pub error_color: Option<Seq<char>>,
}

pub open spec fn entry_view(e: UploadEntry) -> UploadView {
    UploadView {
        name: e.name@,
        path: e.path@,
        size: e.size,
        uploaded: e.uploaded,
        status: e.status@,
        error_color: opt_text(e.error_color),
    }
}

/// The upload table, as views.
pub open spec fn uploads_view(m: Map<Seq<char>, UploadEntry>) -> Map<Seq<char>, UploadView> {
    m.map_values(|e: UploadEntry| entry_view(e))
}

/// The progress of a file that is queued and not started.
pub open spec fn queued_view(f: QueuedFile) -> UploadView {
    UploadView {
        name: f.name@,
        path: f.path@,
        size: f.size,
        uploaded: 0,
        status: "queued"@,
        error_color: None,
    }
}

/// The table with an entry for each queued file, in order (a later file
/// with the same path replaces an earlier one).
pub open spec fn with_queued(m: Map<Seq<char>, UploadView>, q: Seq<QueuedFile>) -> Map<
    Seq<char>,
    UploadView,
>
    decreases q.len(),
{
    if q.len() == 0 {
        m
    } else {
        with_queued(m, q.drop_last()).insert(q.last().path@, queued_view(q.last()))
    }
}

pub open spec fn starts_with(s: Seq<char>, p: Seq<char>) -> bool {
    p.len() <= s.len() && s.take(p.len() as int) == p
}

/// An upload that is over: complete, or failed with an error.
pub open spec fn finished(status: Seq<char>) -> bool {
    status == "complete"@ || starts_with(status, "Error"@)
}

pub open spec fn all_finished(m: Map<Seq<char>, UploadView>) -> bool {
    forall|k: Seq<char>| #[trigger] m.contains_key(k) ==> finished(m[k].status)
}

/// The number of retries of a chunk: the configured one, or 5 before the
/// settings arrive.
pub open spec fn max_retries(config: Option<FrontendConfig>) -> usize {
    match config {
        Some(c) => c.client_max_retries as usize,
        None => 5,
    }
}

fn starts_with_exec(s: &str, p: &str) -> (r: bool)
    ensures
        r == starts_with(s@, p@),
{
    let a = to_chars(s);
    let b = to_chars(p);
    if b.len() > a.len() {
        return false;
    }
    let head = crate::text::slice_chars(a.as_slice(), 0, b.len());
    assert(a@.subrange(0, b@.len() as int) == a@.take(b@.len() as int));
    crate::text::chars_eq(head.as_slice(), b.as_slice())
}

fn copy_entry(e: &UploadEntry) -> (r: UploadEntry)
    ensures
        entry_view(r) == entry_view(*e),
{
    UploadEntry {
        name: copy(e.name.as_str()),
        path: copy(e.path.as_str()),
        size: e.size,
        uploaded: e.uploaded,
        status: copy(e.status.as_str()),
        error_color: match &e.error_color {
            Some(c) => Some(copy(c.as_str())),
            None => None,
        },
    }
}

impl ClientState {
    /// Whether every upload in the table is over.
    fn uploads_finished(&self) -> (r: bool)
        requires
            self.active_uploads.wf(),
        ensures
            r == all_finished(uploads_view(self.active_uploads@)),
    {
        let keys = self.active_uploads.keys();
        proof {
            self.active_uploads.lemma_key_list();
        }
        let ghost kl = self.active_uploads.key_list();
        let ghost m = uploads_view(self.active_uploads@);
        let mut i: usize = 0;
        while i < keys.len()
            invariant
                i <= keys@.len(),
                keys@.map_values(|s: String| s@) == kl,
                self.active_uploads.wf(),
                m == uploads_view(self.active_uploads@),
                forall|k: Seq<char>| self.active_uploads@.contains_key(k) <==> kl.contains(k),
                forall|j: int| 0 <= j < i ==> finished(m[#[trigger] kl[j]].status),
            decreases keys.len() - i,
        {
            assert(kl[i as int] == keys@[i as int]@);
            assert(kl.contains(kl[i as int]));
            match self.active_uploads.get(keys[i].as_str()) {
                Some(e) => {
                    let complete = crate::text::chars_eq(
                        to_chars(e.status.as_str()).as_slice(),
                        to_chars("complete").as_slice(),
                    );
                    let error = starts_with_exec(e.status.as_str(), "Error");
                    if !complete && !error {
                        assert(self.active_uploads@.contains_key(kl[i as int]));
                        assert(m.contains_key(kl[i as int]));
                        assert(m[kl[i as int]] == entry_view(*e));
                        assert(!finished(m[kl[i as int]].status));
                        return false;
                    }
                },
                None => {},
            }
            i = i + 1;
        }
        assert forall|k: Seq<char>| #[trigger] m.contains_key(k) implies finished(m[k].status) by {
            assert(kl.contains(k));
            let j = choose|j: int| 0 <= j < kl.len() && kl[j] == k;
        }
        true
    }

    /// New files are chosen (picked, or dropped on the page): they replace
    /// the queue, the progress table is emptied, and uploading starts at
    /// once when the settings ask for it.
    pub fn select_files(&mut self, files: Vec<QueuedFile>) -> (r: (bool, Vec<Command>))
        requires
            old(self).wf(),
        ensures
            final(self).wf(),
            r.0,
            final(self).upload_queue@ == files@,
            final(self).active_uploads@ == Map::<Seq<char>, UploadEntry>::empty(),
            final(self).is_uploading == old(self).is_uploading,
            final(self).pin_digits == old(self).pin_digits,
            final(self).config == old(self).config,
            commands(r.1@) == (if old(self).config matches Some(c) && c.auto_upload {
                seq![CommandView::StartUploads]
            } else {
                Seq::<CommandView>::empty()
            }),
            same_settings(*old(self), *final(self)),
            same_sign_in(*old(self), *final(self)),
            same_rename(*old(self), *final(self)),
            same_toasts(*old(self), *final(self)),
    {
        self.upload_queue = files;
        self.active_uploads = StrMap::new();
        let auto = match &self.config {
            Some(c) => c.auto_upload,
            None => false,
        };
        if auto {
            let cmds = vec![Command::StartUploads];
            assert(commands(cmds@) =~= seq![CommandView::StartUploads]);
            (true, cmds)
        } else {
            let cmds: Vec<Command> = Vec::new();
            assert(commands(cmds@) =~= Seq::<CommandView>::empty());
            (true, cmds)
        }
    }

    /// A drop whose files could not be read is reported.
    pub fn drop_failed(&self, message: &str) -> (r: (bool, Vec<Command>))
        ensures
            r.0,
            commands(r.1@) == seq![toast("Failed to process drop: "@ + message@, error())],
    {
        let msg = cat("Failed to process drop: ", message);
        let cmds = vec![Command::ShowToast(msg, copy("error"))];
        assert(commands(cmds@) =~= seq![toast("Failed to process drop: "@ + message@, error())]);
        (true, cmds)
    }

    /// Uploading starts unless the queue is empty or an upload is running:
    /// every queued file gets a `queued` entry and the queue is uploaded as
    /// one batch.
    pub fn start_uploads(&mut self) -> (r: (bool, Vec<Command>))
        requires
            old(self).wf(),
        ensures
            final(self).wf(),
            final(self).upload_queue == old(self).upload_queue,
            final(self).config == old(self).config,
            final(self).pin_digits == old(self).pin_digits,
            (old(self).upload_queue@.len() == 0 || old(self).is_uploading) ==> !r.0 && r.1@.len()
                == 0 && final(self).is_uploading == old(self).is_uploading
                && final(self).active_uploads == old(self).active_uploads,
            !(old(self).upload_queue@.len() == 0 || old(self).is_uploading) ==> r.0
                && final(self).is_uploading && uploads_view(final(self).active_uploads@)
                == with_queued(uploads_view(old(self).active_uploads@), old(self).upload_queue@)
                && commands(r.1@) == seq![CommandView::RunUploads(max_retries(old(self).config))],
            same_settings(*old(self), *final(self)),
            same_sign_in(*old(self), *final(self)),
            same_rename(*old(self), *final(self)),
            same_toasts(*old(self), *final(self)),
    {
        if self.upload_queue.len() == 0 || self.is_uploading {
            return (false, Vec::new());
        }
        self.is_uploading = true;
        let ghost start = uploads_view(self.active_uploads@);
        let mut i: usize = 0;
        while i < self.upload_queue.len()
            invariant
                i <= self.upload_queue@.len(),
                self.upload_queue == old(self).upload_queue,
                self.config == old(self).config,
                self.pin_digits == old(self).pin_digits,
                self.is_uploading,
                self.active_uploads.wf(),
                same_settings(*old(self), *self),
                same_sign_in(*old(self), *self),
                same_rename(*old(self), *self),
                same_toasts(*old(self), *self),
                forall|k: int| 0 <= k < self.pin_digits@.len() ==> pin_cell(
                    #[trigger] self.pin_digits@[k]@,
                ),
                uploads_view(self.active_uploads@) =~= with_queued(
                    start,
                    self.upload_queue@.take(i as int),
                ),
            decreases self.upload_queue.len() - i,
        {
            let f = &self.upload_queue[i];
            let entry = UploadEntry {
                name: copy(f.name.as_str()),
                path: copy(f.path.as_str()),
                size: f.size,
                uploaded: 0,
                status: copy("queued"),
                error_color: None,
            };
            assert(entry_view(entry) == queued_view(*f));
            let ghost before = self.active_uploads@;
            self.active_uploads.insert(f.path.as_str(), entry);
            assert(self.upload_queue@.take(i + 1).drop_last() == self.upload_queue@.take(i as int));
            assert(uploads_view(self.active_uploads@) =~= uploads_view(before).insert(
                f.path@,
                queued_view(*f),
            ));
            i = i + 1;
        }
        assert(self.upload_queue@.take(i as int) == self.upload_queue@);
        let n = match &self.config {
            Some(c) => c.client_max_retries as usize,
            None => 5,
        };
        let cmds = vec![Command::RunUploads(n)];
        assert(commands(cmds@) =~= seq![CommandView::RunUploads(max_retries(self.config))]);
        (true, cmds)
    }

    /// Replaces the entry of an upload in progress, when there is one.
    fn set_upload(&mut self, path: &str, entry: UploadEntry)
        requires
            old(self).wf(),
        ensures
            final(self).wf(),
            final(self).active_uploads@ == old(self).active_uploads@.insert(path@, entry),
            final(self).upload_queue == old(self).upload_queue,
            final(self).is_uploading == old(self).is_uploading,
            final(self).pin_digits == old(self).pin_digits,
            final(self).config == old(self).config,
            same_settings(*old(self), *final(self)),
            same_sign_in(*old(self), *final(self)),
            same_rename(*old(self), *final(self)),
            same_toasts(*old(self), *final(self)),
    {
        self.active_uploads.insert(path, entry);
    }

    /// The server accepted an upload: its entry shows `initializing`.
    pub fn upload_init(&mut self, path: &str) -> (r: (bool, Vec<Command>))
        requires
            old(self).wf(),
        ensures
            final(self).wf(),
            r.0,
            r.1@.len() == 0,
            final(self).upload_queue == old(self).upload_queue,
            final(self).is_uploading == old(self).is_uploading,
            final(self).pin_digits == old(self).pin_digits,
            uploads_view(final(self).active_uploads@) == (if old(self).active_uploads@.contains_key(
                path@,
            ) {
                uploads_view(old(self).active_uploads@).insert(
                    path@,
                    UploadView {
                        status: "initializing"@,
                        ..entry_view(old(self).active_uploads@[path@])
                    },
                )
            } else {
                uploads_view(old(self).active_uploads@)
            }),
            same_settings(*old(self), *final(self)),
            same_sign_in(*old(self), *final(self)),
            same_rename(*old(self), *final(self)),
            same_toasts(*old(self), *final(self)),
    {
        let found = match self.active_uploads.get(path) {
            Some(e) => Some(copy_entry(e)),
            None => None,
        };
        match found {
            Some(mut e) => {
                e.status = copy("initializing");
                self.set_upload(path, e);
                assert(uploads_view(self.active_uploads@) =~= uploads_view(
                    old(self).active_uploads@,
                ).insert(
                    path@,
                    UploadView {
                        status: "initializing"@,
                        ..entry_view(old(self).active_uploads@[path@])
                    },
                ));
            },
            None => {},
        }
        (true, Vec::new())
    }

    /// A progress report: the entry takes the bytes sent, the status and
    /// its colour.
    pub fn upload_progress(
        &mut self,
        path: &str,
        uploaded: u64,
        status: String,
        error_color: Option<String>,
    ) -> (r: (bool, Vec<Command>))
        requires
            old(self).wf(),
        ensures
            final(self).wf(),
            r.0,
            r.1@.len() == 0,
            final(self).upload_queue == old(self).upload_queue,
            final(self).is_uploading == old(self).is_uploading,
            final(self).pin_digits == old(self).pin_digits,
            uploads_view(final(self).active_uploads@) == (if old(self).active_uploads@.contains_key(
                path@,
            ) {
                uploads_view(old(self).active_uploads@).insert(
                    path@,
                    UploadView {
                        uploaded: uploaded,
                        status: status@,
                        error_color: opt_text(error_color),
                        ..entry_view(old(self).active_uploads@[path@])
                    },
                )
            } else {
                uploads_view(old(self).active_uploads@)
            }),
            same_settings(*old(self), *final(self)),
            same_sign_in(*old(self), *final(self)),
            same_rename(*old(self), *final(self)),
            same_toasts(*old(self), *final(self)),
    {
        let found = match self.active_uploads.get(path) {
            Some(e) => Some(copy_entry(e)),
            None => None,
        };
        match found {
            Some(mut e) => {
                e.uploaded = uploaded;
                e.status = status;
                e.error_color = error_color;
                let ghost ev = entry_view(e);
                self.set_upload(path, e);
                assert(uploads_view(self.active_uploads@) =~= uploads_view(
                    old(self).active_uploads@,
                ).insert(path@, ev));
            },
            None => {},
        }
        (true, Vec::new())
    }

    /// The batch is over once every upload is: uploading stops, the queue
    /// is emptied and the listing refreshed.
    fn finish_batch_if_done(&mut self, cmds: &mut Vec<Command>) -> (done: bool)
        requires
            old(self).wf(),
        ensures
            final(self).wf(),
            done == all_finished(uploads_view(old(self).active_uploads@)),
            final(self).active_uploads == old(self).active_uploads,
            final(self).pin_digits == old(self).pin_digits,
            done ==> !final(self).is_uploading && final(self).upload_queue@.len() == 0
                && commands(final(cmds)@) == commands(old(cmds)@).push(CommandView::RefreshFiles),
            !done ==> final(self).is_uploading == old(self).is_uploading
                && final(self).upload_queue == old(self).upload_queue && final(cmds)@ == old(
                cmds,
            )@,
            same_settings(*old(self), *final(self)),
            same_sign_in(*old(self), *final(self)),
            same_rename(*old(self), *final(self)),
            same_toasts(*old(self), *final(self)),
    {
        let done = self.uploads_finished();
        if done {
            self.is_uploading = false;
            self.upload_queue = Vec::new();
            let ghost c0 = commands(cmds@);
            cmds.push(Command::RefreshFiles);
            assert(commands(cmds@) =~= c0.push(CommandView::RefreshFiles));
        }
        done
    }

    /// An upload finished: its entry is complete, a notice names the file,
    /// and once every upload is over the batch ends and the file inputs are
    /// cleared.
    pub fn upload_completed(&mut self, path: &str) -> (r: (bool, Vec<Command>))
        requires
            old(self).wf(),
        ensures
            final(self).wf(),
            r.0,
            final(self).pin_digits == old(self).pin_digits,
            uploads_view(final(self).active_uploads@) == (if old(self).active_uploads@.contains_key(
                path@,
            ) {
                uploads_view(old(self).active_uploads@).insert(
                    path@,
                    UploadView {
                        uploaded: old(self).active_uploads@[path@].size,
                        status: "complete"@,
                        ..entry_view(old(self).active_uploads@[path@])
                    },
                )
            } else {
                uploads_view(old(self).active_uploads@)
            }),
            all_finished(uploads_view(final(self).active_uploads@)) ==> !final(self).is_uploading
                && final(self).upload_queue@.len() == 0 && commands(r.1@) == seq![
                toast("File uploaded: "@ + last_segment(path@), success()),
                CommandView::RefreshFiles,
                CommandView::ClearFileInputs,
            ],
            !all_finished(uploads_view(final(self).active_uploads@)) ==> final(self).is_uploading
                == old(self).is_uploading && final(self).upload_queue == old(self).upload_queue
                && commands(r.1@) == seq![toast("File uploaded: "@ + last_segment(path@), success())],
            same_settings(*old(self), *final(self)),
            same_sign_in(*old(self), *final(self)),
            same_rename(*old(self), *final(self)),
            same_toasts(*old(self), *final(self)),
    {
        let found = match self.active_uploads.get(path) {
            Some(e) => Some(copy_entry(e)),
            None => None,
        };
        match found {
            Some(mut e) => {
                e.uploaded = e.size;
                e.status = copy("complete");
                let ghost ev = entry_view(e);
                self.set_upload(path, e);
                assert(uploads_view(self.active_uploads@) =~= uploads_view(
                    old(self).active_uploads@,
                ).insert(path@, ev));
            },
            None => {},
        }
        let msg = cat("File uploaded: ", last_segment_exec(path).as_str());
        let mut cmds = vec![Command::ShowToast(msg, copy("success"))];
        let ghost c0 = commands(cmds@);
        assert(c0 =~= seq![toast("File uploaded: "@ + last_segment(path@), success())]);
        let done = self.finish_batch_if_done(&mut cmds);
        if done {
            cmds.push(Command::ClearFileInputs);
            assert(commands(cmds@) =~= c0.push(CommandView::RefreshFiles).push(
                CommandView::ClearFileInputs,
            ));
        }
        (true, cmds)
    }

    /// An upload failed: its entry shows the error in the danger colour, a
    /// notice names the file and the error, and once every upload is over
    /// the batch ends.
    pub fn upload_failed(&mut self, path: &str, err: &str) -> (r: (bool, Vec<Command>))
        requires
            old(self).wf(),
        ensures
            final(self).wf(),
            r.0,
            final(self).pin_digits == old(self).pin_digits,
            uploads_view(final(self).active_uploads@) == (if old(self).active_uploads@.contains_key(
                path@,
            ) {
                uploads_view(old(self).active_uploads@).insert(
                    path@,
                    UploadView {
                        status: "Error: "@ + err@,
                        error_color: Some("var(--danger-color)"@),
                        ..entry_view(old(self).active_uploads@[path@])
                    },
                )
            } else {
                uploads_view(old(self).active_uploads@)
            }),
            all_finished(uploads_view(final(self).active_uploads@)) ==> !final(self).is_uploading
                && final(self).upload_queue@.len() == 0 && commands(r.1@) == seq![
                toast("Upload failed for "@ + last_segment(path@) + ": "@ + err@, error()),
                CommandView::RefreshFiles,
            ],
            !all_finished(uploads_view(final(self).active_uploads@)) ==> final(self).is_uploading
                == old(self).is_uploading && final(self).upload_queue == old(self).upload_queue
                && commands(r.1@) == seq![
                toast("Upload failed for "@ + last_segment(path@) + ": "@ + err@, error()),
            ],
            same_settings(*old(self), *final(self)),
            same_sign_in(*old(self), *final(self)),
            same_rename(*old(self), *final(self)),
            same_toasts(*old(self), *final(self)),
    {
        let found = match self.active_uploads.get(path) {
            Some(e) => Some(copy_entry(e)),
            None => None,
        };
        match found {
            Some(mut e) => {
                e.status = cat("Error: ", err);
                e.error_color = Some(copy("var(--danger-color)"));
                let ghost ev = entry_view(e);
                self.set_upload(path, e);
                assert(uploads_view(self.active_uploads@) =~= uploads_view(
                    old(self).active_uploads@,
                ).insert(path@, ev));
            },
            None => {},
        }
        let name = last_segment_exec(path);
        let m1 = cat("Upload failed for ", name.as_str());
        let m2 = cat(m1.as_str(), ": ");
        let msg = cat(m2.as_str(), err);
        let mut cmds = vec![Command::ShowToast(msg, copy("error"))];
        assert(commands(cmds@) =~= seq![
            toast("Upload failed for "@ + last_segment(path@) + ": "@ + err@, error()),
        ]);
        let _ = self.finish_batch_if_done(&mut cmds);
        (true, cmds)
    }
}

// ---------------------------------------------------------------------
// The listing
// ---------------------------------------------------------------------

impl ClientState {
    /// A listing that could not be loaded is reported.
    pub fn file_list_failed(&self, message: &str) -> (r: (bool, Vec<Command>))
        ensures
            r.0,
            commands(r.1@) == seq![toast("Failed to load files: "@ + message@, error())],
    {
        let msg = cat("Failed to load files: ", message);
        let cmds = vec![Command::ShowToast(msg, copy("error"))];
        assert(commands(cmds@) =~= seq![toast("Failed to load files: "@ + message@, error())]);
        (true, cmds)
    }

    /// The listing is fetched, only when signed in.
    pub fn refresh_files(&self) -> (r: (bool, Vec<Command>))
        ensures
            !r.0,
            commands(r.1@) == (if self.is_authenticated {
                seq![CommandView::FetchFiles]
            } else {
                Seq::<CommandView>::empty()
            }),
    {
        if !self.is_authenticated {
            let cmds: Vec<Command> = Vec::new();
            assert(commands(cmds@) =~= Seq::<CommandView>::empty());
            return (false, cmds);
        }
        let cmds = vec![Command::FetchFiles];
        assert(commands(cmds@) =~= seq![CommandView::FetchFiles]);
        (false, cmds)
    }

    /// Deleting asks for confirmation, naming the item.
    pub fn delete_file(&self, path: &str) -> (r: (bool, Vec<Command>))
        ensures
            !r.0,
            commands(r.1@) == seq![
                CommandView::ConfirmDelete(
                    path@,
                    "Are you sure you want to delete \""@ + last_segment(path@) + "\"?"@,
                ),
            ],
    {
        let name = last_segment_exec(path);
        let a = cat("Are you sure you want to delete \"", name.as_str());
        let prompt = cat(a.as_str(), "\"?");
        let cmds = vec![Command::ConfirmDelete(copy(path), prompt)];
        assert(commands(cmds@) =~= seq![
            CommandView::ConfirmDelete(
                path@,
                "Are you sure you want to delete \""@ + last_segment(path@) + "\"?"@,
            ),
        ]);
        (false, cmds)
    }

    /// The outcome of a deletion: success names the item and refreshes the
    /// listing, failure reports the error.
    pub fn delete_result(&self, result: Result<String, String>) -> (r: (bool, Vec<Command>))
        ensures
            r.0,
            commands(r.1@) == match result {
                Ok(p) => seq![toast("Deleted: "@ + last_segment(p@), success()), CommandView::RefreshFiles],
                Err(e) => seq![toast("Delete failed: "@ + e@, error())],
            },
    {
        match result {
            Ok(p) => {
                let msg = cat("Deleted: ", last_segment_exec(p.as_str()).as_str());
                let cmds = vec![Command::ShowToast(msg, copy("success")), Command::RefreshFiles];
                assert(commands(cmds@) =~= seq![
                    toast("Deleted: "@ + last_segment(p@), success()),
                    CommandView::RefreshFiles,
                ]);
                (true, cmds)
            },
            Err(e) => {
                let msg = cat("Delete failed: ", e.as_str());
                let cmds = vec![Command::ShowToast(msg, copy("error"))];
                assert(commands(cmds@) =~= seq![toast("Delete failed: "@ + e@, error())]);
                (true, cmds)
            },
        }
    }
}

// ---------------------------------------------------------------------
// The upload of one file, chunk by chunk
// ---------------------------------------------------------------------

/// Files are sent in chunks of 1 MiB.
pub const CHUNK_SIZE: u64 = 1_048_576;

/// Where the chunk that starts at `position` ends.
pub fn chunk_end(position: u64, size: u64) -> (r: u64)
    requires
        position < size,
    ensures
        r == (if position + CHUNK_SIZE < size {
            position + CHUNK_SIZE
        } else {
            size as int
        }),
        position < r <= size,
{
    if size - position > CHUNK_SIZE {
        position + CHUNK_SIZE
    } else {
        size
    }
}

pub open spec fn pow2(n: nat) -> nat
    decreases n,
{
    if n == 0 {
        1
    } else {
        2 * pow2((n - 1) as nat)
    }
}

/// The wait before retry number `attempt` (from 1): one second, doubled at
/// every retry, at most thirty seconds.
pub fn retry_delay_ms(attempt: u32) -> (r: u64)
    requires
        1 <= attempt <= 55,
    ensures
        r == (if 1000 * pow2((attempt - 1) as nat) < 30000 {
            1000 * pow2((attempt - 1) as nat)
        } else {
            30000
        }),
{
    // Past 32 seconds the cap applies whatever the exponent.
    let mut p: u64 = 1;
    let mut i: u32 = 1;
    while i < attempt && p < 32
        invariant
            1 <= i <= attempt <= 55,
            p == pow2((i - 1) as nat),
            p < 64,
        decreases attempt - i,
    {
        assert(pow2(i as nat) == 2 * pow2((i - 1) as nat));
        p = p * 2;
        i = i + 1;
    }
    if p >= 32 {
        proof {
            lemma_pow2_mono((i - 1) as nat, (attempt - 1) as nat);
        }
        30000
    } else {
        let d = 1000 * p;
        if d < 30000 {
            d
        } else {
            30000
        }
    }
}

proof fn lemma_pow2_mono(a: nat, b: nat)
    requires
        a <= b,
    ensures
        pow2(a) <= pow2(b),
    decreases b,
{
    if a < b {
        lemma_pow2_mono(a, (b - 1) as nat);
    }
}

/// The status shown while a chunk is retried.
pub fn retry_status(attempt: usize, max: usize) -> (r: String)
    ensures
        r@ == "Retrying attempt "@ + crate::size_format::decimal(attempt as nat) + "/"@
            + crate::size_format::decimal(max as nat) + "..."@,
{
    let a = from_chars(crate::size_format::decimal_exec(attempt as u128).as_slice());
    let m = from_chars(crate::size_format::decimal_exec(max as u128).as_slice());
    let s1 = cat("Retrying attempt ", a.as_str());
    let s2 = cat(s1.as_str(), "/");
    let s3 = cat(s2.as_str(), m.as_str());
    cat(s3.as_str(), "...")
}

/// What to do after a chunk upload failed.
#[derive(Debug, PartialEq, Eq)]
pub enum ChunkFailure {
    /// The server no longer knows the upload after a retry: it is taken to
    /// be complete.
    AssumeComplete,
    /// Try again.
    Retry,
    /// Every attempt failed: cancel the upload and report the error.
    GiveUp,
}

/// After attempt number `attempt` (from 0) of a chunk failed with `err`:
/// a `404` on a retry means the upload was already completed; otherwise the
/// chunk is retried until `max_retries` retries were made.
pub fn chunk_failure(attempt: usize, max_retries: usize, err: &str) -> (r: ChunkFailure)
    ensures
        (attempt > 0 && has_substring(err@, "404"@)) ==> r is AssumeComplete,
        !(attempt > 0 && has_substring(err@, "404"@)) ==> (if attempt < max_retries {
            r is Retry
        } else {
            r is GiveUp
        }),
{
    if attempt > 0 && has_substring_exec(err, "404") {
        ChunkFailure::AssumeComplete
    } else if attempt < max_retries {
        ChunkFailure::Retry
    } else {
        ChunkFailure::GiveUp
    }
}

/// The error reported when every attempt at a chunk failed.
pub fn chunk_failed_message(err: &str) -> (r: String)
    ensures
        r@ == "Chunk upload failed: "@ + err@,
{
    cat("Chunk upload failed: ", err)
}

// ---------------------------------------------------------------------
// Texts of the page and of requests
// ---------------------------------------------------------------------

/// The characters `encodeURIComponent` leaves as they are.
pub open spec fn uri_unreserved(c: char) -> bool {
    ('0' <= c && c <= '9') || ('A' <= c && c <= 'Z') || ('a' <= c && c <= 'z') || c == '-' || c
        == '_' || c == '.' || c == '!' || c == '~' || c == '*' || c == '\'' || c == '(' || c
        == ')'
}

/// JavaScript's `encodeURIComponent`: every other character is replaced by
/// its UTF-8 bytes, each written `%XX` in upper-case hexadecimal.
pub open spec fn uri_component(s: Seq<char>) -> Seq<char>
    decreases s.len(),
{
    if s.len() == 0 {
        Seq::<char>::empty()
    } else {
        uri_component(s.drop_last()) + (if uri_unreserved(s.last()) {
            seq![s.last()]
        } else {
            percent_encoded(utf8_char(s.last()))
        })
    }
}

/// A path in a request URL: each `/`-separated piece encoded as a URI
/// component, the `/` kept.
pub open spec fn encoded_path(path: Seq<char>) -> Seq<char> {
    join_with(split_on(path, seq!['/']).map_values(|p: Seq<char>| uri_component(p)), seq!['/'])
}

fn utf8_char_exec(c: char) -> (r: Vec<u8>)
    ensures
        r@ == utf8_char(c),
{
    let u = c as u32;
    assert(u as int == c as int);
    if u < 0x80 {
        vec![u as u8]
    } else if u < 0x800 {
        vec![(0xC0 + u / 64) as u8, (0x80 + u % 64) as u8]
    } else if u < 0x10000 {
        vec![(0xE0 + u / 4096) as u8, (0x80 + (u / 64) % 64) as u8, (0x80 + u % 64) as u8]
    } else {
        vec![
            (0xF0 + u / 262144) as u8,
            (0x80 + (u / 4096) % 64) as u8,
            (0x80 + (u / 64) % 64) as u8,
            (0x80 + u % 64) as u8,
        ]
    }
}

fn percent_bytes_exec(b: &[u8]) -> (r: Vec<char>)
    ensures
        r@ == percent_encoded(b@),
{
    let t = ['0', '1', '2', '3', '4', '5', '6', '7', '8', '9', 'A', 'B', 'C', 'D', 'E', 'F'];
    let mut r: Vec<char> = Vec::new();
    let mut i: usize = 0;
    while i < b.len()
        invariant
            i <= b@.len(),
            t@ == seq!['0', '1', '2', '3', '4', '5', '6', '7', '8', '9', 'A', 'B', 'C', 'D', 'E', 'F'],
            r@ == percent_encoded(b@.take(i as int)),
        decreases b.len() - i,
    {
        assert(b@.take(i + 1).drop_last() == b@.take(i as int));
        let x = b[i];
        let ghost r0 = r@;
        if (0x30 <= x && x <= 0x39) || (0x41 <= x && x <= 0x5A) || (0x61 <= x && x <= 0x7A) {
            r.push(x as char);
            assert(r@ =~= r0 + percent_byte(x));
        } else {
            r.push('%');
            r.push(t[(x / 16) as usize]);
            r.push(t[(x % 16) as usize]);
            assert(upper_hex_digit(x as int / 16) == t@[(x / 16) as int]);
            assert(upper_hex_digit(x as int % 16) == t@[(x % 16) as int]);
            assert(r@ =~= r0 + percent_byte(x));
        }
        i = i + 1;
    }
    assert(b@.take(b@.len() as int) == b@);
    r
}

/// `encodeURIComponent` of a text.
pub fn encode_uri_component(s: &[char]) -> (r: Vec<char>)
    ensures
        r@ == uri_component(s@),
{
    let mut r: Vec<char> = Vec::new();
    let mut i: usize = 0;
    while i < s.len()
        invariant
            i <= s@.len(),
            r@ == uri_component(s@.take(i as int)),
        decreases s.len() - i,
    {
        assert(s@.take(i + 1).drop_last() == s@.take(i as int));
        let c = s[i];
        let ghost r0 = r@;
        if ('0' <= c && c <= '9') || ('A' <= c && c <= 'Z') || ('a' <= c && c <= 'z') || c == '-'
            || c == '_' || c == '.' || c == '!' || c == '~' || c == '*' || c == '\'' || c == '('
            || c == ')' {
            r.push(c);
            assert(r@ =~= r0 + seq![c]);
        } else {
            let bytes = utf8_char_exec(c);
            let enc = percent_bytes_exec(bytes.as_slice());
            r = concat_chars(r.as_slice(), enc.as_slice());
        }
        i = i + 1;
    }
    assert(s@.take(s@.len() as int) == s@);
    r
}

/// The path of an item as it goes into a request URL.
pub fn encode_path(file_path: &str) -> (r: String)
    ensures
        r@ == encoded_path(file_path@),
{
    let p = to_chars(file_path);
    let sep = vec!['/'];
    assert(sep@ =~= seq!['/']);
    let parts = split_chars(p.as_slice(), sep.as_slice());
    let ghost pv = parts.deep_view();
    let mut enc: Vec<Vec<char>> = Vec::new();
    let mut i: usize = 0;
    while i < parts.len()
        invariant
            i <= parts@.len(),
            pv == parts.deep_view(),
            enc.deep_view() =~= pv.take(i as int).map_values(|q: Seq<char>| uri_component(q)),
        decreases parts.len() - i,
    {
        let e = encode_uri_component(parts[i].as_slice());
        let ghost old_enc = enc;
        let ghost ev = e;
        enc.push(e);
        proof {
            crate::lemmas::lemma_push_deep_view(old_enc, enc, ev);
            assert(pv[i as int] == parts@[i as int]@);
        }
        i = i + 1;
    }
    assert(pv.take(pv.len() as int) == pv);
    let joined = join_chars(&enc, sep.as_slice());
    from_chars(joined.as_slice())
}

/// The first ten bytes of a timestamp (its date), or all of it when it is
/// shorter.
pub fn format_date(date: &str) -> (r: String)
    requires
        crate::sanitize::truncatable_at(date@, 10),
    ensures
        r@ == crate::sanitize::truncate_bytes(date@, 10),
{
    let d = to_chars(date);
    match crate::sanitize::truncate_bytes_exec(d.as_slice(), 10) {
        Some(v) => from_chars(v.as_slice()),
        None => {
            assert(false);
            String::new()
        },
    }
}

/// Whether `format_date` can take the first ten bytes of a timestamp
/// (it is shorter, or its tenth byte ends a character).
pub fn format_date_is_total(date: &str) -> (r: bool)
    ensures
        r == crate::sanitize::truncatable_at(date@, 10),
{
    let d = to_chars(date);
    crate::sanitize::truncate_bytes_exec(d.as_slice(), 10).is_some()
}

/// `N file` or `N files`.
pub open spec fn file_count_label(n: nat) -> Seq<char> {
    decimal(n) + (if n != 1 {
        " files"@
    } else {
        " file"@
    })
}

pub fn file_count_text(n: u64) -> (r: String)
    ensures
        r@ == file_count_label(n as nat),
{
    let d = from_chars(decimal_exec(n as u128).as_slice());
    if n != 1 {
        cat(d.as_str(), " files")
    } else {
        cat(d.as_str(), " file")
    }
}

/// A batch id made by the client: the time in milliseconds, `-`, and a
/// random number in lower-case hexadecimal.
pub fn client_batch_id(now_ms: u64, random: u32) -> (r: String)
    ensures
        r@ == decimal(now_ms as nat) + "-"@ + lower_hex(random as nat),
{
    let t = from_chars(decimal_exec(now_ms as u128).as_slice());
    let h = crate::upload::upload_id_from(random as u128);
    let a = cat(t.as_str(), "-");
    cat(a.as_str(), h.as_str())
}

// ---------------------------------------------------------------------
// The listing as the client receives it
// ---------------------------------------------------------------------

/// An entry of the listing received from the server (its time as the
/// server wrote it).
pub enum ListedItem {
    File {
        name: String,
        path: String,
        size: u64,
        formatted_size: String,
        upload_date: String,
        extension: String,
    },
    Directory {
        name: String,
        path: String,
        size: u64,
        formatted_size: String,
        upload_date: String,
        children: Vec<ListedItem>,
    },
}

/// The number of files in a received entry.
pub open spec fn listed_file_count(i: ListedItem) -> nat
    decreases i, 1int,
{
    match i {
        ListedItem::File { .. } => 1,
        ListedItem::Directory { children, .. } => listed_files_count(children@),
    }
}

/// The number of files in and below received entries.
pub open spec fn listed_files_count(s: Seq<ListedItem>) -> nat
    decreases s, 0int,
{
    if s.len() == 0 {
        0
    } else {
        listed_files_count(s.subrange(0, s.len() - 1)) + listed_file_count(s[s.len() - 1])
    }
}

proof fn lemma_listed_count_prefix(s: Seq<ListedItem>, n: int)
    requires
        0 <= n <= s.len(),
    ensures
        listed_files_count(s.take(n)) <= listed_files_count(s),
    decreases s.len(),
{
    if n < s.len() {
        assert(s.subrange(0, s.len() - 1).take(n) == s.take(n));
        lemma_listed_count_prefix(s.subrange(0, s.len() - 1), n);
    } else {
        assert(s.take(n) == s);
    }
}

/// The number of files in a directory, counted through its
/// subdirectories.
pub fn count_files_in_dir(children: &[ListedItem]) -> (r: usize)
    requires
        listed_files_count(children@) <= usize::MAX,
    ensures
        r == listed_files_count(children@),
    decreases children@,
{
    let mut sum: usize = 0;
    let mut i: usize = 0;
    while i < children.len()
        invariant
            i <= children@.len(),
            listed_files_count(children@) <= usize::MAX,
            sum == listed_files_count(children@.take(i as int)),
        decreases children.len() - i,
    {
        let ghost t = children@.take(i as int + 1);
        assert(t.subrange(0, t.len() - 1) == children@.take(i as int));
        assert(t[t.len() - 1] == children@[i as int]);
        proof {
            lemma_listed_count_prefix(children@, i as int + 1);
        }
        assert(listed_files_count(t) == sum + listed_file_count(children@[i as int]));
        let c: usize = match &children[i] {
            ListedItem::File { .. } => 1,
            ListedItem::Directory { children: sub, .. } => {
                assert(decreases_to!(children@ => children@[i as int]));
                assert(listed_file_count(children@[i as int]) == listed_files_count(sub@));
                count_files_in_dir(sub.as_slice())
            },
        };
        sum = sum + c;
        i = i + 1;
    }
    assert(children@.take(children@.len() as int) == children@);
    sum
}

/// A received file entry with its texts as character sequences.
pub struct ListedFileView {
    pub name: Seq<char>,
    pub path: Seq<char>,
    pub size: u64,
    pub formatted_size: Seq<char>,
    pub upload_date: Seq<char>,
    pub extension: Seq<char>,
}

pub open spec fn listed_file_view(i: ListedItem) -> ListedFileView {
    match i {
        ListedItem::File { name, path, size, formatted_size, upload_date, extension } => ListedFileView {
            name: name@,
            path: path@,
            size: size,
            formatted_size: formatted_size@,
            upload_date: upload_date@,
            extension: extension@,
        },
        ListedItem::Directory { .. } => arbitrary(),
    }
}

/// The files of a received listing, depth first, without the directories.
pub open spec fn flat_files_of(i: ListedItem) -> Seq<ListedFileView>
    decreases i, 1int,
{
    match i {
        ListedItem::File { .. } => seq![listed_file_view(i)],
        ListedItem::Directory { children, .. } => flat_files(children@),
    }
}

pub open spec fn flat_files(s: Seq<ListedItem>) -> Seq<ListedFileView>
    decreases s, 0int,
{
    if s.len() == 0 {
        Seq::<ListedFileView>::empty()
    } else {
        flat_files(s.subrange(0, s.len() - 1)) + flat_files_of(s[s.len() - 1])
    }
}

/// The files of a received listing, depth first (the flat explorer view).
pub fn flatten_files(items: &[ListedItem]) -> (r: Vec<ListedItem>)
    ensures
        forall|k: int| 0 <= k < r@.len() ==> (#[trigger] r@[k]) is File,
        r@.map_values(|i: ListedItem| listed_file_view(i)) == flat_files(items@),
    decreases items@,
{
    let mut out: Vec<ListedItem> = Vec::new();
    let mut i: usize = 0;
    while i < items.len()
        invariant
            i <= items@.len(),
            forall|k: int| 0 <= k < out@.len() ==> (#[trigger] out@[k]) is File,
            out@.map_values(|i: ListedItem| listed_file_view(i)) =~= flat_files(items@.take(i as int)),
        decreases items.len() - i,
    {
        let ghost t = items@.take(i as int + 1);
        assert(t.subrange(0, t.len() - 1) == items@.take(i as int));
        assert(t[t.len() - 1] == items@[i as int]);
        let ghost o0 = out@.map_values(|i: ListedItem| listed_file_view(i));
        match &items[i] {
            ListedItem::File { name, path, size, formatted_size, upload_date, extension } => {
                let f = ListedItem::File {
                    name: copy(name.as_str()),
                    path: copy(path.as_str()),
                    size: *size,
                    formatted_size: copy(formatted_size.as_str()),
                    upload_date: copy(upload_date.as_str()),
                    extension: copy(extension.as_str()),
                };
                assert(listed_file_view(f) == listed_file_view(items@[i as int]));
                out.push(f);
                assert(out@.map_values(|i: ListedItem| listed_file_view(i)) =~= o0 + seq![
                    listed_file_view(items@[i as int]),
                ]);
                assert(flat_files_of(items@[i as int]) == seq![listed_file_view(items@[i as int])]);
                assert(flat_files(t) == o0 + flat_files_of(items@[i as int]));
            },
            ListedItem::Directory { children, .. } => {
                assert(decreases_to!(items@ => items@[i as int]));
                let sub = flatten_files(children.as_slice());
                let ghost sv = sub@.map_values(|i: ListedItem| listed_file_view(i));
                assert(flat_files_of(items@[i as int]) == flat_files(children@));
                assert(flat_files(t) == o0 + sv);
                let mut k: usize = 0;
                let mut sub = sub;
                let ghost subv = sub@;
                let n0 = sub.len();
                while sub.len() > 0
                    invariant
                        k <= subv.len(),
                        n0 == subv.len(),
                        flat_files(t) == o0 + sv,
                        sub@ == subv.skip(k as int),
                        forall|j: int| 0 <= j < subv.len() ==> (#[trigger] subv[j]) is File,
                        forall|j: int| 0 <= j < out@.len() ==> (#[trigger] out@[j]) is File,
                        out@.map_values(|i: ListedItem| listed_file_view(i)) =~= o0 + sv.take(
                            k as int,
                        ),
                        sv == subv.map_values(|i: ListedItem| listed_file_view(i)),
                    decreases sub.len(),
                {
                    let x = sub.remove(0);
                    assert(subv.skip(k as int)[0] == subv[k as int]);
                    assert(subv.skip(k as int).remove(0) =~= subv.skip(k + 1));
                    let ghost before = out@.map_values(|i: ListedItem| listed_file_view(i));
                    out.push(x);
                    assert(out@.map_values(|i: ListedItem| listed_file_view(i)) =~= before.push(
                        listed_file_view(x),
                    ));
                    assert(sv.take(k + 1) =~= sv.take(k as int).push(sv[k as int]));
                    k = k + 1;
                }
                assert(k == subv.len());
                assert(sv.take(k as int) =~= sv);
            },
        }
        i = i + 1;
    }
    assert(items@.take(items@.len() as int) == items@);
    out
}

/// The address of a download, as shared: the page's origin,
/// `/api/files/download/` and the encoded path.
pub fn share_link(origin: &str, path: &str) -> (r: String)
    ensures
        r@ == origin@ + "/api/files/download/"@ + encoded_path(path@),
{
    let a = cat(origin, "/api/files/download/");
    let e = encode_path(path);
    cat(a.as_str(), e.as_str())
}

// ---------------------------------------------------------------------
// The client's batch ids and the server's batch-id check
// ---------------------------------------------------------------------

pub open spec fn pow16(k: nat) -> nat
    decreases k,
{
    if k == 0 {
        1
    } else {
        16 * pow16((k - 1) as nat)
    }
}

/// A number has more than `k` hex digits exactly when it is at least `16^k`.
proof fn lemma_lower_hex_len(n: nat, k: nat)
    requires
        k >= 1,
    ensures
        n >= pow16(k) <==> lower_hex(n).len() > k,
    decreases n,
{
    if n >= 16 {
        if k >= 2 {
            lemma_lower_hex_len(n / 16, (k - 1) as nat);
            lemma_pow16_ge((k - 1) as nat);
            let p = pow16((k - 1) as nat);
            assert(n >= 16 * p <==> n / 16 >= p) by (nonlinear_arith)
                requires
                    n >= 16,
                    p >= 1,
            ;
        } else {
            reveal_with_fuel(pow16, 2);
            assert(lower_hex(n / 16).len() >= 1);
        }
    } else {
        lemma_pow16_ge(k);
    }
}

proof fn lemma_pow16_ge(k: nat)
    requires
        k >= 1,
    ensures
        pow16(k) >= 16,
    decreases k,
{
    if k > 1 {
        lemma_pow16_ge((k - 1) as nat);
    } else {
        reveal_with_fuel(pow16, 2);
    }
}

/// Hex digits are lower-case letters or digits.
proof fn lemma_lower_hex_chars(n: nat)
    ensures
        crate::sanitize::all_lower_or_digit(lower_hex(n)),
        forall|i: int| 0 <= i < lower_hex(n).len() ==> (#[trigger] lower_hex(n)[i] as u32) < 0x80,
        !lower_hex(n).contains('-'),
    decreases n,
{
    let h = crate::session_id::hex_digits();
    assert forall|d: int| 0 <= d < 16 implies (crate::text::is_ascii_lower(#[trigger] h[d])
        || crate::text::is_ascii_digit(h[d])) && (h[d] as u32) < 0x80 && h[d] != '-' by {}
    if n >= 16 {
        lemma_lower_hex_chars(n / 16);
        let t = lower_hex(n / 16);
        let x = lower_hex(n);
        assert(x == t.push(h[(n % 16) as int]));
        assert forall|i: int| 0 <= i < x.len() implies (crate::text::is_ascii_lower(#[trigger] x[i])
            || crate::text::is_ascii_digit(x[i])) && (x[i] as u32) < 0x80 && x[i] != '-' by {
            if i < t.len() {
                assert(x[i] == t[i]);
                if t[i] == '-' {
                    assert(t.contains('-'));
                }
            }
        }
        assert(!x.contains('-')) by {
            if x.contains('-') {
                let i = choose|i: int| 0 <= i < x.len() && x[i] == '-';
            }
        }
    } else {
        let x = lower_hex(n);
        assert(x == seq![h[n as int]]);
        assert(!x.contains('-')) by {
            if x.contains('-') {
                let i = choose|i: int| 0 <= i < x.len() && x[i] == '-';
            }
        }
    }
}

/// Decimal digits are ASCII digits.
proof fn lemma_decimal_chars(n: nat)
    ensures
        crate::sanitize::all_ascii_digits(decimal(n)),
        !decimal(n).contains('-'),
    decreases n,
{
    let d = crate::size_format::digits();
    assert forall|k: int| 0 <= k < 10 implies crate::text::is_ascii_digit(#[trigger] d[k]) && d[k]
        != '-' by {}
    let x = decimal(n);
    if n >= 10 {
        lemma_decimal_chars(n / 10);
        let t = decimal(n / 10);
        assert(x == t.push(d[(n % 10) as int]));
        assert forall|i: int| 0 <= i < x.len() implies crate::text::is_ascii_digit(#[trigger] x[i])
            && x[i] != '-' by {
            if i < t.len() {
                assert(x[i] == t[i]);
                if t[i] == '-' {
                    assert(t.contains('-'));
                }
            }
        }
    } else {
        assert(x == seq![d[n as int]]);
    }
    assert(!x.contains('-')) by {
        if x.contains('-') {
            let i = choose|i: int| 0 <= i < x.len() && x[i] == '-';
        }
    }
}

/// The server accepts a batch id made by the client exactly when its
/// random part is written with eight hex digits, that is when the random
/// number is at least `0x1000_0000`; below that the id is refused.
pub proof fn lemma_client_batch_id_validity(now_ms: u64, random: u32)
    ensures
        crate::sanitize::valid_batch_id(decimal(now_ms as nat) + "-"@ + lower_hex(random as nat))
            <==> random >= 0x1000_0000,
{
    reveal_strlit("-");
    let d = decimal(now_ms as nat);
    let h = lower_hex(random as nat);
    let dash = seq!['-'];
    lemma_decimal_chars(now_ms as nat);
    lemma_lower_hex_chars(random as nat);
    assert(crate::text::free_of(d, dash)) by {
        assert forall|i: int| 0 <= i < d.len() implies !dash.contains(#[trigger] d[i]) by {
            if dash.contains(d[i]) {
                assert(dash[0] == '-');
                assert(d.contains('-'));
            }
        }
    }
    assert(crate::text::free_of(h, dash)) by {
        assert forall|i: int| 0 <= i < h.len() implies !dash.contains(#[trigger] h[i]) by {
            if dash.contains(h[i]) {
                assert(h.contains('-'));
            }
        }
    }
    assert(dash.contains('-')) by {
        assert(dash[0] == '-');
    }
    crate::text::lemma_split_free(d, dash);
    crate::text::lemma_split_append(d, '-', h, dash);
    assert("-"@ == dash);
    let ps = split_on(d + dash + h, dash);
    assert(ps == seq![d, h]);
    crate::sanitize::lemma_ascii_utf8_len(h);
    assert(pow16(7) == 0x1000_0000) by {
        reveal_with_fuel(pow16, 8);
    }
    assert(pow16(8) == 0x1_0000_0000) by {
        reveal_with_fuel(pow16, 9);
    }
    lemma_lower_hex_len(random as nat, 7);
    lemma_lower_hex_len(random as nat, 8);
}

// ---------------------------------------------------------------------
// What the page shows
// ---------------------------------------------------------------------

/// The parts of the page that are shown.
#[derive(Clone, Copy, Debug, PartialEq, Eq, Structural)]
pub struct PageLayout {
    /// The PIN form (before signing in).
    pub pin_form: bool,
    /// The list of files queued for upload.
    pub queue: bool,
    /// The button that starts the upload of the queue.
    pub upload_button: bool,
    /// The listing of stored files.
    pub file_list: bool,
    /// The sign-out button.
    pub logout: bool,
    /// The rename dialog.
    pub rename_dialog: bool,
}

/// The page of a state: signed out, only the PIN form; signed in, the
/// queue while files wait and nothing uploads, the upload button too
/// unless uploads start by themselves, the listing when the settings ask
/// for it, and the sign-out button when a PIN is required. The rename
/// dialog shows while an item is being renamed.
pub open spec fn page_layout(s: ClientState) -> PageLayout {
    let signed_in = s.is_authenticated;
    let waiting = !s.is_uploading && s.upload_queue@.len() > 0;
    PageLayout {
        pin_form: !signed_in,
        queue: signed_in && waiting,
        upload_button: signed_in && waiting && match s.config {
            Some(c) => !c.auto_upload,
            None => true,
        },
        file_list: signed_in && match s.config {
            Some(c) => c.show_file_list,
            None => false,
        },
        logout: signed_in && match s.config {
            Some(c) => c.pin_required,
            None => false,
        },
        rename_dialog: s.rename_target is Some,
    }
}

impl ClientState {
    /// The parts of the page that are shown.
    pub fn layout(&self) -> (r: PageLayout)
        ensures
            r == page_layout(*self),
    {
        let signed_in = self.is_authenticated;
        let waiting = !self.is_uploading && self.upload_queue.len() > 0;
        let (auto_upload, show_file_list, pin_required) = match &self.config {
            Some(c) => (c.auto_upload, c.show_file_list, c.pin_required),
            None => (false, false, false),
        };
        PageLayout {
            pin_form: !signed_in,
            queue: signed_in && waiting,
            upload_button: signed_in && waiting && !auto_upload,
            file_list: signed_in && show_file_list,
            logout: signed_in && pin_required,
            rename_dialog: self.rename_target.is_some(),
        }
    }
}

} // verus!
