//! Whether a path lies inside the upload directory.
//!
//! The check needs the file system (which paths exist, what they resolve
//! to), so it is a conversation: the caller answers the questions and the
//! functions here take every decision. A path that must exist is resolved
//! and compared with the resolved upload directory. A path that may not
//! exist yet is refused outright if it holds a `..` component; otherwise it
//! is made absolute and walked component by component, extending the
//! deepest existing ancestor while the candidate exists; the first name
//! that does not exist and every name after it form the suffix. The
//! resolved ancestor must lie inside the upload directory, and so must the
//! ancestor with the suffix attached again.

use vstd::prelude::*;
use crate::paths::{
    body_pieces, body_start, components, dot, dotdot, has_cur_dir, has_root, is_named,
    lemma_join_stays_within, lemma_named_pieces_are_names, named, normalize_path, normalized, path_components, path_eq,
    path_eq_chars, path_join, path_join_chars, path_starts_with, path_starts_with_chars, slash,
};
use crate::text::{chars_eq, free_of, from_chars, lemma_split_pieces_free, split_on, to_chars};

verus! {

broadcast use crate::lemmas::lemma_chars_deep_view;

/// Whether a path holds a `..` component, the sign of a traversal attempt.
pub fn has_parent_component(path: &str) -> (r: bool)
    ensures
        r == components(path@).contains(dotdot()),
{
    let p = to_chars(path);
    let comps = path_components(p.as_slice());
    let dd = vec!['.', '.'];
    assert(dd@ =~= dotdot());
    let mut i: usize = 0;
    while i < comps.len()
        invariant
            i <= comps@.len(),
            comps.deep_view() == components(path@),
            dd@ == dotdot(),
            forall|k: int| 0 <= k < i ==> comps.deep_view()[k] != dotdot(),
        decreases comps.len() - i,
    {
        assert(comps.deep_view()[i as int] == comps@[i as int]@);
        if chars_eq(comps[i].as_slice(), dd.as_slice()) {
            assert(comps.deep_view()[i as int] == dotdot());
            return true;
        }
        i = i + 1;
    }
    false
}

/// The path made absolute: a relative path is taken under `cwd` (the
/// working directory, or nothing when it is unknown).
pub fn absolute_path(file_path: &str, cwd: &str) -> (r: String)
    ensures
        r@ == (if has_root(file_path@) {
            file_path@
        } else {
            path_join(cwd@, file_path@)
        }),
{
    let f = to_chars(file_path);
    let c = to_chars(cwd);
    let j = path_join_chars(c.as_slice(), f.as_slice());
    from_chars(j.as_slice())
}

/// The walk along an absolute path: the deepest ancestor found to exist so
/// far, and the names below it that were not found.
pub struct ContainmentWalk {
    pub existing: String,
    pub suffix: String,
}

/// A suffix as the walk builds it: names only, so it starts with neither
/// the root nor `.`.
pub open spec fn relative_suffix(s: Seq<char>) -> bool {
    !has_root(s) && !has_cur_dir(s)
}

impl ContainmentWalk {
    /// Nothing found yet.
    pub fn new() -> (r: Self)
        ensures
            r.existing@ == Seq::<char>::empty(),
            r.suffix@ == Seq::<char>::empty(),
            relative_suffix(r.suffix@),
    {
        ContainmentWalk { existing: String::new(), suffix: String::new() }
    }

    /// The path whose existence decides a name component: the ancestor
    /// found so far with the name attached.
    pub fn candidate(&self, component: &str) -> (r: String)
        ensures
            r@ == path_join(self.existing@, component@),
    {
        let e = to_chars(self.existing.as_str());
        let c = to_chars(component);
        let j = path_join_chars(e.as_slice(), c.as_slice());
        from_chars(j.as_slice())
    }

    /// One component of the absolute path. The root restarts the ancestor
    /// at `/`; `.` is skipped; a name extends the ancestor when its
    /// candidate exists and is added to the suffix otherwise.
    /// `candidate_exists` is only read for a name.
    pub fn advance(&mut self, component: &str, candidate_exists: bool)
        requires
            component@ != dotdot(),
            component@.len() > 0,
            component@ == slash() || !has_root(component@),
            component@ == seq!['.'] || !has_cur_dir(component@),
            relative_suffix(old(self).suffix@),
        ensures
            relative_suffix(final(self).suffix@),
            component@ == slash() ==> final(self).existing@ == slash() && final(self).suffix@
                == old(self).suffix@,
            component@ == seq!['.'] ==> final(self).existing@ == old(self).existing@
                && final(self).suffix@ == old(self).suffix@,
            component@ != slash() && component@ != seq!['.'] ==> (if candidate_exists {
                final(self).existing@ == path_join(old(self).existing@, component@)
                    && final(self).suffix@ == old(self).suffix@
            } else {
                final(self).existing@ == old(self).existing@ && final(self).suffix@ == path_join(
                    old(self).suffix@,
                    component@,
                )
            }),
    {
        let c = to_chars(component);
        let root = vec!['/'];
        assert(root@ =~= slash());
        let dot = vec!['.'];
        assert(dot@ =~= seq!['.']);
        if chars_eq(c.as_slice(), root.as_slice()) {
            self.existing = from_chars(root.as_slice());
        } else if chars_eq(c.as_slice(), dot.as_slice()) {
        } else if candidate_exists {
            let e = to_chars(self.existing.as_str());
            let j = path_join_chars(e.as_slice(), c.as_slice());
            self.existing = from_chars(j.as_slice());
        } else {
            let s = to_chars(self.suffix.as_str());
            let j = path_join_chars(s.as_slice(), c.as_slice());
            proof {
                let sv = s@;
                let cv = c@;
                let jv = path_join(sv, cv);
                if sv.len() > 0 {
                    assert(jv[0] == sv[0]);
                    assert(sv.len() == 1 ==> sv[0] != '.' && sv[0] != '/');
                    assert(sv.len() >= 2 ==> jv[1] == sv[1]);
                } else {
                    assert(jv =~= cv);
                }
            }
            self.suffix = from_chars(j.as_slice());
        }
    }

    /// Whether the walk found nothing to resolve (no ancestor, or the
    /// ancestor and the suffix are the same path), so that only the
    /// lexical check is left.
    pub fn needs_lexical_check(&self) -> (r: bool)
        ensures
            r == (path_eq(self.suffix@, self.existing@) || self.existing@.len() == 0),
    {
        let s = to_chars(self.suffix.as_str());
        let e = to_chars(self.existing.as_str());
        path_eq_chars(s.as_slice(), e.as_slice()) || e.len() == 0
    }
}

/// `path` lies under `dir`: the components of `dir` begin those of `path`.
pub fn path_is_within(path: &str, dir: &str) -> (r: bool)
    ensures
        r == path_starts_with(path@, dir@),
{
    let p = to_chars(path);
    let d = to_chars(dir);
    path_starts_with_chars(p.as_slice(), d.as_slice())
}

/// The check when nothing on the path could be resolved: the lexically
/// normalised absolute path lies under the resolved upload directory.
pub fn lexically_within(absolute: &str, real_upload_dir: &str) -> (r: bool)
    ensures
        r == path_starts_with(normalized(absolute@), real_upload_dir@),
{
    let n = normalize_path(absolute);
    path_is_within(n.as_str(), real_upload_dir)
}

/// The check after the deepest existing ancestor was resolved: the resolved
/// ancestor lies under the resolved upload directory, and so does the
/// ancestor with the suffix attached.
pub fn canonically_within(canonical_existing: &str, suffix: &str, real_upload_dir: &str) -> (r:
    bool)
    ensures
        r == (path_starts_with(canonical_existing@, real_upload_dir@) && path_starts_with(
            path_join(canonical_existing@, suffix@),
            real_upload_dir@,
        )),
{
    if !path_is_within(canonical_existing, real_upload_dir) {
        return false;
    }
    let e = to_chars(canonical_existing);
    let s = to_chars(suffix);
    let candidate = from_chars(path_join_chars(e.as_slice(), s.as_slice()).as_slice());
    path_is_within(candidate.as_str(), real_upload_dir)
}

/// With a suffix built by the walk, the second condition of
/// `canonically_within` follows from the first: attaching the names that
/// were not found never leads out of the upload directory.
pub proof fn lemma_suffix_stays_within(canonical_existing: Seq<char>, suffix: Seq<char>, dir: Seq<char>)
    requires
        relative_suffix(suffix),
        path_starts_with(canonical_existing, dir),
    ensures
        path_starts_with(path_join(canonical_existing, suffix), dir),
{
    lemma_join_stays_within(canonical_existing, suffix, dir);
}

// ---------------------------------------------------------------------
// The components walked
// ---------------------------------------------------------------------

/// How many components lead the path (its root, or a leading `.`).
pub open spec fn head_len(comps: Seq<Seq<char>>) -> int {
    if comps.len() > 0 && (comps[0] == slash() || comps[0] == dot()) {
        1
    } else {
        0
    }
}

/// Past the leading component, every component of a path is a name: not
/// empty, not `.`, and holding no `/`.
proof fn lemma_component_is_name(abs: Seq<char>, k: int)
    requires
        head_len(components(abs)) <= k < components(abs).len(),
    ensures
        components(abs)[k].len() > 0,
        components(abs)[k] != dot(),
        components(abs)[k] != slash(),
        !has_root(components(abs)[k]),
        !has_cur_dir(components(abs)[k]),
{
    let bp = body_pieces(abs);
    lemma_split_pieces_free(abs.skip(body_start(abs)), slash());
    lemma_named_pieces_are_names(bp);
    let nm = named(bp);
    let comps = components(abs);
    let h: int = if has_root(abs) || has_cur_dir(abs) { 1 } else { 0 };
    if h == 0 && nm.len() > 0 {
        assert(comps[0] == nm[0]);
        assert(is_named(nm[0]) && free_of(nm[0], slash()));
        assert(nm[0] != slash()) by {
            if nm[0] == slash() {
                assert(slash().contains(nm[0][0]));
            }
        }
    }
    assert(head_len(comps) == h);
    let c = comps[k];
    assert(c == nm[k - h]);
    assert(is_named(c) && free_of(c, slash()));
    assert(slash()[0] == '/');
    assert(slash().contains('/'));
    assert(c != slash()) by {
        if c == slash() {
            assert(slash().contains(c[0]));
        }
    }
    if c.len() == 1 && c[0] == '.' {
        assert(c =~= dot());
    }
    if c.len() > 1 && c[1] == '/' {
        assert(slash().contains(c[1]));
    }
}


// ---------------------------------------------------------------------
// The whole check as a state machine
// ---------------------------------------------------------------------

/// What the check waits for.
#[derive(Clone, Copy, Debug, PartialEq, Eq, Structural)]
pub enum WithinStage {
    /// The resolved upload directory.
    ResolvingDir,
    /// Whether the path (which must exist) exists.
    CheckingFile,
    /// The resolved path.
    ResolvingFile,
    /// The working directory, to make a relative path absolute.
    AskingWorkingDir,
    /// Whether the current candidate exists.
    Walking,
    /// The resolved deepest existing ancestor.
    ResolvingAncestor,
    /// Nothing: the path lies inside the upload directory, or not.
    Answered(bool),
}

/// What the caller must do next.
#[derive(Debug, PartialEq, Eq)]
pub enum WithinRequest {
    /// Resolve the path through symbolic links (`fs::canonicalize`).
    Resolve(String),
    /// Tell whether the path exists.
    Exists(String),
    /// Tell the working directory (nothing when it is unknown).
    WorkingDir,
    /// The path lies inside the upload directory, or not.
    Answer(bool),
}

pub enum WithinRequestView {
    Resolve(Seq<char>),
    Exists(Seq<char>),
    WorkingDir,
    Answer(bool),
}

impl View for WithinRequest {
    type V = WithinRequestView;

    open spec fn view(&self) -> WithinRequestView {
        match self {
            WithinRequest::Resolve(p) => WithinRequestView::Resolve(p@),
            WithinRequest::Exists(p) => WithinRequestView::Exists(p@),
            WithinRequest::WorkingDir => WithinRequestView::WorkingDir,
            WithinRequest::Answer(b) => WithinRequestView::Answer(*b),
        }
    }
}

/// The answer to the last request.
#[derive(Debug, PartialEq, Eq)]
pub enum WithinEvent {
    /// The resolved path, or nothing when it could not be resolved.
    Resolved(Option<String>),
    /// Whether the path exists.
    Exists(bool),
    /// The working directory.
    WorkingDir(String),
}

/// The check whether `file_path` lies inside `upload_dir`.
pub struct WithinCheck {
    pub file_path: String,
    pub upload_dir: String,
    /// Whether the path must exist.
    pub require_exists: bool,
    /// The resolved upload directory.
    pub real_dir: String,
    /// The path made absolute.
    pub absolute: String,
    /// The components of the absolute path.
    pub comps: Vec<Vec<char>>,
    /// The next component to walk.
    pub index: usize,
    pub walk: ContainmentWalk,
    pub stage: WithinStage,
}

pub struct WithinView {
    pub file_path: Seq<char>,
    pub upload_dir: Seq<char>,
    pub require_exists: bool,
    pub real_dir: Seq<char>,
    pub absolute: Seq<char>,
    pub comps: Seq<Seq<char>>,
    pub index: int,
    pub existing: Seq<char>,
    pub suffix: Seq<char>,
    pub stage: WithinStage,
}

impl View for WithinCheck {
    type V = WithinView;

    open spec fn view(&self) -> WithinView {
        WithinView {
            file_path: self.file_path@,
            upload_dir: self.upload_dir@,
            require_exists: self.require_exists,
            real_dir: self.real_dir@,
            absolute: self.absolute@,
            comps: self.comps.deep_view(),
            index: self.index as int,
            existing: self.walk.existing@,
            suffix: self.walk.suffix@,
            stage: self.stage,
        }
    }
}

/// The check whether `file_path` lies inside `upload_dir`; it starts by
/// resolving the upload directory.
pub open spec fn within_start(file_path: Seq<char>, upload_dir: Seq<char>, require_exists: bool) -> WithinView {
    WithinView {
        file_path,
        upload_dir,
        require_exists,
        real_dir: Seq::<char>::empty(),
        absolute: Seq::<char>::empty(),
        comps: Seq::<Seq<char>>::empty(),
        index: 0,
        existing: Seq::<char>::empty(),
        suffix: Seq::<char>::empty(),
        stage: WithinStage::ResolvingDir,
    }
}

/// What the check waits for.
pub open spec fn within_requested(v: WithinView) -> WithinRequestView {
    match v.stage {
        WithinStage::ResolvingDir => WithinRequestView::Resolve(v.upload_dir),
        WithinStage::CheckingFile => WithinRequestView::Exists(v.file_path),
        WithinStage::ResolvingFile => WithinRequestView::Resolve(v.file_path),
        WithinStage::AskingWorkingDir => WithinRequestView::WorkingDir,
        WithinStage::Walking => WithinRequestView::Exists(path_join(v.existing, v.comps[v.index])),
        WithinStage::ResolvingAncestor => WithinRequestView::Resolve(v.existing),
        WithinStage::Answered(b) => WithinRequestView::Answer(b),
    }
}

pub open spec fn answer(v: WithinView, b: bool) -> WithinView {
    WithinView { stage: WithinStage::Answered(b), ..v }
}

/// Once every component is walked: when nothing could be resolved (no
/// ancestor found, or the ancestor and the suffix are the same path) the
/// normalised path must lie under the upload directory; otherwise the
/// ancestor is resolved.
pub open spec fn walk_done(v: WithinView) -> WithinView {
    if path_eq(v.suffix, v.existing) || v.existing.len() == 0 {
        answer(v, path_starts_with(normalized(v.absolute), v.real_dir))
    } else {
        WithinView { stage: WithinStage::ResolvingAncestor, ..v }
    }
}

/// Asks about the next component, or ends the walk.
pub open spec fn walk_on(v: WithinView) -> WithinView {
    if v.index < v.comps.len() {
        WithinView { stage: WithinStage::Walking, ..v }
    } else {
        walk_done(v)
    }
}

/// The walk along the absolute path: a leading root makes `/` the first
/// ancestor, a leading `.` is skipped, and the names are asked about one
/// after the other.
pub open spec fn begin_walk(v: WithinView, absolute: Seq<char>) -> WithinView {
    let comps = components(absolute);
    walk_on(
        WithinView {
            absolute,
            comps,
            index: head_len(comps),
            existing: if head_len(comps) == 1 && comps[0] == slash() {
                slash()
            } else {
                Seq::<char>::empty()
            },
            suffix: Seq::<char>::empty(),
            ..v
        },
    )
}

/// `suffix` with the components from index `i` on attached one after the
/// other: once a name is missing, the rest of the path cannot exist either,
/// so it all goes to the suffix without asking.
pub open spec fn attach_rest(suffix: Seq<char>, comps: Seq<Seq<char>>, i: int) -> Seq<char>
    decreases comps.len() - i,
{
    if 0 <= i < comps.len() {
        attach_rest(path_join(suffix, comps[i]), comps, i + 1)
    } else {
        suffix
    }
}

/// The check after the answer `e`; an answer of another kind than the
/// request changes nothing, and so does any answer once it has answered.
pub open spec fn within_next(v: WithinView, e: WithinEvent) -> WithinView {
    match v.stage {
        WithinStage::ResolvingDir => match e {
            WithinEvent::Resolved(None) => answer(v, false),
            WithinEvent::Resolved(Some(d)) => {
                let w = WithinView { real_dir: d@, ..v };
                if v.require_exists {
                    WithinView { stage: WithinStage::CheckingFile, ..w }
                } else if components(v.file_path).contains(dotdot()) {
                    answer(w, false)
                } else if has_root(v.file_path) {
                    begin_walk(w, v.file_path)
                } else {
                    WithinView { stage: WithinStage::AskingWorkingDir, ..w }
                }
            },
            _ => v,
        },
        WithinStage::CheckingFile => match e {
            WithinEvent::Exists(ex) => if ex {
                WithinView { stage: WithinStage::ResolvingFile, ..v }
            } else {
                answer(v, false)
            },
            _ => v,
        },
        WithinStage::ResolvingFile => match e {
            WithinEvent::Resolved(None) => answer(v, false),
            WithinEvent::Resolved(Some(p)) => answer(v, path_starts_with(p@, v.real_dir)),
            _ => v,
        },
        WithinStage::AskingWorkingDir => match e {
            WithinEvent::WorkingDir(c) => begin_walk(v, path_join(c@, v.file_path)),
            _ => v,
        },
        WithinStage::Walking => match e {
            WithinEvent::Exists(ex) => {
                if ex {
                    walk_on(
                        WithinView {
                            existing: path_join(v.existing, v.comps[v.index]),
                            index: v.index + 1,
                            ..v
                        },
                    )
                } else {
                    walk_done(
                        WithinView {
                            suffix: attach_rest(v.suffix, v.comps, v.index),
                            index: v.comps.len() as int,
                            ..v
                        },
                    )
                }
            },
            _ => v,
        },
        WithinStage::ResolvingAncestor => match e {
            WithinEvent::Resolved(None) => answer(v, false),
            WithinEvent::Resolved(Some(c)) => answer(
                v,
                path_starts_with(c@, v.real_dir) && path_starts_with(
                    path_join(c@, v.suffix),
                    v.real_dir,
                ),
            ),
            _ => v,
        },
        WithinStage::Answered(_) => v,
    }
}

/// Whether the working directory given would put a `..` component on the
/// walked path.
pub open spec fn within_undefined(v: WithinView, e: WithinEvent) -> bool {
    &&& v.stage is AskingWorkingDir
    &&& e matches WithinEvent::WorkingDir(c) && components(path_join(c@, v.file_path)).contains(
        dotdot(),
    )
}

/// What holds of every check: while walking, the components are those of
/// the absolute path, hold no `..`, and the next one is past the leading
/// one; the suffix is made of names only, and it is empty for as long as
/// names are asked about (every name so far was found).
pub open spec fn within_inv(v: WithinView) -> bool {
    &&& relative_suffix(v.suffix)
    &&& v.stage is Walking ==> v.suffix.len() == 0
    &&& (v.stage is Walking || v.stage is ResolvingAncestor) ==> {
        &&& v.comps == components(v.absolute)
        &&& !v.comps.contains(dotdot())
        &&& head_len(v.comps) <= v.index <= v.comps.len()
    }
    &&& v.stage is Walking ==> v.index < v.comps.len()
    &&& (v.stage is AskingWorkingDir) ==> !components(v.file_path).contains(dotdot())
}

/// Attaching a name to a suffix of names leaves a suffix of names.
proof fn lemma_suffix_extends(s: Seq<char>, c: Seq<char>)
    requires
        relative_suffix(s),
        c.len() > 0,
        !has_root(c),
        !has_cur_dir(c),
    ensures
        relative_suffix(path_join(s, c)),
{
    let j = path_join(s, c);
    if s.len() > 0 {
        assert(j[0] == s[0]);
        if s.len() >= 2 {
            assert(j[1] == s[1]);
        } else {
            assert(s[0] != '/' && s[0] != '.' ==> !has_cur_dir(j));
            if s[0] == '.' {
                assert(has_cur_dir(s));
            }
        }
    } else {
        assert(j =~= c);
    }
}

/// Attaching the names past the leading component keeps a suffix of names.
proof fn lemma_attach_rest_relative(suffix: Seq<char>, abs: Seq<char>, i: int)
    requires
        relative_suffix(suffix),
        head_len(components(abs)) <= i,
    ensures
        relative_suffix(attach_rest(suffix, components(abs), i)),
    decreases components(abs).len() - i,
{
    let comps = components(abs);
    if 0 <= i < comps.len() {
        lemma_component_is_name(abs, i);
        lemma_suffix_extends(suffix, comps[i]);
        lemma_attach_rest_relative(path_join(suffix, comps[i]), abs, i + 1);
    }
}

/// Every answer keeps what holds of a check.
pub proof fn lemma_within_keeps_inv(v: WithinView, e: WithinEvent)
    requires
        within_inv(v),
        !within_undefined(v, e),
    ensures
        within_inv(within_next(v, e)),
{
    let w = within_next(v, e);
    if v.stage is Walking && e is Exists {
        lemma_attach_rest_relative(v.suffix, v.absolute, v.index);
    }
    if v.stage is ResolvingDir && e matches WithinEvent::Resolved(Some(_)) {
        assert(relative_suffix(Seq::<char>::empty()));
    }
    if v.stage is AskingWorkingDir && e is WorkingDir {
        assert(relative_suffix(Seq::<char>::empty()));
    }
}

/// A path that may not exist yet and holds a `..` component is refused as
/// soon as the upload directory is resolved, whatever lies on disk.
pub proof fn lemma_parent_component_refused(v: WithinView, d: String)
    requires
        v.stage is ResolvingDir,
        !v.require_exists,
        components(v.file_path).contains(dotdot()),
    ensures
        within_next(v, WithinEvent::Resolved(Some(d))).stage == WithinStage::Answered(false),
{
}

/// A path is accepted only when a resolved path lies under the resolved
/// upload directory: the path itself, or its deepest existing ancestor
/// together with that ancestor carrying the names not found, or, when
/// nothing could be resolved, the normalised absolute path.
pub proof fn lemma_accepted_only_within(v: WithinView, e: WithinEvent)
    requires
        !(v.stage is Answered),
        within_next(v, e).stage == WithinStage::Answered(true),
    ensures
        (v.stage is ResolvingFile && (e matches WithinEvent::Resolved(Some(p)) && path_starts_with(
            p@,
            v.real_dir,
        ))) || (v.stage is ResolvingAncestor && (e matches WithinEvent::Resolved(Some(c))
            && path_starts_with(c@, v.real_dir) && path_starts_with(
            path_join(c@, v.suffix),
            v.real_dir,
        ))) || path_starts_with(normalized(within_next(v, e).absolute), within_next(v, e).real_dir),
{
}

/// The walk asks only about a name directly below the deepest ancestor
/// found: while it asks, no name was missing, and once a name is missing
/// no further name is asked about; the rest of the path becomes the
/// suffix.
pub proof fn lemma_walk_stops_at_first_missing(v: WithinView)
    requires
        within_inv(v),
        v.stage is Walking,
    ensures
        v.suffix.len() == 0,
        within_requested(v) == WithinRequestView::Exists(path_join(v.existing, v.comps[v.index])),
        !(within_next(v, WithinEvent::Exists(false)).stage is Walking),
        within_next(v, WithinEvent::Exists(false)).suffix == attach_rest(v.suffix, v.comps, v.index),
        within_next(v, WithinEvent::Exists(false)).existing == v.existing,
{
}

/// Joining nothing to a path (which adds a trailing `/`) leaves its
/// components, so it lies under the same directories.
proof fn lemma_join_nothing(c: Seq<char>, dir: Seq<char>)
    ensures
        components(path_join(c, Seq::<char>::empty())) == components(c),
        path_starts_with(path_join(c, Seq::<char>::empty()), dir) == path_starts_with(c, dir),
{
    let e = Seq::<char>::empty();
    crate::paths::lemma_components_join(c, e);
    let ps = split_on(e, slash());
    assert(ps =~= seq![e]);
    assert(ps.drop_last() =~= Seq::<Seq<char>>::empty());
    assert(!is_named(ps.last()));
    assert(named(ps) == named(ps.drop_last()));
    assert(named(Seq::<Seq<char>>::empty()) =~= Seq::<Seq<char>>::empty());
    assert(components(c) + named(ps) =~= components(c));
}

/// Once the deepest existing ancestor is resolved, the check accepts the
/// path exactly when the resolved ancestor lies under the resolved upload
/// directory and so does the ancestor with the names not found attached;
/// in particular, a path whose every name exists (nothing left to attach)
/// is accepted exactly when its resolved form lies under the resolved
/// upload directory, and an ancestor that cannot be resolved refuses it.
pub proof fn lemma_ancestor_decides(v: WithinView, c: String)
    requires
        v.stage is ResolvingAncestor,
    ensures
        within_next(v, WithinEvent::Resolved(Some(c))).stage == WithinStage::Answered(
            path_starts_with(c@, v.real_dir) && path_starts_with(path_join(c@, v.suffix), v.real_dir),
        ),
        v.suffix.len() == 0 ==> (within_next(v, WithinEvent::Resolved(Some(c))).stage
            == WithinStage::Answered(true) <==> path_starts_with(c@, v.real_dir)),
        within_next(v, WithinEvent::Resolved(None)).stage == WithinStage::Answered(false),
{
    if v.suffix.len() == 0 {
        assert(v.suffix =~= Seq::<char>::empty());
        lemma_join_nothing(c@, v.real_dir);
    }
}

/// A path that must exist is accepted exactly when it exists and its
/// resolved form lies under the resolved upload directory.
pub proof fn lemma_existing_path_decides(v: WithinView, p: String)
    requires
        v.stage is ResolvingFile,
    ensures
        within_next(v, WithinEvent::Resolved(Some(p))).stage == WithinStage::Answered(
            path_starts_with(p@, v.real_dir),
        ),
        within_next(v, WithinEvent::Resolved(None)).stage == WithinStage::Answered(false),
{
}

/// Once the check has answered, no answer changes it.
pub proof fn lemma_within_answer_is_final(v: WithinView, e: WithinEvent)
    requires
        v.stage is Answered,
    ensures
        within_next(v, e) == v,
{
}

impl WithinCheck {
    /// Starts the check whether `file_path` lies inside `upload_dir`; with
    /// `require_exists` the path must also exist.
    pub fn new(file_path: &str, upload_dir: &str, require_exists: bool) -> (r: (WithinCheck, WithinRequest))
        ensures
            r.0@ == within_start(file_path@, upload_dir@, require_exists),
            within_inv(r.0@),
            r.1@ == within_requested(r.0@),
    {
        let check = WithinCheck {
            file_path: file_path.to_string(),
            upload_dir: upload_dir.to_string(),
            require_exists,
            real_dir: String::new(),
            absolute: String::new(),
            comps: Vec::new(),
            index: 0,
            walk: ContainmentWalk::new(),
            stage: WithinStage::ResolvingDir,
        };
        assert(check.comps.deep_view() =~= Seq::<Seq<char>>::empty());
        assert(check@ =~= within_start(file_path@, upload_dir@, require_exists));
        let req = check.pending();
        (check, req)
    }

    /// The request the check waits for.
    pub fn pending(&self) -> (r: WithinRequest)
        requires
            within_inv(self@),
        ensures
            r@ == within_requested(self@),
    {
        match self.stage {
            WithinStage::ResolvingDir => WithinRequest::Resolve(self.upload_dir.clone()),
            WithinStage::CheckingFile => WithinRequest::Exists(self.file_path.clone()),
            WithinStage::ResolvingFile => WithinRequest::Resolve(self.file_path.clone()),
            WithinStage::AskingWorkingDir => WithinRequest::WorkingDir,
            WithinStage::Walking => {
                let c = from_chars(self.comps[self.index].as_slice());
                assert(self.comps.deep_view()[self.index as int] == self.comps@[self.index as int]@);
                WithinRequest::Exists(self.walk.candidate(c.as_str()))
            },
            WithinStage::ResolvingAncestor => WithinRequest::Resolve(self.walk.existing.clone()),
            WithinStage::Answered(b) => WithinRequest::Answer(b),
        }
    }

    /// Whether the working directory given would put a `..` component on
    /// the walked path.
    pub fn undefined_on(&self, e: &WithinEvent) -> (r: bool)
        ensures
            r == within_undefined(self@, *e),
    {
        match (self.stage, e) {
            (WithinStage::AskingWorkingDir, WithinEvent::WorkingDir(c)) => {
                let a = absolute_path(self.file_path.as_str(), c.as_str());
                has_parent_component(a.as_str())
            },
            _ => false,
        }
    }

    /// Asks about the next component, or ends the walk.
    fn walk_on(&mut self)
        requires
            relative_suffix(old(self).walk.suffix@),
        ensures
            final(self)@ == walk_on(old(self)@),
    {
        if self.index < self.comps.len() {
            self.stage = WithinStage::Walking;
        } else {
            self.walk_done();
        }
    }

    /// Ends the walk.
    fn walk_done(&mut self)
        ensures
            final(self)@ == walk_done(old(self)@),
    {
        if self.walk.needs_lexical_check() {
            self.stage = WithinStage::Answered(
                lexically_within(self.absolute.as_str(), self.real_dir.as_str()),
            );
        } else {
            self.stage = WithinStage::ResolvingAncestor;
        }
    }

    /// Attaches every component from the next one on to the suffix.
    fn attach_rest(&mut self)
        requires
            relative_suffix(old(self).walk.suffix@),
            old(self).comps.deep_view() == components(old(self).absolute@),
            !old(self).comps.deep_view().contains(dotdot()),
            head_len(old(self).comps.deep_view()) <= old(self).index <= old(self).comps@.len(),
        ensures
            final(self)@ == (WithinView {
                suffix: attach_rest(old(self)@.suffix, old(self)@.comps, old(self)@.index),
                index: old(self)@.comps.len() as int,
                ..old(self)@
            }),
    {
        let ghost v = self@;
        let ghost target = attach_rest(v.suffix, v.comps, v.index);
        while self.index < self.comps.len()
            invariant
                self.comps.deep_view() == v.comps,
                v.comps == components(v.absolute),
                !v.comps.contains(dotdot()),
                head_len(v.comps) <= self.index <= self.comps@.len(),
                self.comps.deep_view().len() == self.comps@.len(),
                relative_suffix(self.walk.suffix@),
                attach_rest(self.walk.suffix@, v.comps, self.index as int) == target,
                self@ == (WithinView {
                    suffix: self.walk.suffix@,
                    existing: v.existing,
                    index: self.index as int,
                    ..v
                }),
            decreases self.comps.len() - self.index,
        {
            proof {
                lemma_component_is_name(v.absolute, self.index as int);
                assert(self.comps.deep_view()[self.index as int] == self.comps@[self.index as int]@);
            }
            let c = from_chars(self.comps[self.index].as_slice());
            assert(c@ != dotdot());
            self.walk.advance(c.as_str(), false);
            self.index = self.index + 1;
        }
    }

    /// Starts the walk along the absolute path.
    fn begin_walk(&mut self, absolute: String)
        ensures
            final(self)@ == begin_walk(old(self)@, absolute@),
    {
        let a = to_chars(absolute.as_str());
        let comps = path_components(a.as_slice());
        let mut walk = ContainmentWalk::new();
        let mut index: usize = 0;
        let ghost cv = comps.deep_view();
        if comps.len() > 0 {
            assert(cv[0] == comps@[0]@);
            let root = vec!['/'];
            assert(root@ =~= slash());
            let here = vec!['.'];
            assert(here@ =~= dot());
            if chars_eq(comps[0].as_slice(), root.as_slice()) || chars_eq(
                comps[0].as_slice(),
                here.as_slice(),
            ) {
                let head = from_chars(comps[0].as_slice());
                walk.advance(head.as_str(), false);
                index = 1;
            }
        }
        self.absolute = absolute;
        self.comps = comps;
        self.index = index;
        self.walk = walk;
        self.walk_on();
    }

    /// Takes the answer to the pending request, moves on as `within_next`
    /// says, and returns the next request.
    pub fn step(&mut self, e: WithinEvent) -> (r: WithinRequest)
        requires
            within_inv(old(self)@),
            !within_undefined(old(self)@, e),
        ensures
            final(self)@ == within_next(old(self)@, e),
            within_inv(final(self)@),
            r@ == within_requested(final(self)@),
    {
        let ghost v = self@;
        let ghost ev = e;
        proof {
            lemma_within_keeps_inv(v, ev);
        }
        match self.stage {
            WithinStage::ResolvingDir => match e {
                WithinEvent::Resolved(None) => {
                    self.stage = WithinStage::Answered(false);
                },
                WithinEvent::Resolved(Some(d)) => {
                    self.real_dir = d;
                    if self.require_exists {
                        self.stage = WithinStage::CheckingFile;
                    } else if has_parent_component(self.file_path.as_str()) {
                        self.stage = WithinStage::Answered(false);
                    } else {
                        let f = to_chars(self.file_path.as_str());
                        if f.len() > 0 && f[0] == '/' {
                            let p = self.file_path.clone();
                            self.begin_walk(p);
                        } else {
                            self.stage = WithinStage::AskingWorkingDir;
                        }
                    }
                },
                _ => {},
            },
            WithinStage::CheckingFile => match e {
                WithinEvent::Exists(ex) => {
                    self.stage = if ex {
                        WithinStage::ResolvingFile
                    } else {
                        WithinStage::Answered(false)
                    };
                },
                _ => {},
            },
            WithinStage::ResolvingFile => match e {
                WithinEvent::Resolved(None) => {
                    self.stage = WithinStage::Answered(false);
                },
                WithinEvent::Resolved(Some(p)) => {
                    self.stage = WithinStage::Answered(
                        path_is_within(p.as_str(), self.real_dir.as_str()),
                    );
                },
                _ => {},
            },
            WithinStage::AskingWorkingDir => match e {
                WithinEvent::WorkingDir(c) => {
                    let a = absolute_path(self.file_path.as_str(), c.as_str());
                    self.begin_walk(a);
                },
                _ => {},
            },
            WithinStage::Walking => match e {
                WithinEvent::Exists(ex) => {
                    proof {
                        assert(self.comps.deep_view().len() == self.comps@.len());
                        lemma_component_is_name(self.absolute@, self.index as int);
                        assert(self.comps.deep_view()[self.index as int] == self.comps@[self.index as int]@);
                        assert(!self.comps.deep_view().contains(dotdot()));
                    }
                    assert(self.index < self.comps.len());
                    if ex {
                        let c = from_chars(self.comps[self.index].as_slice());
                        assert(c@ != dotdot());
                        self.walk.advance(c.as_str(), true);
                        self.index = self.index + 1;
                        self.walk_on();
                    } else {
                        self.attach_rest();
                        self.walk_done();
                    }
                },
                _ => {},
            },
            WithinStage::ResolvingAncestor => match e {
                WithinEvent::Resolved(None) => {
                    self.stage = WithinStage::Answered(false);
                },
                WithinEvent::Resolved(Some(c)) => {
                    self.stage = WithinStage::Answered(
                        canonically_within(
                            c.as_str(),
                            self.walk.suffix.as_str(),
                            self.real_dir.as_str(),
                        ),
                    );
                },
                _ => {},
            },
            WithinStage::Answered(_) => {},
        }
        assert(self@ == within_next(v, ev));
        self.pending()
    }
}

} // verus!
