//! Unix paths as strings.
//!
//! A path is read the way `std::path::Path` reads it on Unix: a leading
//! `/` is the root, a leading `.` followed by `/` or the end is the current
//! directory, and the rest (the body) is cut at every `/`; empty pieces and
//! `.` pieces of the body are not components. Components are represented as
//! character sequences: the root as `"/"`, the current directory as `"."`,
//! the parent directory as `".."` and a name as itself, which are exactly
//! the strings `Component::as_os_str` gives.

use vstd::prelude::*;
use crate::lemmas::{lemma_pop_deep_view, lemma_push_deep_view};
use crate::text::{
    free_of, lemma_join_head, lemma_split_join, lemma_split_on_nonempty, lemma_split_pieces_free,
    chars_eq, concat_chars, from_chars, join_chars, join_with, slice_chars, split_chars, split_on,
    to_chars,
};

verus! {

broadcast use crate::lemmas::lemma_chars_deep_view;

pub open spec fn slash() -> Seq<char> {
    seq!['/']
}

pub open spec fn dot() -> Seq<char> {
    seq!['.']
}

pub open spec fn dotdot() -> Seq<char> {
    seq!['.', '.']
}

pub open spec fn has_root(s: Seq<char>) -> bool {
    s.len() > 0 && s[0] == '/'
}

pub open spec fn has_cur_dir(s: Seq<char>) -> bool {
    !has_root(s) && s.len() > 0 && s[0] == '.' && (s.len() == 1 || s[1] == '/')
}

/// Where the body starts: after the root or the leading current directory.
pub open spec fn body_start(s: Seq<char>) -> int {
    if has_root(s) || has_cur_dir(s) {
        1
    } else {
        0
    }
}

/// The text before the body: `"/"`, `"."` or nothing.
pub open spec fn path_head(s: Seq<char>) -> Seq<char> {
    s.take(body_start(s))
}

/// The body cut at every `/`.
pub open spec fn body_pieces(s: Seq<char>) -> Seq<Seq<char>> {
    split_on(s.skip(body_start(s)), slash())
}

/// A body piece that is a component (not empty, not `.`).
pub open spec fn is_named(p: Seq<char>) -> bool {
    p.len() > 0 && p != dot()
}

/// The pieces that are components, in order.
pub open spec fn named(ps: Seq<Seq<char>>) -> Seq<Seq<char>>
    decreases ps.len(),
{
    if ps.len() == 0 {
        Seq::<Seq<char>>::empty()
    } else if is_named(ps.last()) {
        named(ps.drop_last()).push(ps.last())
    } else {
        named(ps.drop_last())
    }
}

/// The components of a path, as `Path::components` yields them.
pub open spec fn components(s: Seq<char>) -> Seq<Seq<char>> {
    if has_root(s) {
        seq![slash()] + named(body_pieces(s))
    } else if has_cur_dir(s) {
        seq![dot()] + named(body_pieces(s))
    } else {
        named(body_pieces(s))
    }
}

/// `Path::starts_with`: the components of `base` are a prefix of those of `path`.
pub open spec fn path_starts_with(path: Seq<char>, base: Seq<char>) -> bool {
    let cp = components(path);
    let cb = components(base);
    cb.len() <= cp.len() && cp.take(cb.len() as int) == cb
}

/// Path equality (`PathBuf == PathBuf`): equal components.
pub open spec fn path_eq(a: Seq<char>, b: Seq<char>) -> bool {
    components(a) == components(b)
}

/// `base.join(p)`: an absolute `p` replaces `base`; otherwise `p` is
/// appended, with a `/` between them when `base` is not empty and does not
/// already end in `/`.
pub open spec fn path_join(base: Seq<char>, p: Seq<char>) -> Seq<char> {
    if has_root(p) {
        p
    } else if base.len() > 0 && base.last() != '/' {
        base + slash() + p
    } else {
        base + p
    }
}

/// The normal pieces left after resolving `..` against the pieces before it:
/// a `..` removes the last kept name, or nothing when none is kept.
pub open spec fn resolve_dots(ps: Seq<Seq<char>>) -> Seq<Seq<char>>
    decreases ps.len(),
{
    if ps.len() == 0 {
        Seq::<Seq<char>>::empty()
    } else {
        let init = resolve_dots(ps.drop_last());
        if ps.last() == dotdot() {
            if init.len() > 0 {
                init.drop_last()
            } else {
                init
            }
        } else {
            init.push(ps.last())
        }
    }
}

/// The lexically normalised form of a path: the root kept, `.` dropped,
/// each `..` cancelling the name before it, names joined by `/`.
pub open spec fn normalized(s: Seq<char>) -> Seq<char> {
    (if has_root(s) {
        slash()
    } else {
        Seq::<char>::empty()
    }) + join_with(resolve_dots(named(body_pieces(s))), slash())
}

/// `Path::file_name`: the last component when it is a name.
pub open spec fn file_name(s: Seq<char>) -> Option<Seq<char>> {
    let c = components(s);
    if c.len() > 0 && c.last() != slash() && c.last() != dot() && c.last() != dotdot() {
        Some(c.last())
    } else {
        None
    }
}

/// The index of the last `.` in `s`, or -1.
pub open spec fn last_dot(s: Seq<char>) -> int
    decreases s.len(),
{
    if s.len() == 0 {
        -1
    } else if s.last() == '.' {
        s.len() - 1
    } else {
        last_dot(s.drop_last())
    }
}

/// The stem of a file name: the text before its last `.`, unless there is
/// no `.` or the only split would leave an empty stem.
pub open spec fn name_stem(name: Seq<char>) -> Seq<char> {
    if last_dot(name) <= 0 {
        name
    } else {
        name.take(last_dot(name))
    }
}

/// The extension of a file name: the text after its last `.`, under the
/// same condition as `name_stem`.
pub open spec fn name_extension(name: Seq<char>) -> Option<Seq<char>> {
    if last_dot(name) <= 0 {
        None
    } else {
        Some(name.skip(last_dot(name) + 1))
    }
}

/// `Path::file_stem`.
pub open spec fn file_stem(s: Seq<char>) -> Option<Seq<char>> {
    match file_name(s) {
        Some(n) => Some(name_stem(n)),
        None => None,
    }
}

/// `Path::extension`.
pub open spec fn extension(s: Seq<char>) -> Option<Seq<char>> {
    match file_name(s) {
        Some(n) => name_extension(n),
        None => None,
    }
}

/// Trailing pieces that are not components removed.
pub open spec fn strip_unnamed_tail(ps: Seq<Seq<char>>) -> Seq<Seq<char>>
    decreases ps.len(),
{
    if ps.len() > 0 && !is_named(ps.last()) {
        strip_unnamed_tail(ps.drop_last())
    } else {
        ps
    }
}

/// `Path::parent`: the path without its last component, as the path's own
/// text (separators and `.` pieces that end it removed). `None` when the
/// path is empty or ends in the root.
pub open spec fn parent(s: Seq<char>) -> Option<Seq<char>> {
    let t = strip_unnamed_tail(body_pieces(s));
    if t.len() > 0 {
        Some(path_head(s) + join_with(strip_unnamed_tail(t.drop_last()), slash()))
    } else if has_cur_dir(s) {
        Some(Seq::<char>::empty())
    } else {
        None
    }
}


/// When every piece is a name, the names are all the pieces.
pub proof fn lemma_named_all(ps: Seq<Seq<char>>)
    requires
        forall|i: int| 0 <= i < ps.len() ==> is_named(#[trigger] ps[i]),
    ensures
        named(ps) == ps,
    decreases ps.len(),
{
    if ps.len() > 0 {
        assert forall|i: int| 0 <= i < ps.drop_last().len() implies is_named(
            #[trigger] ps.drop_last()[i],
        ) by {
            assert(ps.drop_last()[i] == ps[i]);
        }
        lemma_named_all(ps.drop_last());
        assert(is_named(ps[ps.len() - 1]));
        assert(ps.drop_last().push(ps.last()) =~= ps);
    }
}

/// Splitting `a`, a separator and `y` gives the pieces of `a` followed by
/// the pieces of `y`.
pub proof fn lemma_split_concat(a: Seq<char>, sep: char, y: Seq<char>, seps: Seq<char>)
    requires
        seps.contains(sep),
    ensures
        split_on(a + seq![sep] + y, seps) == split_on(a, seps) + split_on(y, seps),
    decreases y.len(),
{
    let s = a + seq![sep] + y;
    if y.len() == 0 {
        assert(s =~= a.push(sep));
        assert(s.drop_last() =~= a);
        assert(split_on(y, seps) == seq![Seq::<char>::empty()]);
        assert(split_on(a, seps).push(Seq::<char>::empty()) =~= split_on(a, seps) + seq![
            Seq::<char>::empty(),
        ]);
    } else {
        assert(s.drop_last() =~= a + seq![sep] + y.drop_last());
        lemma_split_concat(a, sep, y.drop_last(), seps);
        lemma_split_on_nonempty(y.drop_last(), seps);
        let pa = split_on(a, seps);
        let py = split_on(y.drop_last(), seps);
        assert(s.last() == y.last());
        if seps.contains(y.last()) {
            assert((pa + py).push(Seq::<char>::empty()) =~= pa + py.push(Seq::<char>::empty()));
        } else {
            assert((pa + py).update((pa + py).len() - 1, (pa + py).last().push(y.last())) =~= pa
                + py.update(py.len() - 1, py.last().push(y.last())));
        }
    }
}

/// The components among the pieces of two sequences are those of each.
pub proof fn lemma_named_concat(x: Seq<Seq<char>>, y: Seq<Seq<char>>)
    ensures
        named(x + y) == named(x) + named(y),
    decreases y.len(),
{
    if y.len() == 0 {
        assert(x + y =~= x);
        assert(named(x) + named(y) =~= named(x));
    } else {
        assert((x + y).drop_last() =~= x + y.drop_last());
        assert((x + y).last() == y.last());
        lemma_named_concat(x, y.drop_last());
        if is_named(y.last()) {
            assert((named(x) + named(y.drop_last())).push(y.last()) =~= named(x) + named(
                y.drop_last(),
            ).push(y.last()));
        }
    }
}

/// Without `..` pieces, resolving them changes nothing.
pub proof fn lemma_resolve_dots_none(ps: Seq<Seq<char>>)
    requires
        !ps.contains(dotdot()),
    ensures
        resolve_dots(ps) == ps,
    decreases ps.len(),
{
    if ps.len() > 0 {
        assert(!ps.drop_last().contains(dotdot())) by {
            if ps.drop_last().contains(dotdot()) {
                let k = choose|k: int| 0 <= k < ps.drop_last().len() && ps.drop_last()[k] == dotdot();
                assert(ps[k] == dotdot());
            }
        }
        lemma_resolve_dots_none(ps.drop_last());
        assert(ps.last() != dotdot()) by {
            assert(ps[ps.len() - 1] == ps.last());
        }
        assert(ps.drop_last().push(ps.last()) =~= ps);
    }
}

/// The named pieces of pieces free of `/` are names free of `/`.
pub proof fn lemma_named_pieces_are_names(ps: Seq<Seq<char>>)
    requires
        forall|i: int| 0 <= i < ps.len() ==> free_of(#[trigger] ps[i], slash()),
    ensures
        forall|i: int| 0 <= i < named(ps).len() ==> {
            &&& is_named(#[trigger] named(ps)[i])
            &&& free_of(named(ps)[i], slash())
        },
    decreases ps.len(),
{
    if ps.len() > 0 {
        assert forall|i: int| 0 <= i < ps.drop_last().len() implies free_of(
            #[trigger] ps.drop_last()[i],
            slash(),
        ) by {
            assert(ps.drop_last()[i] == ps[i]);
        }
        lemma_named_pieces_are_names(ps.drop_last());
        assert(free_of(ps[ps.len() - 1], slash()));
        let init = named(ps.drop_last());
        assert forall|i: int| 0 <= i < named(ps).len() implies {
            &&& is_named(#[trigger] named(ps)[i])
            &&& free_of(named(ps)[i], slash())
        } by {
            if i < init.len() {
                assert(named(ps)[i] == init[i]);
            } else {
                assert(named(ps)[i] == ps.last());
            }
        }
    }
}

/// Names, each free of `/` and none `..`.
pub open spec fn plain_names(ps: Seq<Seq<char>>) -> bool {
    forall|i: int|
        0 <= i < ps.len() ==> is_named(#[trigger] ps[i]) && free_of(ps[i], slash()) && ps[i]
            != dotdot()
}

/// Resolving `..` among names free of `/` leaves plain names.
proof fn lemma_resolve_dots_plain(ps: Seq<Seq<char>>)
    requires
        forall|i: int| 0 <= i < ps.len() ==> is_named(#[trigger] ps[i]) && free_of(ps[i], slash()),
    ensures
        plain_names(resolve_dots(ps)),
    decreases ps.len(),
{
    if ps.len() > 0 {
        assert forall|i: int| 0 <= i < ps.drop_last().len() implies is_named(
            #[trigger] ps.drop_last()[i],
        ) && free_of(ps.drop_last()[i], slash()) by {
            assert(ps.drop_last()[i] == ps[i]);
        }
        lemma_resolve_dots_plain(ps.drop_last());
        let init = resolve_dots(ps.drop_last());
        let r = resolve_dots(ps);
        assert(is_named(ps[ps.len() - 1]) && free_of(ps[ps.len() - 1], slash()));
        assert forall|i: int| 0 <= i < r.len() implies is_named(#[trigger] r[i]) && free_of(
            r[i],
            slash(),
        ) && r[i] != dotdot() by {
            if i < init.len() {
                if ps.last() == dotdot() && init.len() > 0 {
                    assert(r[i] == init[i]);
                } else if ps.last() == dotdot() {
                } else {
                    assert(r[i] == init[i]);
                }
            }
        }
    }
}

/// A join of two or more parts is the first part, the separator, and the
/// join of the rest.
proof fn lemma_join_first(parts: Seq<Seq<char>>, sep: Seq<char>)
    requires
        parts.len() >= 2,
    ensures
        join_with(parts, sep) == parts[0] + sep + join_with(parts.skip(1), sep),
    decreases parts.len(),
{
    if parts.len() == 2 {
        assert(parts.drop_last().len() == 1);
        assert(join_with(parts.drop_last(), sep) == parts[0]);
        assert(parts.skip(1).len() == 1);
        assert(join_with(parts.skip(1), sep) == parts.skip(1)[0]);
        assert(parts.skip(1)[0] == parts[1]);
        assert(join_with(parts, sep) =~= parts[0] + sep + join_with(parts.skip(1), sep));
    } else {
        lemma_join_first(parts.drop_last(), sep);
        assert(parts.drop_last().skip(1) =~= parts.skip(1).drop_last());
        assert(parts.drop_last()[0] == parts[0]);
        assert(parts.skip(1).last() == parts.last());
        let rest = parts.skip(1);
        assert(join_with(rest, sep) == join_with(rest.drop_last(), sep) + sep + rest.last());
        assert(join_with(parts, sep) =~= parts[0] + sep + join_with(parts.skip(1), sep));
    }
}

/// Normalising a normalised path changes nothing.
pub proof fn lemma_normalized_idempotent(s: Seq<char>)
    ensures
        normalized(normalized(s)) == normalized(s),
{
    let bp = body_pieces(s);
    lemma_split_pieces_free(s.skip(body_start(s)), slash());
    lemma_named_pieces_are_names(bp);
    lemma_resolve_dots_plain(named(bp));
    let r = resolve_dots(named(bp));
    let h = if has_root(s) {
        slash()
    } else {
        Seq::<char>::empty()
    };
    let j = join_with(r, slash());
    let n = normalized(s);
    assert(n == h + j);
    assert(slash()[0] == '/');
    assert(slash().contains('/'));
    if r.len() == 0 {
        assert(j.len() == 0);
        lemma_named_empty_piece();
        if has_root(s) {
            assert(n =~= slash());
            assert(has_root(n));
            assert(n.skip(body_start(n)) =~= Seq::<char>::empty());
        } else {
            assert(n =~= Seq::<char>::empty());
        }
        assert(split_on(Seq::<char>::empty(), slash()) =~= seq![Seq::<char>::empty()]);
        assert(resolve_dots(Seq::<Seq<char>>::empty()) =~= Seq::<Seq<char>>::empty());
        assert(normalized(n) =~= n);
    } else {
        let p0 = r[0];
        assert(is_named(p0) && free_of(p0, slash()) && p0 != dotdot());
        lemma_join_head(r, slash());
        assert(j[0] == p0[0]);
        assert(p0[0] != '/') by {
            if p0[0] == '/' {
                assert(slash().contains(p0[0]));
            }
        }
        // The join does not start with the root or the current directory.
        assert(!has_root(j));
        assert(!has_cur_dir(j)) by {
            if p0.len() == 1 && p0[0] == '.' {
                assert(p0 =~= dot());
            }
            if r.len() == 1 {
                assert(j == p0);
                if p0.len() >= 2 {
                    assert(p0[1] != '/') by {
                        if p0[1] == '/' {
                            assert(slash().contains(p0[1]));
                        }
                    }
                }
            } else {
                lemma_join_first(r, slash());
                if p0.len() >= 2 {
                    assert(j[1] == p0[1]);
                    assert(p0[1] != '/') by {
                        if p0[1] == '/' {
                            assert(slash().contains(p0[1]));
                        }
                    }
                }
            }
        }
        lemma_split_join(r, '/', slash());
        assert(seq!['/'] == slash());
        lemma_named_all(r);
        assert(!r.contains(dotdot())) by {
            if r.contains(dotdot()) {
                let k = choose|k: int| 0 <= k < r.len() && r[k] == dotdot();
            }
        }
        lemma_resolve_dots_none(r);
        if has_root(s) {
            assert(has_root(n));
            assert(n.skip(body_start(n)) =~= j);
        } else {
            assert(n =~= j);
            assert(body_start(n) == 0);
            assert(n.skip(0) =~= n);
        }
        assert(normalized(n) =~= n);
    }
}

/// An empty piece is no component.
proof fn lemma_named_empty_piece()
    ensures
        named(seq![Seq::<char>::empty()]) == Seq::<Seq<char>>::empty(),
{
    let ps = seq![Seq::<char>::empty()];
    assert(ps.drop_last() =~= Seq::<Seq<char>>::empty());
    assert(!is_named(ps.last()));
    assert(named(ps) == named(ps.drop_last()));
    assert(named(Seq::<Seq<char>>::empty()) == Seq::<Seq<char>>::empty());
}

/// Joining a path that starts with neither the root nor `.` onto `base`
/// adds its names to the components of `base`.
pub proof fn lemma_components_join(base: Seq<char>, p: Seq<char>)
    requires
        !has_root(p),
        !has_cur_dir(p),
    ensures
        components(path_join(base, p)) == components(base) + named(split_on(p, slash())),
{
    let j = path_join(base, p);
    assert(slash().contains('/')) by {
        assert(slash()[0] == '/');
    }
    if base.len() == 0 {
        assert(j == p);
        assert(p.skip(0) == p);
        assert(split_on(Seq::<char>::empty(), slash()) == seq![Seq::<char>::empty()]);
        lemma_named_empty_piece();
        assert(base.skip(0) =~= Seq::<char>::empty());
        assert(components(base) =~= Seq::<Seq<char>>::empty());
        assert(components(base) + named(split_on(p, slash())) =~= named(split_on(p, slash())));
    } else {
        let k = body_start(base);
        let b = base.skip(k);
        if base.last() != '/' {
            assert(j == base + slash() + p);
            assert(j[0] == base[0]);
            assert(base.len() >= 2 ==> j[1] == base[1]);
            assert(base.len() == 1 ==> j[1] == '/');
            assert(body_start(j) == k);
            assert(j.skip(k) =~= b + seq!['/'] + p);
            lemma_split_concat(b, '/', p, slash());
            lemma_named_concat(split_on(b, slash()), split_on(p, slash()));
        } else if b.len() > 0 {
            assert(j == base + p);
            assert(j[0] == base[0]);
            assert(base.len() >= 2 ==> j[1] == base[1]);
            assert(base.len() == 1 ==> b.len() == 0);
            assert(body_start(j) == k);
            let b0 = b.drop_last();
            assert(b =~= b0 + seq!['/'] + Seq::<char>::empty());
            assert(j.skip(k) =~= b0 + seq!['/'] + p);
            lemma_split_concat(b0, '/', p, slash());
            lemma_split_concat(b0, '/', Seq::<char>::empty(), slash());
            lemma_named_concat(split_on(b0, slash()), split_on(p, slash()));
            lemma_named_concat(split_on(b0, slash()), seq![Seq::<char>::empty()]);
            lemma_named_empty_piece();
            assert(named(split_on(b0, slash())) + Seq::<Seq<char>>::empty() =~= named(
                split_on(b0, slash()),
            ));
        } else {
            // `base` is `/` or `.`: only `/` ends in `/` with an empty body.
            assert(base =~= seq!['/']);
            assert(j == base + p);
            assert(has_root(j));
            assert(j.skip(1) =~= p);
            assert(b =~= Seq::<char>::empty());
            lemma_named_empty_piece();
            assert(components(base) =~= seq![slash()]);
        }
    }
}

/// Attaching a relative path (one that starts with neither the root nor
/// `.`) to a path inside a directory gives a path inside that directory.
pub proof fn lemma_join_stays_within(base: Seq<char>, p: Seq<char>, dir: Seq<char>)
    requires
        path_starts_with(base, dir),
        !has_root(p),
        !has_cur_dir(p),
    ensures
        path_starts_with(path_join(base, p), dir),
{
    lemma_components_join(base, p);
    let cb = components(base);
    let cd = components(dir);
    let cj = components(path_join(base, p));
    assert(cj.take(cd.len() as int) =~= cb.take(cd.len() as int));
}

// ---------------------------------------------------------------------
// Executable path operations
// ---------------------------------------------------------------------

fn slash_vec() -> (r: Vec<char>)
    ensures
        r@ == slash(),
{
    let r = vec!['/'];
    assert(r@ =~= slash());
    r
}

fn dot_vec() -> (r: Vec<char>)
    ensures
        r@ == dot(),
{
    let r = vec!['.'];
    assert(r@ =~= dot());
    r
}

fn copy_chars(v: &[char]) -> (r: Vec<char>)
    ensures
        r@ == v@,
{
    let r = slice_chars(v, 0, v.len());
    assert(v@.subrange(0, v@.len() as int) == v@);
    r
}

/// Root flag, current-directory flag and the body cut at `/`.
fn parse_path(s: &[char]) -> (r: (bool, bool, Vec<Vec<char>>))
    ensures
        r.0 == has_root(s@),
        r.1 == has_cur_dir(s@),
        r.2.deep_view() == body_pieces(s@),
{
    let n = s.len();
    let root = n > 0 && s[0] == '/';
    let cur = !root && n > 0 && s[0] == '.' && (n == 1 || s[1] == '/');
    let start: usize = if root || cur {
        1
    } else {
        0
    };
    let body = slice_chars(s, start, n);
    assert(s@.subrange(start as int, n as int) == s@.skip(start as int));
    let seps = slash_vec();
    let pieces = split_chars(body.as_slice(), seps.as_slice());
    (root, cur, pieces)
}

fn piece_is_named(p: &[char]) -> (r: bool)
    ensures
        r == is_named(p@),
{
    let single_dot = p.len() == 1 && p[0] == '.';
    proof {
        if p@.len() == 1 && p@[0] == '.' {
            assert(p@ =~= dot());
        }
    }
    p.len() > 0 && !single_dot
}

fn named_pieces(ps: &Vec<Vec<char>>) -> (r: Vec<Vec<char>>)
    ensures
        r.deep_view() == named(ps.deep_view()),
{
    let mut r: Vec<Vec<char>> = Vec::new();
    let mut i: usize = 0;
    while i < ps.len()
        invariant
            i <= ps.len(),
            r.deep_view() == named(ps.deep_view().take(i as int)),
        decreases ps.len() - i,
    {
        let ghost pv = ps.deep_view();
        proof {
            assert(pv.take(i + 1).drop_last() == pv.take(i as int));
            assert(pv.take(i + 1).last() == ps@[i as int]@);
        }
        if piece_is_named(ps[i].as_slice()) {
            let ghost old_r = r;
            let x = copy_chars(ps[i].as_slice());
            let ghost xv = x;
            r.push(x);
            proof {
                lemma_push_deep_view(old_r, r, xv);
            }
        }
        i = i + 1;
    }
    assert(ps.deep_view().take(ps.len() as int) == ps.deep_view());
    r
}

/// `Path::components`, each as its text.
pub fn path_components(s: &[char]) -> (r: Vec<Vec<char>>)
    ensures
        r.deep_view() == components(s@),
{
    let (root, cur, pieces) = parse_path(s);
    let names = named_pieces(&pieces);
    let mut r: Vec<Vec<char>> = Vec::new();
    let ghost head: Seq<Seq<char>> = if root {
        seq![slash()]
    } else if cur {
        seq![dot()]
    } else {
        Seq::<Seq<char>>::empty()
    };
    if root {
        let x = slash_vec();
        let ghost xv = x;
        let ghost old_r = r;
        r.push(x);
        proof {
            lemma_push_deep_view(old_r, r, xv);
        }
    } else if cur {
        let x = dot_vec();
        let ghost xv = x;
        let ghost old_r = r;
        r.push(x);
        proof {
            lemma_push_deep_view(old_r, r, xv);
        }
    }
    assert(r.deep_view() =~= head);
    let mut i: usize = 0;
    while i < names.len()
        invariant
            i <= names.len(),
            r.deep_view() == head + names.deep_view().take(i as int),
        decreases names.len() - i,
    {
        let x = copy_chars(names[i].as_slice());
        let ghost xv = x;
        let ghost old_r = r;
        r.push(x);
        proof {
            lemma_push_deep_view(old_r, r, xv);
            assert(names.deep_view().take(i + 1) =~= names.deep_view().take(i as int).push(xv@));
        }
        i = i + 1;
    }
    assert(names.deep_view().take(names.len() as int) == names.deep_view());
    r
}

/// Whether the first `cb.len()` elements of `cp` are those of `cb`.
fn is_prefix_of(cb: &Vec<Vec<char>>, cp: &Vec<Vec<char>>) -> (r: bool)
    ensures
        r == (cb.deep_view().len() <= cp.deep_view().len() && cp.deep_view().take(
            cb.deep_view().len() as int,
        ) == cb.deep_view()),
{
    if cb.len() > cp.len() {
        return false;
    }
    let mut i: usize = 0;
    while i < cb.len()
        invariant
            i <= cb.len() <= cp.len(),
            cp.deep_view().take(i as int) == cb.deep_view().take(i as int),
        decreases cb.len() - i,
    {
        if !chars_eq(cp[i].as_slice(), cb[i].as_slice()) {
            assert(cp.deep_view().take(cb.len() as int)[i as int] != cb.deep_view()[i as int]);
            return false;
        }
        assert(cp.deep_view().take(i + 1) =~= cp.deep_view().take(i as int).push(cp@[i as int]@));
        assert(cb.deep_view().take(i + 1) =~= cb.deep_view().take(i as int).push(cb@[i as int]@));
        i = i + 1;
    }
    assert(cb.deep_view().take(cb.len() as int) == cb.deep_view());
    true
}

/// `Path::starts_with` on path strings.
pub fn path_starts_with_chars(path: &[char], base: &[char]) -> (r: bool)
    ensures
        r == path_starts_with(path@, base@),
{
    let cp = path_components(path);
    let cb = path_components(base);
    is_prefix_of(&cb, &cp)
}

/// Path equality on path strings.
pub fn path_eq_chars(a: &[char], b: &[char]) -> (r: bool)
    ensures
        r == path_eq(a@, b@),
{
    let ca = path_components(a);
    let cb = path_components(b);
    if ca.len() != cb.len() {
        return false;
    }
    let r = is_prefix_of(&cb, &ca);
    assert(ca.deep_view().len() == cb.deep_view().len());
    assert(ca.deep_view().take(ca.deep_view().len() as int) == ca.deep_view());
    r
}

/// `base.join(p)` on path strings.
pub fn path_join_chars(base: &[char], p: &[char]) -> (r: Vec<char>)
    ensures
        r@ == path_join(base@, p@),
{
    if p.len() > 0 && p[0] == '/' {
        copy_chars(p)
    } else if base.len() > 0 && base[base.len() - 1] != '/' {
        let sep = slash_vec();
        let with_sep = concat_chars(base, sep.as_slice());
        concat_chars(with_sep.as_slice(), p)
    } else {
        concat_chars(base, p)
    }
}

/// `Path::new(base).join(p)`.
pub fn join_paths(base: &str, p: &str) -> (r: String)
    ensures
        r@ == path_join(base@, p@),
{
    let b = to_chars(base);
    let q = to_chars(p);
    let j = path_join_chars(b.as_slice(), q.as_slice());
    from_chars(j.as_slice())
}

fn resolve_dots_exec(ps: &Vec<Vec<char>>) -> (r: Vec<Vec<char>>)
    ensures
        r.deep_view() == resolve_dots(ps.deep_view()),
{
    let mut r: Vec<Vec<char>> = Vec::new();
    let mut i: usize = 0;
    let dd = vec!['.', '.'];
    assert(dd@ =~= dotdot());
    while i < ps.len()
        invariant
            i <= ps.len(),
            dd@ == dotdot(),
            r.deep_view() == resolve_dots(ps.deep_view().take(i as int)),
        decreases ps.len() - i,
    {
        let ghost pv = ps.deep_view();
        proof {
            assert(pv.take(i + 1).drop_last() == pv.take(i as int));
            assert(pv.take(i + 1).last() == ps@[i as int]@);
        }
        if chars_eq(ps[i].as_slice(), dd.as_slice()) {
            if r.len() > 0 {
                let ghost old_r = r;
                let _ = r.pop();
                proof {
                    lemma_pop_deep_view(old_r, r);
                }
            }
        } else {
            let ghost old_r = r;
            let x = copy_chars(ps[i].as_slice());
            let ghost xv = x;
            r.push(x);
            proof {
                lemma_push_deep_view(old_r, r, xv);
            }
        }
        i = i + 1;
    }
    assert(ps.deep_view().take(ps.len() as int) == ps.deep_view());
    r
}

/// Lexical normalisation of a path: `.` components dropped, each `..`
/// removing the name before it (a `..` with nothing before it is dropped),
/// the root kept. Nothing on disk is consulted.
pub fn normalize_path(path: &str) -> (r: String)
    ensures
        r@ == normalized(path@),
{
    let s = to_chars(path);
    let (root, _cur, pieces) = parse_path(s.as_slice());
    let names = named_pieces(&pieces);
    let kept = resolve_dots_exec(&names);
    let sep = slash_vec();
    let body = join_chars(&kept, sep.as_slice());
    let out = if root {
        concat_chars(sep.as_slice(), body.as_slice())
    } else {
        body
    };
    assert(root ==> out@ == slash() + body@);
    assert(!root ==> out@ =~= Seq::<char>::empty() + body@);
    from_chars(out.as_slice())
}

/// `Path::file_name` on a path string.
pub fn file_name_chars(s: &[char]) -> (r: Option<Vec<char>>)
    ensures
        match r {
            Some(n) => file_name(s@) == Some(n@),
            None => file_name(s@) is None,
        },
{
    let c = path_components(s);
    if c.len() == 0 {
        return None;
    }
    let last = &c[c.len() - 1];
    let sl = slash_vec();
    let d = dot_vec();
    let dd = vec!['.', '.'];
    assert(dd@ =~= dotdot());
    if chars_eq(last.as_slice(), sl.as_slice()) || chars_eq(last.as_slice(), d.as_slice())
        || chars_eq(last.as_slice(), dd.as_slice()) {
        None
    } else {
        Some(copy_chars(last.as_slice()))
    }
}

/// The index of the last `.`.
fn last_dot_exec(s: &[char]) -> (r: Option<usize>)
    ensures
        match r {
            Some(k) => last_dot(s@) == k as int && k < s@.len(),
            None => last_dot(s@) == -1,
        },
{
    let mut i: usize = s.len();
    assert(s@.take(i as int) == s@);
    while i > 0 && s[i - 1] != '.'
        invariant
            i <= s.len(),
            last_dot(s@) == last_dot(s@.take(i as int)),
        decreases i,
    {
        assert(s@.take(i as int).drop_last() == s@.take(i - 1));
        i = i - 1;
    }
    if i == 0 {
        None
    } else {
        assert(s@.take(i as int).last() == '.');
        Some(i - 1)
    }
}

/// Stem and extension of a file name (see `name_stem`, `name_extension`).
pub fn split_name(name: &[char]) -> (r: (Vec<char>, Option<Vec<char>>))
    ensures
        r.0@ == name_stem(name@),
        match r.1 {
            Some(e) => name_extension(name@) == Some(e@),
            None => name_extension(name@) is None,
        },
{
    match last_dot_exec(name) {
        Some(k) => {
            assert(k < name.len());
            if k == 0 {
                (copy_chars(name), None)
            } else {
                let stem = slice_chars(name, 0, k);
                let ext = slice_chars(name, k + 1, name.len());
                assert(name@.subrange(0, k as int) == name@.take(k as int));
                assert(name@.subrange(k + 1, name@.len() as int) == name@.skip(k + 1));
                (stem, Some(ext))
            }
        },
        None => (copy_chars(name), None),
    }
}

/// Number of leading pieces left once trailing pieces that are not
/// components are removed.
fn unnamed_tail_start(ps: &Vec<Vec<char>>, end: usize) -> (r: usize)
    requires
        end <= ps@.len(),
    ensures
        r <= end,
        strip_unnamed_tail(ps.deep_view().take(end as int)) == ps.deep_view().take(r as int),
{
    let mut t = end;
    while t > 0 && !piece_is_named(ps[t - 1].as_slice())
        invariant
            t <= end <= ps@.len(),
            strip_unnamed_tail(ps.deep_view().take(end as int)) == strip_unnamed_tail(
                ps.deep_view().take(t as int),
            ),
        decreases t,
    {
        assert(ps.deep_view().take(t as int).drop_last() == ps.deep_view().take(t - 1));
        assert(ps.deep_view().take(t as int).last() == ps@[t - 1]@);
        t = t - 1;
    }
    proof {
        if t > 0 {
            assert(ps.deep_view().take(t as int).last() == ps@[t - 1]@);
        }
    }
    t
}

fn take_pieces(ps: &Vec<Vec<char>>, n: usize) -> (r: Vec<Vec<char>>)
    requires
        n <= ps@.len(),
    ensures
        r.deep_view() == ps.deep_view().take(n as int),
{
    let mut r: Vec<Vec<char>> = Vec::new();
    let mut i: usize = 0;
    while i < n
        invariant
            i <= n <= ps@.len(),
            r.deep_view() == ps.deep_view().take(i as int),
        decreases n - i,
    {
        let x = copy_chars(ps[i].as_slice());
        let ghost xv = x;
        let ghost old_r = r;
        r.push(x);
        proof {
            lemma_push_deep_view(old_r, r, xv);
            assert(ps.deep_view().take(i + 1) =~= ps.deep_view().take(i as int).push(xv@));
        }
        i = i + 1;
    }
    r
}

/// `Path::parent` on a path string.
pub fn parent_chars(s: &[char]) -> (r: Option<Vec<char>>)
    ensures
        match r {
            Some(p) => parent(s@) == Some(p@),
            None => parent(s@) is None,
        },
{
    let (root, cur, pieces) = parse_path(s);
    let t = unnamed_tail_start(&pieces, pieces.len());
    assert(pieces.deep_view().take(pieces.len() as int) == pieces.deep_view());
    if t > 0 {
        let u = unnamed_tail_start(&pieces, t - 1);
        let ghost tv = pieces.deep_view().take(t as int);
        assert(tv.drop_last() == pieces.deep_view().take(t - 1));
        let kept = take_pieces(&pieces, u);
        let sep = slash_vec();
        let body = join_chars(&kept, sep.as_slice());
        let head_len: usize = if root || cur {
            1
        } else {
            0
        };
        let head = slice_chars(s, 0, head_len);
        assert(head@ == path_head(s@));
        Some(concat_chars(head.as_slice(), body.as_slice()))
    } else if cur {
        Some(Vec::new())
    } else {
        None
    }
}

} // verus!
