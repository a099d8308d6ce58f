//! File-name and upload-path sanitisation, and the batch-id format.

use vstd::prelude::*;
use crate::paths::{
    components, dotdot, dot, extension, file_name_chars, file_stem, has_cur_dir, has_root,
    is_named, lemma_named_all, lemma_resolve_dots_none, normalized, split_name, body_pieces,
};
use crate::text::{
    free_of, lemma_join_head, lemma_split_join, lemma_trim_end_on, lemma_trim_start_on, trim_end_on, trim_start_on,
    ascii_digit, ascii_lower, char_is_alphanumeric, char_is_whitespace, concat_chars,
    from_chars, is_ascii_digit, is_ascii_lower, join_chars,
    join_with, slice_chars, split_chars, split_on, to_chars, to_lowercase, to_uppercase,
    trim_chars_on, trim_on, unicode_alphanumeric, unicode_lowercase, unicode_uppercase,
    unicode_whitespace,
};

verus! {

broadcast use crate::lemmas::lemma_chars_deep_view;

// ---------------------------------------------------------------------
// UTF-8 byte lengths
// ---------------------------------------------------------------------

/// Bytes taken by a character in UTF-8.
pub open spec fn utf8_width(c: char) -> nat {
    if (c as u32) < 0x80 {
        1
    } else if (c as u32) < 0x800 {
        2
    } else if (c as u32) < 0x10000 {
        3
    } else {
        4
    }
}

/// Bytes taken by a string in UTF-8 (what `str::len` returns).
pub open spec fn utf8_len(s: Seq<char>) -> nat
    decreases s.len(),
{
    if s.len() == 0 {
        0
    } else {
        utf8_len(s.drop_last()) + utf8_width(s.last())
    }
}

pub proof fn lemma_utf8_len_take_mono(s: Seq<char>, i: int, j: int)
    requires
        0 <= i <= j <= s.len(),
    ensures
        utf8_len(s.take(i)) <= utf8_len(s.take(j)),
    decreases j - i,
{
    if i < j {
        lemma_utf8_len_take_mono(s, i, j - 1);
        assert(s.take(j).drop_last() == s.take(j - 1));
    }
}

fn utf8_width_exec(c: char) -> (r: usize)
    ensures
        r == utf8_width(c),
{
    let u = c as u32;
    if u < 0x80 {
        1
    } else if u < 0x800 {
        2
    } else if u < 0x10000 {
        3
    } else {
        4
    }
}

/// Whether cutting `s` after `n` bytes falls between characters (or `s` is
/// not longer than `n` bytes), i.e. whether `String::truncate(n)` succeeds.
pub open spec fn truncatable_at(s: Seq<char>, n: nat) -> bool {
    utf8_len(s) <= n || exists|k: int| 0 <= k <= s.len() && utf8_len(#[trigger] s.take(k)) == n
}

/// `s` cut after `n` bytes (`String::truncate(n)`), when `truncatable_at`.
pub open spec fn truncate_bytes(s: Seq<char>, n: nat) -> Seq<char> {
    if utf8_len(s) <= n {
        s
    } else {
        s.take(choose|k: int| 0 <= k <= s.len() && utf8_len(#[trigger] s.take(k)) == n)
    }
}

/// The prefix of `s` that is exactly `n` bytes long, or `s` when it is not
/// longer; `None` when the cut would fall inside a character.
pub(crate) fn truncate_bytes_exec(s: &[char], n: usize) -> (r: Option<Vec<char>>)
    requires
        n <= 4096,
    ensures
        r is Some <==> truncatable_at(s@, n as nat),
        r matches Some(v) ==> v@ == truncate_bytes(s@, n as nat),
{
    let mut i: usize = 0;
    let mut bytes: usize = 0;
    while i < s.len() && bytes < n
        invariant
            i <= s.len(),
            bytes == utf8_len(s@.take(i as int)),
            bytes <= n + 4,
            n <= 4096,
            forall|k: int| 0 <= k < i ==> utf8_len(#[trigger] s@.take(k)) < n,
        decreases s.len() - i,
    {
        assert(s@.take(i + 1).drop_last() == s@.take(i as int));
        let w = utf8_width_exec(s[i]);
        bytes = bytes + w;
        i = i + 1;
    }
    proof {
        assert(s@.take(s@.len() as int) == s@);
    }
    if bytes < n {
        // the whole string is shorter than n bytes
        assert(i == s.len());
        return Some(slice_chars(s, 0, s.len()));
    }
    if bytes == n {
        if i == s.len() {
            assert(utf8_len(s@) <= n);
            return Some(slice_chars(s, 0, s.len()));
        }
        proof {
            let k = i as int;
            assert(utf8_len(s@.take(k)) == n);
            lemma_utf8_len_take_mono(s@, k, s@.len() as int);
            assert(s@.take(s@.len() as int) == s@);
            if utf8_len(s@) <= n {
                assert(utf8_len(s@) == n);
                // then every longer prefix has the same length; i == len follows
                // from widths being positive
                if k < s@.len() {
                    lemma_utf8_len_take_mono(s@, k + 1, s@.len() as int);
                    assert(s@.take(k + 1).drop_last() == s@.take(k));
                }
            }
            let c = choose|j: int| 0 <= j <= s@.len() && utf8_len(#[trigger] s@.take(j)) == n;
            if c < k {
                lemma_utf8_len_take_mono(s@, c + 1, k);
                assert(s@.take(c + 1).drop_last() == s@.take(c));
            } else if c > k {
                lemma_utf8_len_take_mono(s@, k + 1, c);
                assert(s@.take(k + 1).drop_last() == s@.take(k));
            }
        }
        let r = slice_chars(s, 0, i);
        assert(r@ == s@.take(i as int));
        return Some(r);
    }
    // bytes > n: the cut falls inside the character before position i
    proof {
        let k = i as int;
        assert(k > 0);
        assert(s@.take(k).drop_last() == s@.take(k - 1));
        assert(utf8_len(s@.take(k - 1)) < n);
        lemma_utf8_len_take_mono(s@, k, s@.len() as int);
        assert(s@.take(s@.len() as int) == s@);
        assert forall|j: int| 0 <= j <= s@.len() implies utf8_len(#[trigger] s@.take(j)) != n by {
            if j < k {
                lemma_utf8_len_take_mono(s@, j, k - 1);
            } else {
                lemma_utf8_len_take_mono(s@, k, j);
            }
        }
    }
    None
}

// ---------------------------------------------------------------------
// File names
// ---------------------------------------------------------------------

/// No `/` and no `\`.
pub open spec fn sep_free(s: Seq<char>) -> bool {
    forall|i: int| 0 <= i < s.len() ==> s[i] != '/' && s[i] != '\\'
}

pub proof fn lemma_sep_free_free_of(s: Seq<char>)
    requires
        sep_free(s),
    ensures
        free_of(s, seq!['/']),
        free_of(s, upload_seps()),
{
    assert forall|i: int| 0 <= i < s.len() implies !seq!['/'].contains(#[trigger] s[i]) by {
        if seq!['/'].contains(s[i]) {
            let k = choose|k: int| 0 <= k < 1 && seq!['/'][k] == s[i];
            assert(k == 0);
        }
    }
    assert forall|i: int| 0 <= i < s.len() implies !upload_seps().contains(#[trigger] s[i]) by {
        if upload_seps().contains(s[i]) {
            let k = choose|k: int| 0 <= k < 2 && upload_seps()[k] == s[i];
            assert(k == 0 || k == 1);
        }
    }
}

proof fn lemma_sep_free_sub(s: Seq<char>, a: int, b: int)
    requires
        sep_free(s),
        0 <= a <= b <= s.len(),
    ensures
        sep_free(s.subrange(a, b)),
{
    assert forall|i: int| 0 <= i < b - a implies s.subrange(a, b)[i] != '/' && s.subrange(a, b)[i]
        != '\\' by {
        assert(s.subrange(a, b)[i] == s[a + i]);
    }
}

proof fn lemma_sep_free_trim(s: Seq<char>, set: Seq<char>)
    requires
        sep_free(s),
    ensures
        sep_free(trim_on(s, set)),
{
    lemma_trim_start_on(s, set);
    let t = trim_start_on(s, set);
    lemma_sep_free_sub(s, s.len() - t.len(), s.len() as int);
    assert(s.skip(s.len() - t.len()) == s.subrange(s.len() - t.len(), s.len() as int));
    lemma_trim_end_on(t, set);
    lemma_sep_free_sub(t, 0, trim_end_on(t, set).len() as int);
    assert(t.take(trim_end_on(t, set).len() as int) == t.subrange(0, trim_end_on(t, set).len() as int));
}

/// A character that the base name keeps: Unicode alphanumeric, `-`, `_`, `.`.
pub open spec fn base_keeps(c: char) -> bool {
    unicode_alphanumeric(c) || c == '-' || c == '_' || c == '.'
}

/// White space and `+` turned into `_`, then every character that is not
/// kept dropped.
pub open spec fn base_chars(s: Seq<char>) -> Seq<char>
    decreases s.len(),
{
    if s.len() == 0 {
        Seq::<char>::empty()
    } else {
        let c = if unicode_whitespace(s.last()) || s.last() == '+' {
            '_'
        } else {
            s.last()
        };
        if base_keeps(c) {
            base_chars(s.drop_last()).push(c)
        } else {
            base_chars(s.drop_last())
        }
    }
}

/// Every run of `_` shortened to one `_`.
pub open spec fn collapse_underscores(s: Seq<char>) -> Seq<char>
    decreases s.len(),
{
    if s.len() == 0 {
        Seq::<char>::empty()
    } else {
        let init = collapse_underscores(s.drop_last());
        if s.last() == '_' && init.len() > 0 && init.last() == '_' {
            init
        } else {
            init.push(s.last())
        }
    }
}

/// The characters trimmed from both ends of the base name.
pub open spec fn edge_chars() -> Seq<char> {
    seq!['.', '_', '-']
}

/// Windows device names (`CON`, `PRN`, `AUX`, `NUL`, `COM1`..`COM9`,
/// `LPT1`..`LPT9`), compared after upper-casing.
pub open spec fn is_reserved_name(u: Seq<char>) -> bool {
    ||| (u.len() == 3 && ((u[0] == 'C' && u[1] == 'O' && u[2] == 'N') || (u[0] == 'P' && u[1]
        == 'R' && u[2] == 'N') || (u[0] == 'A' && u[1] == 'U' && u[2] == 'X') || (u[0] == 'N'
        && u[1] == 'U' && u[2] == 'L')))
    ||| (u.len() == 4 && ((u[0] == 'C' && u[1] == 'O' && u[2] == 'M') || (u[0] == 'L' && u[1]
        == 'P' && u[2] == 'T')) && 0x31 <= (u[3] as u32) <= 0x39)
}

pub open spec fn unnamed_file() -> Seq<char> {
    seq!['u', 'n', 'n', 'a', 'm', 'e', 'd', '_', 'f', 'i', 'l', 'e']
}

pub open spec fn unnamed_file_txt() -> Seq<char> {
    unnamed_file() + seq!['.', 't', 'x', 't']
}

/// The base name before it is cut to 200 bytes: the stem cleaned,
/// underscores collapsed, `.`/`_`/`-` trimmed from both ends (`"file"` if
/// nothing is left) and `"_file"` appended to a Windows device name.
pub open spec fn sanitized_base(filename: Seq<char>) -> Seq<char> {
    let stem = match file_stem(filename) {
        Some(s) => s,
        None => unnamed_file(),
    };
    let trimmed = trim_on(collapse_underscores(base_chars(stem)), edge_chars());
    let b = if trimmed.len() == 0 {
        seq!['f', 'i', 'l', 'e']
    } else {
        trimmed
    };
    if is_reserved_name(unicode_uppercase(b)) {
        b + seq!['_', 'f', 'i', 'l', 'e']
    } else {
        b
    }
}

/// The characters of `s` that are Unicode alphanumeric or `.`.
pub open spec fn ext_chars(s: Seq<char>) -> Seq<char>
    decreases s.len(),
{
    if s.len() == 0 {
        Seq::<char>::empty()
    } else if unicode_alphanumeric(s.last()) || s.last() == '.' {
        ext_chars(s.drop_last()).push(s.last())
    } else {
        ext_chars(s.drop_last())
    }
}

/// The cleaned extension: lower-cased, only alphanumerics and `.` kept.
pub open spec fn sanitized_ext(filename: Seq<char>) -> Seq<char> {
    match extension(filename) {
        Some(e) => ext_chars(unicode_lowercase(e)),
        None => Seq::<char>::empty(),
    }
}

/// `s` ends with `t`.
pub open spec fn ends_with(s: Seq<char>, t: Seq<char>) -> bool {
    t.len() <= s.len() && s.subrange(s.len() - t.len(), s.len() as int) == t
}

/// The extension cleaning keeps exactly the characters that are Unicode
/// alphanumeric (ASCII digits among them) or `.`, in order.
proof fn lemma_ext_chars_keeps_kept(s: Seq<char>)
    ensures
        ext_chars(s) == s.filter(|c: char| unicode_alphanumeric(c) || c == '.'),
    decreases s.len(),
{
    reveal(Seq::filter);
    if s.len() > 0 {
        lemma_ext_chars_keeps_kept(s.drop_last());
    }
}

/// A sanitised name keeps its extension: when the lower-cased extension
/// has characters that are Unicode alphanumeric or `.`, the name ends with
/// `.` and exactly those characters in order (the `.` is not doubled when they start with
/// one); when it has none, or the name has no extension, nothing follows
/// the cut base name.
pub proof fn lemma_sanitized_name_keeps_extension(filename: Seq<char>)
    requires
        filename.len() > 0,
    ensures
        extension(filename) matches Some(e) ==> {
            let f = unicode_lowercase(e).filter(|c: char| unicode_alphanumeric(c) || c == '.');
            &&& f.len() > 0 ==> ends_with(
                sanitized_filename(filename),
                if f[0] == '.' {
                    f
                } else {
                    seq!['.'] + f
                },
            )
            &&& f.len() == 0 ==> sanitized_filename(filename) == truncate_bytes(
                sanitized_base(filename),
                200,
            )
        },
        extension(filename) is None ==> sanitized_filename(filename) == truncate_bytes(
            sanitized_base(filename),
            200,
        ),
{
    match extension(filename) {
        Some(e) => {
            lemma_ext_chars_keeps_kept(unicode_lowercase(e));
            let f = unicode_lowercase(e).filter(|c: char| unicode_alphanumeric(c) || c == '.');
            let base = truncate_bytes(sanitized_base(filename), 200);
            let r = sanitized_filename(filename);
            if f.len() > 0 {
                let t = if f[0] == '.' {
                    f
                } else {
                    seq!['.'] + f
                };
                if f[0] == '.' {
                    assert(r == base + f);
                } else {
                    assert(r == base + seq!['.'] + f);
                    assert(base + seq!['.'] + f =~= base + t);
                }
                assert(r.subrange(r.len() - t.len(), r.len() as int) =~= t);
            }
        },
        None => {},
    }
}

/// Whether `sanitize_filename_safe` can cut the base name to 200 bytes
/// without splitting a character (otherwise `String::truncate` panics).
pub open spec fn sanitize_total(filename: Seq<char>) -> bool {
    filename.len() == 0 || truncatable_at(sanitized_base(filename), 200)
}

/// The result of `sanitize_filename_safe`.
pub open spec fn sanitized_filename(filename: Seq<char>) -> Seq<char> {
    if filename.len() == 0 {
        unnamed_file_txt()
    } else {
        let base = truncate_bytes(sanitized_base(filename), 200);
        let ext = sanitized_ext(filename);
        if ext.len() == 0 {
            base
        } else if ext[0] == '.' {
            base + ext
        } else {
            base + seq!['.'] + ext
        }
    }
}

fn base_chars_exec(s: &[char]) -> (r: Vec<char>)
    ensures
        r@ == base_chars(s@),
        sep_free(r@),
{
    let mut r: Vec<char> = Vec::new();
    let mut i: usize = 0;
    while i < s.len()
        invariant
            i <= s.len(),
            r@ == base_chars(s@.take(i as int)),
            sep_free(r@),
        decreases s.len() - i,
    {
        assert(s@.take(i + 1).drop_last() == s@.take(i as int));
        let c0 = s[i];
        let c = if char_is_whitespace(c0) || c0 == '+' {
            '_'
        } else {
            c0
        };
        if char_is_alphanumeric(c) || c == '-' || c == '_' || c == '.' {
            r.push(c);
        }
        i = i + 1;
    }
    assert(s@.take(s@.len() as int) == s@);
    r
}

fn collapse_underscores_exec(s: &[char]) -> (r: Vec<char>)
    requires
        sep_free(s@),
    ensures
        r@ == collapse_underscores(s@),
        sep_free(r@),
{
    let mut r: Vec<char> = Vec::new();
    let mut i: usize = 0;
    while i < s.len()
        invariant
            i <= s.len(),
            r@ == collapse_underscores(s@.take(i as int)),
            sep_free(s@),
            sep_free(r@),
        decreases s.len() - i,
    {
        assert(s@.take(i + 1).drop_last() == s@.take(i as int));
        let c = s[i];
        if !(c == '_' && r.len() > 0 && r[r.len() - 1] == '_') {
            r.push(c);
        }
        i = i + 1;
    }
    assert(s@.take(s@.len() as int) == s@);
    r
}

fn ext_chars_exec(s: &[char]) -> (r: Vec<char>)
    ensures
        r@ == ext_chars(s@),
        sep_free(r@),
{
    let mut r: Vec<char> = Vec::new();
    let mut i: usize = 0;
    while i < s.len()
        invariant
            i <= s.len(),
            r@ == ext_chars(s@.take(i as int)),
            sep_free(r@),
        decreases s.len() - i,
    {
        assert(s@.take(i + 1).drop_last() == s@.take(i as int));
        let c = s[i];
        if char_is_alphanumeric(c) || c == '.' {
            r.push(c);
        }
        i = i + 1;
    }
    assert(s@.take(s@.len() as int) == s@);
    r
}

fn is_reserved_exec(u: &[char]) -> (r: bool)
    ensures
        r == is_reserved_name(u@),
{
    let r = if u.len() == 3 {
        (u[0] == 'C' && u[1] == 'O' && u[2] == 'N') || (u[0] == 'P' && u[1] == 'R' && u[2] == 'N')
            || (u[0] == 'A' && u[1] == 'U' && u[2] == 'X') || (u[0] == 'N' && u[1] == 'U' && u[2]
            == 'L')
    } else if u.len() == 4 {
        let d = u[3] as u32;
        ((u[0] == 'C' && u[1] == 'O' && u[2] == 'M') || (u[0] == 'L' && u[1] == 'P' && u[2]
            == 'T')) && 0x31 <= d && d <= 0x39
    } else {
        false
    };
    r
}

fn unnamed_file_vec() -> (r: Vec<char>)
    ensures
        r@ == unnamed_file(),
{
    let r = vec!['u', 'n', 'n', 'a', 'm', 'e', 'd', '_', 'f', 'i', 'l', 'e'];
    assert(r@ =~= unnamed_file());
    r
}

fn unnamed_file_txt_string() -> (r: String)
    ensures
        r@ == unnamed_file_txt(),
{
    let v = vec!['u', 'n', 'n', 'a', 'm', 'e', 'd', '_', 'f', 'i', 'l', 'e', '.', 't', 'x', 't'];
    assert(v@ =~= unnamed_file_txt());
    from_chars(v.as_slice())
}

/// The base name before the 200-byte cut (see `sanitized_base`).
fn sanitized_base_exec(name: &[char]) -> (r: Vec<char>)
    ensures
        r@ == sanitized_base(name@),
        sep_free(r@),
{
    let stem = match file_name_chars(name) {
        Some(n) => split_name(n.as_slice()).0,
        None => unnamed_file_vec(),
    };
    let cleaned = base_chars_exec(stem.as_slice());
    let collapsed = collapse_underscores_exec(cleaned.as_slice());
    let edges = vec!['.', '_', '-'];
    assert(edges@ =~= edge_chars());
    let trimmed = trim_chars_on(collapsed.as_slice(), edges.as_slice());
    proof {
        lemma_sep_free_trim(collapsed@, edges@);
    }
    let b = if trimmed.len() == 0 {
        let f = vec!['f', 'i', 'l', 'e'];
        assert(f@ =~= seq!['f', 'i', 'l', 'e']);
        f
    } else {
        trimmed
    };
    let bs = from_chars(b.as_slice());
    let upper = to_uppercase(bs.as_str());
    let uc = to_chars(upper.as_str());
    if is_reserved_exec(uc.as_slice()) {
        let suffix = vec!['_', 'f', 'i', 'l', 'e'];
        assert(suffix@ =~= seq!['_', 'f', 'i', 'l', 'e']);
        concat_chars(b.as_slice(), suffix.as_slice())
    } else {
        b
    }
}

fn sanitized_ext_exec(name: &[char]) -> (r: Vec<char>)
    ensures
        r@ == sanitized_ext(name@),
        sep_free(r@),
{
    match file_name_chars(name) {
        Some(n) => {
            match split_name(n.as_slice()).1 {
                Some(e) => {
                    let es = from_chars(e.as_slice());
                    let lower = to_lowercase(es.as_str());
                    let lc = to_chars(lower.as_str());
                    ext_chars_exec(lc.as_slice())
                },
                None => Vec::new(),
            }
        },
        None => Vec::new(),
    }
}

/// A sanitised file name is never empty and never starts with `.`, `_` or
/// `-`; in particular it is neither `.` nor `..` nor a hidden file.
pub proof fn lemma_sanitized_filename_head(filename: Seq<char>)
    requires
        sanitize_total(filename),
    ensures
        sanitized_filename(filename).len() > 0,
        !edge_chars().contains(sanitized_filename(filename)[0]),
{
    let out = sanitized_filename(filename);
    if filename.len() == 0 {
        assert(out[0] == 'u');
        assert(!edge_chars().contains('u')) by {
            if edge_chars().contains('u') {
                let k = choose|k: int| 0 <= k < 3 && edge_chars()[k] == 'u';
            }
        }
    } else {
        let stem = match file_stem(filename) {
            Some(s) => s,
            None => unnamed_file(),
        };
        let collapsed = collapse_underscores(base_chars(stem));
        let trimmed = trim_on(collapsed, edge_chars());
        lemma_trim_start_on(collapsed, edge_chars());
        let t0 = trim_start_on(collapsed, edge_chars());
        lemma_trim_end_on(t0, edge_chars());
        let b = if trimmed.len() == 0 {
            seq!['f', 'i', 'l', 'e']
        } else {
            trimmed
        };
        assert(b.len() > 0 && !edge_chars().contains(b[0])) by {
            if trimmed.len() == 0 {
                if edge_chars().contains('f') {
                    let k = choose|k: int| 0 <= k < 3 && edge_chars()[k] == 'f';
                }
            } else {
                assert(trimmed[0] == t0[0]);
            }
        }
        let base0 = sanitized_base(filename);
        assert(base0.len() > 0 && base0[0] == b[0]);
        let base = truncate_bytes(base0, 200);
        assert(base.len() > 0 && base[0] == b[0]) by {
            if utf8_len(base0) > 200 {
                let k = choose|k: int| 0 <= k <= base0.len() && utf8_len(#[trigger] base0.take(k))
                    == 200;
                assert(base0.take(0) =~= Seq::<char>::empty());
                assert(k != 0);
            }
        }
        assert(out[0] == base[0]);
    }
}

/// Whether `sanitize_filename_safe` can handle `filename` (see
/// `sanitize_total`); on other names the base name would have to be cut
/// inside a character.
pub fn sanitize_filename_is_total(filename: &str) -> (r: bool)
    ensures
        r == sanitize_total(filename@),
{
    let name = to_chars(filename);
    if name.len() == 0 {
        return true;
    }
    let base = sanitized_base_exec(name.as_slice());
    truncate_bytes_exec(base.as_slice(), 200).is_some()
}

/// A file name that is safe to create inside a directory: the stem keeps
/// only Unicode alphanumerics, `-`, `_` and `.` (white space and `+` become
/// `_`), runs of `_` shrink to one, `.`/`_`/`-` are trimmed from both ends,
/// Windows device names get `"_file"` appended, the base is cut to 200
/// bytes, and the lower-cased extension (alphanumerics and `.`) is put back
/// after a `.`. An empty name gives `"unnamed_file.txt"`.
pub fn sanitize_filename_safe(filename: &str) -> (r: String)
    requires
        sanitize_total(filename@),
    ensures
        r@ == sanitized_filename(filename@),
        sep_free(r@),
        r@.len() > 0,
        !edge_chars().contains(r@[0]),
        filename@.len() > 0 ==> (extension(filename@) matches Some(e) ==> {
            let f = unicode_lowercase(e).filter(|c: char| unicode_alphanumeric(c) || c == '.');
            f.len() > 0 ==> ends_with(
                r@,
                if f[0] == '.' {
                    f
                } else {
                    seq!['.'] + f
                },
            )
        }),
{
    proof {
        lemma_sanitized_filename_head(filename@);
        if filename@.len() > 0 {
            lemma_sanitized_name_keeps_extension(filename@);
        }
    }
    let name = to_chars(filename);
    if name.len() == 0 {
        return unnamed_file_txt_string();
    }
    let base0 = sanitized_base_exec(name.as_slice());
    let base = match truncate_bytes_exec(base0.as_slice(), 200) {
        Some(b) => b,
        None => {
            assert(false);
            Vec::new()
        },
    };
    proof {
        if utf8_len(base0@) > 200 {
            let k = choose|k: int| 0 <= k <= base0@.len() && utf8_len(#[trigger] base0@.take(k)) == 200;
            lemma_sep_free_sub(base0@, 0, k);
            assert(base0@.take(k) == base0@.subrange(0, k));
        }
    }
    let ext = sanitized_ext_exec(name.as_slice());
    let out = if ext.len() == 0 {
        base
    } else if ext[0] == '.' {
        concat_chars(base.as_slice(), ext.as_slice())
    } else {
        let d = vec!['.'];
        assert(d@ =~= seq!['.']);
        let with_dot = concat_chars(base.as_slice(), d.as_slice());
        concat_chars(with_dot.as_slice(), ext.as_slice())
    };
    from_chars(out.as_slice())
}


// ---------------------------------------------------------------------
// Upload paths
// ---------------------------------------------------------------------

/// `/` and `\`, the separators an upload path may use.
pub open spec fn upload_seps() -> Seq<char> {
    seq!['/', '\\']
}

/// A piece of an upload path that names a file or directory.
pub open spec fn is_upload_part(p: Seq<char>) -> bool {
    p.len() > 0 && p != seq!['.'] && p != seq!['.', '.']
}

/// The naming pieces, each sanitised.
pub open spec fn sanitized_parts(ps: Seq<Seq<char>>) -> Seq<Seq<char>>
    decreases ps.len(),
{
    if ps.len() == 0 {
        Seq::<Seq<char>>::empty()
    } else if is_upload_part(ps.last()) {
        sanitized_parts(ps.drop_last()).push(sanitized_filename(ps.last()))
    } else {
        sanitized_parts(ps.drop_last())
    }
}

/// Whether `sanitize_path_preserve_dirs_safe` is defined on `path`: it has
/// a `..` piece (which rejects the path before any piece is sanitised), or
/// every naming piece can be sanitised (see `sanitize_total`).
pub open spec fn sanitize_path_total(path: Seq<char>) -> bool {
    let ps = split_on(path, upload_seps());
    ps.contains(seq!['.', '.']) || forall|i: int|
        0 <= i < ps.len() && is_upload_part(#[trigger] ps[i]) ==> sanitize_total(ps[i])
}

/// The result of `sanitize_path_preserve_dirs_safe`.
pub open spec fn sanitized_upload_path(path: Seq<char>) -> Seq<char> {
    let ps = split_on(path, upload_seps());
    if path.len() == 0 || ps.contains(seq!['.', '.']) {
        unnamed_file_txt()
    } else if sanitized_parts(ps).len() == 0 {
        unnamed_file_txt()
    } else {
        join_with(sanitized_parts(ps), seq!['/'])
    }
}

/// Names free of separators, not empty, not starting with `.`, `_` or `-`.
pub open spec fn clean_parts(ps: Seq<Seq<char>>) -> bool {
    forall|i: int|
        0 <= i < ps.len() ==> sep_free(#[trigger] ps[i]) && ps[i].len() > 0 && !edge_chars().contains(
            ps[i][0],
        )
}

/// A relative path made of clean names joined with `/`.
pub open spec fn clean_relative(s: Seq<char>) -> bool {
    exists|ps: Seq<Seq<char>>|
        ps.len() >= 1 && clean_parts(ps) && s == #[trigger] join_with(ps, seq!['/'])
}

proof fn lemma_unnamed_is_clean()
    ensures
        !has_root(unnamed_file_txt()),
        !has_cur_dir(unnamed_file_txt()),
        !components(unnamed_file_txt()).contains(dotdot()),
        normalized(unnamed_file_txt()) == unnamed_file_txt(),
        no_backslash(unnamed_file_txt()),
        clean_relative(unnamed_file_txt()),
{
    let u = unnamed_file_txt();
    assert(sep_free(u));
    assert(!edge_chars().contains(u[0])) by {
        if edge_chars().contains(u[0]) {
            let k = choose|k: int| 0 <= k < 3 && edge_chars()[k] == u[0];
        }
    }
    lemma_clean_relative_path(seq![u]);
    assert(join_with(seq![u], seq!['/']) == u);
    assert(clean_parts(seq![u]));
}

fn is_upload_part_exec(p: &[char]) -> (r: bool)
    ensures
        r == is_upload_part(p@),
{
    let one_dot = p.len() == 1 && p[0] == '.';
    let two_dots = p.len() == 2 && p[0] == '.' && p[1] == '.';
    proof {
        if p@.len() == 1 && p@[0] == '.' {
            assert(p@ =~= seq!['.']);
        }
        if p@.len() == 2 && p@[0] == '.' && p@[1] == '.' {
            assert(p@ =~= seq!['.', '.']);
        }
    }
    p.len() > 0 && !one_dot && !two_dots
}

fn is_dotdot_exec(p: &[char]) -> (r: bool)
    ensures
        r == (p@ == seq!['.', '.']),
{
    let r = p.len() == 2 && p[0] == '.' && p[1] == '.';
    proof {
        if r {
            assert(p@ =~= seq!['.', '.']);
        }
    }
    r
}

/// Names that are free of separators and do not start with `.`, `_` or
/// `-`, joined with `/`, form a relative path whose components are exactly
/// those names; none of them is `..`.
pub proof fn lemma_clean_relative_path(parts: Seq<Seq<char>>)
    requires
        parts.len() >= 1,
        forall|i: int|
            0 <= i < parts.len() ==> sep_free(#[trigger] parts[i]) && parts[i].len() > 0
                && !edge_chars().contains(parts[i][0]),
    ensures
        !has_root(join_with(parts, seq!['/'])),
        !has_cur_dir(join_with(parts, seq!['/'])),
        components(join_with(parts, seq!['/'])) == parts,
        !components(join_with(parts, seq!['/'])).contains(dotdot()),
        normalized(join_with(parts, seq!['/'])) == join_with(parts, seq!['/']),
        no_backslash(join_with(parts, seq!['/'])),
{
    let r = join_with(parts, seq!['/']);
    lemma_join_no_backslash(parts);
    lemma_join_head(parts, seq!['/']);
    assert(sep_free(parts[0]));
    assert(r[0] != '/');
    assert(r[0] != '.') by {
        assert(edge_chars()[0] == '.');
    }
    assert forall|i: int| 0 <= i < parts.len() implies free_of(#[trigger] parts[i], seq!['/']) by {
        lemma_sep_free_free_of(parts[i]);
    }
    assert(seq!['/'].contains('/')) by {
        assert(seq!['/'][0] == '/');
    }
    lemma_split_join(parts, '/', seq!['/']);
    assert(r.skip(0) =~= r);
    assert(body_pieces(r) == parts);
    assert forall|i: int| 0 <= i < parts.len() implies is_named(#[trigger] parts[i]) by {
        assert(parts[i][0] != '.') by {
            assert(edge_chars()[0] == '.');
        }
        if parts[i] == dot() {
            assert(parts[i][0] == '.');
        }
    }
    lemma_named_all(parts);
    assert(!parts.contains(dotdot())) by {
        if parts.contains(dotdot()) {
            let k = choose|k: int| 0 <= k < parts.len() && parts[k] == dotdot();
            assert(parts[k][0] == '.');
            assert(edge_chars()[0] == '.');
        }
    }
    lemma_resolve_dots_none(parts);
    assert(Seq::<char>::empty() + r == r);
}

/// No `\` in a text.
pub open spec fn no_backslash(s: Seq<char>) -> bool {
    forall|i: int| 0 <= i < s.len() ==> s[i] != '\\'
}

proof fn lemma_join_no_backslash(parts: Seq<Seq<char>>)
    requires
        forall|i: int| 0 <= i < parts.len() ==> sep_free(#[trigger] parts[i]),
    ensures
        no_backslash(join_with(parts, seq!['/'])),
    decreases parts.len(),
{
    if parts.len() > 1 {
        let init = parts.drop_last();
        assert forall|i: int| 0 <= i < init.len() implies sep_free(#[trigger] init[i]) by {
            assert(init[i] == parts[i]);
        }
        lemma_join_no_backslash(init);
        let j = join_with(init, seq!['/']) + seq!['/'] + parts.last();
        assert(sep_free(parts[parts.len() - 1]));
        assert forall|i: int| 0 <= i < j.len() implies j[i] != '\\' by {
            let a = join_with(init, seq!['/']);
            if i < a.len() {
                assert(j[i] == a[i]);
            } else if i == a.len() {
                assert(j[i] == '/');
            } else {
                assert(j[i] == parts.last()[i - a.len() - 1]);
            }
        }
    } else if parts.len() == 1 {
        assert(sep_free(parts[0]));
    }
}

/// `sanitize_filename_safe` where it is defined: `None` for a name whose
/// sanitising is not defined (see `sanitize_total`).
pub fn sanitize_filename_checked(filename: &str) -> (r: Option<String>)
    ensures
        r is Some <==> sanitize_total(filename@),
        r matches Some(s) ==> s@ == sanitized_filename(filename@),
{
    if sanitize_filename_is_total(filename) {
        Some(sanitize_filename_safe(filename))
    } else {
        None
    }
}

/// `sanitize_path_preserve_dirs_safe` where it is defined: `None` for a
/// path on which it is not (see `sanitize_path_total`).
pub fn sanitize_path_checked(file_path: &str) -> (r: Option<String>)
    ensures
        r is Some <==> sanitize_path_total(file_path@),
        r matches Some(s) ==> s@ == sanitized_upload_path(file_path@),
{
    if sanitize_path_is_total(file_path) {
        Some(sanitize_path_preserve_dirs_safe(file_path))
    } else {
        None
    }
}

/// Whether `sanitize_path_preserve_dirs_safe` can handle `path` (see
/// `sanitize_path_total`).
pub fn sanitize_path_is_total(path: &str) -> (r: bool)
    ensures
        r == sanitize_path_total(path@),
{
    let s = to_chars(path);
    let seps = vec!['/', '\\'];
    assert(seps@ =~= upload_seps());
    let ps = split_chars(s.as_slice(), seps.as_slice());
    let mut d: usize = 0;
    while d < ps.len()
        invariant
            d <= ps.len(),
            s@ == path@,
            ps.deep_view() == split_on(s@, upload_seps()),
            forall|k: int| 0 <= k < d ==> ps.deep_view()[k] != seq!['.', '.'],
        decreases ps.len() - d,
    {
        if is_dotdot_exec(ps[d].as_slice()) {
            assert(ps.deep_view()[d as int] == seq!['.', '.']);
            assert(ps.deep_view().contains(seq!['.', '.']));
            return true;
        }
        d = d + 1;
    }
    assert(!ps.deep_view().contains(seq!['.', '.']));
    let mut i: usize = 0;
    while i < ps.len()
        invariant
            i <= ps.len(),
            s@ == path@,
            ps.deep_view() == split_on(s@, upload_seps()),
            !ps.deep_view().contains(seq!['.', '.']),
            forall|k: int|
                0 <= k < i && is_upload_part(#[trigger] ps.deep_view()[k]) ==> sanitize_total(
                    ps.deep_view()[k],
                ),
        decreases ps.len() - i,
    {
        if is_upload_part_exec(ps[i].as_slice()) {
            let part = from_chars(ps[i].as_slice());
            assert(part@ == ps.deep_view()[i as int]);
            if !sanitize_filename_is_total(part.as_str()) {
                let ghost q = split_on(s@, upload_seps());
                assert(is_upload_part(q[i as int]) && !sanitize_total(q[i as int]));
                assert(!sanitize_path_total(path@));
                return false;
            }
        }
        i = i + 1;
    }
    true
}

/// An upload path with its directories kept: it is cut at `/` and `\`, any
/// `..` piece rejects the whole path (`"unnamed_file.txt"`), empty and `.`
/// pieces are dropped, every other piece goes through
/// `sanitize_filename_safe`, and the results are joined with `/`. An empty
/// path, or one with no piece left, gives `"unnamed_file.txt"`.
pub fn sanitize_path_preserve_dirs_safe(file_path: &str) -> (r: String)
    requires
        sanitize_path_total(file_path@),
    ensures
        r@ == sanitized_upload_path(file_path@),
        !has_root(r@),
        !has_cur_dir(r@),
        !components(r@).contains(dotdot()),
        normalized(r@) == r@,
        no_backslash(r@),
        clean_relative(r@),
{
    proof {
        lemma_unnamed_is_clean();
    }
    let s = to_chars(file_path);
    if s.len() == 0 {
        return unnamed_file_txt_string();
    }
    let seps = vec!['/', '\\'];
    assert(seps@ =~= upload_seps());
    let ps = split_chars(s.as_slice(), seps.as_slice());
    let ghost pv = ps.deep_view();
    let mut i: usize = 0;
    while i < ps.len()
        invariant
            i <= ps.len(),
            pv == ps.deep_view(),
            pv == split_on(s@, upload_seps()),
            s@ == file_path@,
            s@.len() > 0,
            !components(unnamed_file_txt()).contains(dotdot()),
            forall|k: int| 0 <= k < i ==> pv[k] != seq!['.', '.'],
        decreases ps.len() - i,
    {
        if is_dotdot_exec(ps[i].as_slice()) {
            assert(pv[i as int] == seq!['.', '.']);
            assert(pv.contains(seq!['.', '.']));
            assert(split_on(file_path@, upload_seps()).contains(seq!['.', '.']));
            assert(sanitized_upload_path(file_path@) == unnamed_file_txt());
            proof {
                lemma_unnamed_is_clean();
            }
            return unnamed_file_txt_string();
        }
        i = i + 1;
    }
    assert(!pv.contains(seq!['.', '.']));
    let mut parts: Vec<Vec<char>> = Vec::new();
    let mut j: usize = 0;
    while j < ps.len()
        invariant
            j <= ps.len(),
            pv == ps.deep_view(),
            pv == split_on(s@, upload_seps()),
            sanitize_path_total(s@),
            !pv.contains(seq!['.', '.']),
            parts.deep_view() == sanitized_parts(pv.take(j as int)),
            forall|k: int|
                0 <= k < parts.deep_view().len() ==> sep_free(#[trigger] parts.deep_view()[k])
                    && parts.deep_view()[k].len() > 0 && !edge_chars().contains(
                    parts.deep_view()[k][0],
                ),
        decreases ps.len() - j,
    {
        proof {
            assert(pv.take(j + 1).drop_last() == pv.take(j as int));
            assert(pv.take(j + 1).last() == pv[j as int]);
        }
        if is_upload_part_exec(ps[j].as_slice()) {
            let part = from_chars(ps[j].as_slice());
            assert(is_upload_part(pv[j as int]));
            let clean = sanitize_filename_safe(part.as_str());
            let cv = to_chars(clean.as_str());
            let ghost old_parts = parts;
            let ghost cvv = cv;
            parts.push(cv);
            proof {
                crate::lemmas::lemma_push_deep_view(old_parts, parts, cvv);
            }
        }
        j = j + 1;
    }
    assert(pv.take(ps.len() as int) == pv);
    if parts.len() == 0 {
        return unnamed_file_txt_string();
    }
    let sep = vec!['/'];
    assert(sep@ =~= seq!['/']);
    let joined = join_chars(&parts, sep.as_slice());
    proof {
        lemma_clean_relative_path(parts.deep_view());
        assert(clean_parts(parts.deep_view()));
    }
    from_chars(joined.as_slice())
}

// ---------------------------------------------------------------------
// Batch ids
// ---------------------------------------------------------------------

pub open spec fn all_ascii_digits(s: Seq<char>) -> bool {
    forall|i: int| 0 <= i < s.len() ==> is_ascii_digit(#[trigger] s[i])
}

pub open spec fn all_lower_or_digit(s: Seq<char>) -> bool {
    forall|i: int| 0 <= i < s.len() ==> is_ascii_lower(#[trigger] s[i]) || is_ascii_digit(s[i])
}

/// A batch id is `<digits>-<8 or 9 bytes of lowercase ASCII letters and
/// digits>`, with exactly one `-` (the digits may be empty).
pub open spec fn valid_batch_id(s: Seq<char>) -> bool {
    let ps = split_on(s, seq!['-']);
    &&& ps.len() == 2
    &&& all_ascii_digits(ps[0])
    &&& 8 <= utf8_len(ps[1]) <= 9
    &&& all_lower_or_digit(ps[1])
}

pub proof fn lemma_ascii_utf8_len(s: Seq<char>)
    requires
        forall|i: int| 0 <= i < s.len() ==> (#[trigger] s[i] as u32) < 0x80,
    ensures
        utf8_len(s) == s.len(),
    decreases s.len(),
{
    if s.len() > 0 {
        assert forall|i: int| 0 <= i < s.drop_last().len() implies (#[trigger] s.drop_last()[i]
            as u32) < 0x80 by {
            assert(s.drop_last()[i] == s[i]);
        }
        lemma_ascii_utf8_len(s.drop_last());
    }
}

/// Whether a batch id has the form `<digits>-<8 or 9 lowercase letters or digits>`.
pub fn is_valid_batch_id(batch_id: &str) -> (r: bool)
    ensures
        r == valid_batch_id(batch_id@),
{
    let s = to_chars(batch_id);
    let dash = vec!['-'];
    assert(dash@ =~= seq!['-']);
    let ps = split_chars(s.as_slice(), dash.as_slice());
    if ps.len() != 2 {
        return false;
    }
    let first = &ps[0];
    assert(ps.deep_view()[0] == first@);
    assert(ps.deep_view()[1] == ps@[1]@);
    let mut i: usize = 0;
    while i < first.len()
        invariant
            i <= first.len(),
            forall|k: int| 0 <= k < i ==> is_ascii_digit(#[trigger] first@[k]),
            ps@.len() == 2,
            s@ == batch_id@,
            ps.deep_view() == split_on(s@, seq!['-']),
            ps.deep_view()[0] == first@,
        decreases first.len() - i,
    {
        if !ascii_digit(first[i]) {
            assert(!is_ascii_digit(split_on(s@, seq!['-'])[0][i as int]));
            assert(!valid_batch_id(batch_id@));
            return false;
        }
        i = i + 1;
    }
    let second = &ps[1];
    let mut j: usize = 0;
    while j < second.len()
        invariant
            j <= second.len(),
            forall|k: int| 0 <= k < j ==> is_ascii_lower(#[trigger] second@[k]) || is_ascii_digit(
                second@[k],
            ),
            ps@.len() == 2,
            s@ == batch_id@,
            ps.deep_view() == split_on(s@, seq!['-']),
            ps.deep_view()[1] == second@,
        decreases second.len() - j,
    {
        if !(ascii_lower(second[j]) || ascii_digit(second[j])) {
            let ghost q = split_on(s@, seq!['-'])[1];
            assert(!(is_ascii_lower(q[j as int]) || is_ascii_digit(q[j as int])));
            assert(!valid_batch_id(batch_id@));
            return false;
        }
        j = j + 1;
    }
    proof {
        lemma_ascii_utf8_len(second@);
    }
    second.len() >= 8 && second.len() <= 9
}

} // verus!
