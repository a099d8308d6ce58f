//! Requests on one stored item: the path named in a request, the
//! `Content-Disposition` of a download and the planning of a rename.

use vstd::prelude::*;
use crate::paths::{
    extension, split_name, components, file_name, file_name_chars, lemma_join_stays_within, parent, parent_chars, path_join,
    path_join_chars, path_starts_with,
};
use crate::sanitize::{sanitize_filename_safe, sanitize_total, sanitized_filename};
use crate::text::{concat_chars, from_chars, to_chars, trim_whitespace, trim_ws};
use crate::upload::{backslashes_to_slashes, slashes_for_backslashes};

verus! {

broadcast use crate::lemmas::lemma_chars_deep_view;

// ---------------------------------------------------------------------
// Percent-encoding
// ---------------------------------------------------------------------

/// The UTF-8 encoding of one character.
pub open spec fn utf8_char(c: char) -> Seq<u8> {
    let u = c as int;
    if u < 0x80 {
        seq![u as u8]
    } else if u < 0x800 {
        seq![(0xC0 + u / 64) as u8, (0x80 + u % 64) as u8]
    } else if u < 0x10000 {
        seq![(0xE0 + u / 4096) as u8, (0x80 + (u / 64) % 64) as u8, (0x80 + u % 64) as u8]
    } else {
        seq![
            (0xF0 + u / 262144) as u8,
            (0x80 + (u / 4096) % 64) as u8,
            (0x80 + (u / 64) % 64) as u8,
            (0x80 + u % 64) as u8,
        ]
    }
}

/// The UTF-8 encoding of a string.
pub open spec fn utf8_bytes(s: Seq<char>) -> Seq<u8>
    decreases s.len(),
{
    if s.len() == 0 {
        Seq::<u8>::empty()
    } else {
        utf8_bytes(s.drop_last()) + utf8_char(s.last())
    }
}

pub open spec fn upper_hex_digit(d: int) -> char {
    seq!['0', '1', '2', '3', '4', '5', '6', '7', '8', '9', 'A', 'B', 'C', 'D', 'E', 'F'][d]
}

pub open spec fn is_ascii_alnum_byte(b: u8) -> bool {
    (0x30 <= b <= 0x39) || (0x41 <= b <= 0x5A) || (0x61 <= b <= 0x7A)
}

/// One byte percent-encoded with the set of all ASCII characters but
/// letters and digits: those are kept, every other byte becomes `%XX`.
pub open spec fn percent_byte(b: u8) -> Seq<char> {
    if is_ascii_alnum_byte(b) {
        seq![b as char]
    } else {
        seq!['%', upper_hex_digit(b as int / 16), upper_hex_digit(b as int % 16)]
    }
}

pub open spec fn percent_encoded(b: Seq<u8>) -> Seq<char>
    decreases b.len(),
{
    if b.len() == 0 {
        Seq::<char>::empty()
    } else {
        percent_encoded(b.drop_last()) + percent_byte(b.last())
    }
}

/// Calls `percent_encoding::utf8_percent_encode` with `NON_ALPHANUMERIC`.
/// Claimed, as the crate's source shows: each byte of the UTF-8 encoding
/// that is an ASCII letter or digit is kept, every other byte is written
/// as `%` and two upper-case hexadecimal digits.
#[verifier::external_body]
fn percent_encode_non_alphanumeric(s: &str) -> (r: String)
    ensures
        r@ == percent_encoded(utf8_bytes(s@)),
{
    percent_encoding::utf8_percent_encode(s, percent_encoding::NON_ALPHANUMERIC).to_string()
}

/// What `percent_decode_str(s).decode_utf8_lossy()` gives for `s`:
/// `%XX` sequences decoded to bytes, then read as UTF-8 with invalid
/// sequences replaced by U+FFFD.
pub uninterp spec fn percent_decoded_lossy(s: Seq<char>) -> Seq<char>;

/// Calls `percent_encoding::percent_decode_str` and `decode_utf8_lossy`.
/// Claimed: the result is `percent_decoded_lossy(s)`, and a string without
/// `%` comes back unchanged (its bytes are not touched and are valid
/// UTF-8). Nothing more is claimed of the decoding.
#[verifier::external_body]
fn decode_path_param(s: &str) -> (r: String)
    ensures
        r@ == percent_decoded_lossy(s@),
        !s@.contains('%') ==> r@ == s@,
{
    percent_encoding::percent_decode_str(s).decode_utf8_lossy().to_string()
}

/// The item a request names: the percent-decoded path parameter, and that
/// path joined onto the upload directory.
pub fn request_file_path(upload_dir: &str, raw_path: &str) -> (r: (String, String))
    ensures
        r.0@ == percent_decoded_lossy(raw_path@),
        !raw_path@.contains('%') ==> r.0@ == raw_path@,
        r.1@ == path_join(upload_dir@, r.0@),
{
    let decoded = decode_path_param(raw_path);
    let dir = to_chars(upload_dir);
    let d = to_chars(decoded.as_str());
    let joined = path_join_chars(dir.as_slice(), d.as_slice());
    (decoded, from_chars(joined.as_slice()))
}

/// The extension of a path as it is (the `mimetype` reported for an
/// item), or nothing.
pub fn path_extension(path: &str) -> (r: String)
    ensures
        r@ == match extension(path@) {
            Some(e) => e,
            None => Seq::<char>::empty(),
        },
{
    let p = to_chars(path);
    match file_name_chars(p.as_slice()) {
        Some(n) => match split_name(n.as_slice()).1 {
            Some(e) => from_chars(e.as_slice()),
            None => String::new(),
        },
        None => String::new(),
    }
}

// ---------------------------------------------------------------------
// Content-Disposition
// ---------------------------------------------------------------------

pub open spec fn is_ascii_control(c: char) -> bool {
    c < ' ' || c == '\u{7f}'
}

/// ASCII control characters, `"` and `\` become `_`.
pub open spec fn scrub_char(c: char) -> char {
    if is_ascii_control(c) || c == '"' || c == '\\' {
        '_'
    } else {
        c
    }
}

pub open spec fn scrubbed(s: Seq<char>) -> Seq<char> {
    s.map_values(|c: char| scrub_char(c))
}

/// A printable ASCII character (space to `~`).
pub open spec fn printable(c: char) -> bool {
    ' ' <= c && c <= '~'
}

pub open spec fn all_printable(s: Seq<char>) -> bool {
    forall|i: int| 0 <= i < s.len() ==> printable(#[trigger] s[i])
}

/// Every character that is not printable ASCII replaced by `_`.
pub open spec fn ascii_fallback(s: Seq<char>) -> Seq<char> {
    s.map_values(|c: char| if printable(c) { c } else { '_' })
}

/// The name a download is offered under: the file name of the path, or the
/// whole path when it has none.
pub open spec fn download_name(path: Seq<char>) -> Seq<char> {
    match file_name(path) {
        Some(n) => n,
        None => path,
    }
}

/// The `Content-Disposition` header of a download of `path`.
pub open spec fn content_disposition(path: Seq<char>) -> Seq<char> {
    let s = scrubbed(download_name(path));
    if all_printable(s) {
        "attachment; filename=\""@ + s + "\""@
    } else {
        "attachment; filename=\""@ + ascii_fallback(s) + "\"; filename*=UTF-8''"@
            + percent_encoded(utf8_bytes(s))
    }
}

/// A percent-encoding is printable ASCII.
proof fn lemma_percent_encoded_printable(b: Seq<u8>)
    ensures
        all_printable(percent_encoded(b)),
    decreases b.len(),
{
    if b.len() > 0 {
        lemma_percent_encoded_printable(b.drop_last());
        let x = b.last();
        let p = percent_byte(x);
        let hex = seq!['0', '1', '2', '3', '4', '5', '6', '7', '8', '9', 'A', 'B', 'C', 'D', 'E', 'F'];
        assert(all_printable(hex));
        assert(all_printable(p)) by {
            if !is_ascii_alnum_byte(x) {
                assert(hex[x as int / 16] == upper_hex_digit(x as int / 16));
                assert(hex[x as int % 16] == upper_hex_digit(x as int % 16));
            }
        }
        lemma_printable_concat(percent_encoded(b.drop_last()), p);
    }
}

proof fn lemma_printable_concat(a: Seq<char>, b: Seq<char>)
    requires
        all_printable(a),
        all_printable(b),
    ensures
        all_printable(a + b),
{
    assert forall|i: int| 0 <= i < (a + b).len() implies printable(#[trigger] (a + b)[i]) by {
        if i < a.len() {
            assert((a + b)[i] == a[i]);
        } else {
            assert((a + b)[i] == b[i - a.len()]);
        }
    }
}

/// The header holds printable ASCII only: no line break or other control
/// character can get into it.
pub proof fn lemma_content_disposition_printable(path: Seq<char>)
    ensures
        all_printable(content_disposition(path)),
{
    reveal_strlit("attachment; filename=\"");
    reveal_strlit("\"");
    reveal_strlit("\"; filename*=UTF-8''");
    let s = scrubbed(download_name(path));
    let head = "attachment; filename=\""@;
    assert(all_printable(head));
    assert(all_printable("\""@));
    assert(all_printable("\"; filename*=UTF-8''"@));
    if all_printable(s) {
        lemma_printable_concat(head, s);
        lemma_printable_concat(head + s, "\""@);
    } else {
        let f = ascii_fallback(s);
        assert(all_printable(f));
        lemma_printable_concat(head, f);
        lemma_printable_concat(head + f, "\"; filename*=UTF-8''"@);
        lemma_percent_encoded_printable(utf8_bytes(s));
        lemma_printable_concat(head + f + "\"; filename*=UTF-8''"@, percent_encoded(utf8_bytes(s)));
    }
}

/// The `Content-Disposition` header of a download: `attachment` with the
/// file name scrubbed of control characters, quotes and backslashes; a name
/// that is not all printable ASCII is given twice, as an ASCII fallback
/// and percent-encoded in UTF-8 (`filename*`).
pub fn create_safe_content_disposition(filename: &str) -> (r: String)
    ensures
        r@ == content_disposition(filename@),
        all_printable(r@),
{
    proof {
        lemma_content_disposition_printable(filename@);
    }
    let f = to_chars(filename);
    let base = match file_name_chars(f.as_slice()) {
        Some(n) => n,
        None => f,
    };
    assert(base@ == download_name(filename@));
    let mut s: Vec<char> = Vec::new();
    let mut fallback: Vec<char> = Vec::new();
    let mut all_ok = true;
    let mut i: usize = 0;
    while i < base.len()
        invariant
            i <= base@.len(),
            s@ == scrubbed(base@).take(i as int),
            fallback@ == ascii_fallback(scrubbed(base@)).take(i as int),
            all_ok == all_printable(s@),
        decreases base.len() - i,
    {
        let c = base[i];
        let sc = if c < ' ' || c == '\u{7f}' || c == '"' || c == '\\' {
            '_'
        } else {
            c
        };
        let ghost s0 = s@;
        s.push(sc);
        assert(all_printable(s@) == (all_printable(s0) && printable(sc))) by {
            if all_printable(s0) && printable(sc) {
                assert forall|k: int| 0 <= k < s@.len() implies printable(#[trigger] s@[k]) by {
                    if k < s0.len() {
                        assert(s@[k] == s0[k]);
                    }
                }
            }
            if all_printable(s@) {
                assert(printable(s@[s0.len() as int]));
                assert forall|k: int| 0 <= k < s0.len() implies printable(#[trigger] s0[k]) by {
                    assert(s@[k] == s0[k]);
                    assert(printable(s@[k]));
                }
            }
        }
        fallback.push(if ' ' <= sc && sc <= '~' { sc } else { '_' });
        all_ok = all_ok && ' ' <= sc && sc <= '~';
        i = i + 1;
        assert(s@ == scrubbed(base@).take(i as int));
        assert(fallback@ == ascii_fallback(scrubbed(base@)).take(i as int));
    }
    assert(s@ == scrubbed(base@));
    assert(fallback@ == ascii_fallback(scrubbed(base@)));
    let head = to_chars("attachment; filename=\"");
    if all_ok {
        let quote = to_chars("\"");
        let a = concat_chars(head.as_slice(), s.as_slice());
        let b = concat_chars(a.as_slice(), quote.as_slice());
        from_chars(b.as_slice())
    } else {
        let mid = to_chars("\"; filename*=UTF-8''");
        let encoded = percent_encode_non_alphanumeric(from_chars(s.as_slice()).as_str());
        let e = to_chars(encoded.as_str());
        let a = concat_chars(head.as_slice(), fallback.as_slice());
        let b = concat_chars(a.as_slice(), mid.as_slice());
        let c = concat_chars(b.as_slice(), e.as_slice());
        from_chars(c.as_slice())
    }
}

// ---------------------------------------------------------------------
// Rename
// ---------------------------------------------------------------------

/// The body of a rename request.
pub struct RenamePayload {
    pub new_name: String,
}

/// A name with nothing but white space.
pub open spec fn blank(s: Seq<char>) -> bool {
    trim_ws(s).len() == 0
}

/// Whether a requested new name is missing (empty or white space only).
pub fn rename_name_is_blank(new_name: &str) -> (r: bool)
    ensures
        r == blank(new_name@),
{
    let n = to_chars(new_name);
    trim_whitespace(n.as_slice()).len() == 0
}

/// Where an item is moved by a rename: into the directory that holds it
/// (the upload directory when its path has no parent), under the new name.
pub open spec fn rename_destination(upload_dir: Seq<char>, current: Seq<char>, name: Seq<char>) -> Seq<char> {
    path_join(
        match parent(current) {
            Some(p) => p,
            None => upload_dir,
        },
        name,
    )
}

/// The new name (the requested one trimmed and sanitised) and the path the
/// item moves to; `None` when nothing but white space is left of the name.
pub fn plan_rename(upload_dir: &str, current_path: &str, new_name: &str) -> (r: Option<(String, String)>)
    requires
        sanitize_total(trim_ws(new_name@)),
    ensures
        r is None <==> blank(sanitized_filename(trim_ws(new_name@))),
        r matches Some((n, d)) ==> n@ == sanitized_filename(trim_ws(new_name@)) && d@
            == rename_destination(upload_dir@, current_path@, n@),
        r matches Some((n, d)) ==> path_starts_with(
            d@,
            match parent(current_path@) {
                Some(p) => p,
                None => upload_dir@,
            },
        ),
{
    let requested = to_chars(new_name);
    let trimmed = from_chars(trim_whitespace(requested.as_slice()).as_slice());
    let name = sanitize_filename_safe(trimmed.as_str());
    let name_chars = to_chars(name.as_str());
    if trim_whitespace(name_chars.as_slice()).len() == 0 {
        return None;
    }
    let current = to_chars(current_path);
    let dir = match parent_chars(current.as_slice()) {
        Some(p) => p,
        None => to_chars(upload_dir),
    };
    let dest = path_join_chars(dir.as_slice(), name_chars.as_slice());
    proof {
        let nv = name_chars@;
        assert(nv[0] != '/' && nv[0] != '.') by {
            assert(crate::sanitize::edge_chars()[0] == '.');
        }
        let cd = components(dir@);
        assert(cd.take(cd.len() as int) =~= cd);
        lemma_join_stays_within(dir@, nv, dir@);
    }
    Some((name, from_chars(dest.as_slice())))
}

/// What `Path::strip_prefix` gives: the rest of `path` after the components
/// of `base`, as text.
pub uninterp spec fn stripped_prefix(path: Seq<char>, base: Seq<char>) -> Option<Seq<char>>;

/// Calls `Path::strip_prefix`. Claimed: the result is what
/// `stripped_prefix` names, and it is there exactly when the components of
/// `base` begin those of `path` (`Path::starts_with`), as the documentation
/// says. The text of the rest is not stated.
#[verifier::external_body]
fn strip_path_prefix(path: &str, base: &str) -> (r: Option<String>)
    ensures
        r is Some <==> path_starts_with(path@, base@),
        match r {
            Some(p) => stripped_prefix(path@, base@) == Some(p@),
            None => stripped_prefix(path@, base@) is None,
        },
{
    std::path::Path::new(path).strip_prefix(base).ok().map(|p| p.to_string_lossy().into_owned())
}

/// The path reported after a rename: the new path relative to the upload
/// directory with `/` separators, or the new name when the new path is not
/// under the upload directory.
pub open spec fn renamed_relative_path(
    new_path: Seq<char>,
    upload_dir: Seq<char>,
    name: Seq<char>,
) -> Seq<char> {
    match stripped_prefix(new_path, upload_dir) {
        Some(p) => backslashes_to_slashes(p),
        None => name,
    }
}

/// The old name and the new relative path reported after a rename.
pub fn rename_report(upload_dir: &str, decoded_path: &str, new_path: &str, new_name: &str) -> (r: (
    String,
    String,
))
    ensures
        r.0@ == download_name(decoded_path@),
        r.1@ == renamed_relative_path(new_path@, upload_dir@, new_name@),
{
    let d = to_chars(decoded_path);
    let old = match file_name_chars(d.as_slice()) {
        Some(n) => n,
        None => d,
    };
    let rel = match strip_path_prefix(new_path, upload_dir) {
        Some(p) => slashes_for_backslashes(p.as_str()),
        None => from_chars(to_chars(new_name).as_slice()),
    };
    (from_chars(old.as_slice()), rel)
}

} // verus!
