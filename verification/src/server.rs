//! Decisions of the server around its routes: where logs go, which
//! origins may call it, when to send HSTS, and the text of an upload
//! notification.

use vstd::prelude::*;
use crate::sanitize::{sanitize_filename_safe, sanitize_total, sanitized_filename};
use crate::size_format::{format_file_size, formatted_size};
use crate::text::{
    chars_eq, concat_chars, from_chars, slice_chars, split_chars, split_on, to_chars,
    trim_whitespace, trim_ws,
};

verus! {

broadcast use crate::lemmas::lemma_chars_deep_view;

// ---------------------------------------------------------------------
// Text replacement
// ---------------------------------------------------------------------

/// `str::replace` with a non-empty pattern: the occurrences of `p` found
/// from left to right, without overlap, replaced by `r`.
pub open spec fn replace_all(s: Seq<char>, p: Seq<char>, r: Seq<char>) -> Seq<char>
    decreases s.len(),
{
    if p.len() == 0 || s.len() < p.len() {
        s
    } else if s.take(p.len() as int) == p {
        r + replace_all(s.skip(p.len() as int), p, r)
    } else {
        seq![s[0]] + replace_all(s.skip(1), p, r)
    }
}

/// Every occurrence of `pattern` in `s` replaced by `with`.
pub fn replace_text(s: &str, pattern: &str, with: &str) -> (r: String)
    requires
        pattern@.len() > 0,
    ensures
        r@ == replace_all(s@, pattern@, with@),
{
    let a = to_chars(s);
    let p = to_chars(pattern);
    let w = to_chars(with);
    let n = a.len();
    let m = p.len();
    let mut out: Vec<char> = Vec::new();
    let mut i: usize = 0;
    assert(a@.skip(0) == a@);
    assert(out@ + replace_all(a@, p@, w@) == replace_all(a@, p@, w@));
    while i < n
        invariant
            a@ == s@,
            p@ == pattern@,
            w@ == with@,
            n == a@.len(),
            m == p@.len(),
            m > 0,
            i <= n,
            replace_all(a@, p@, w@) == out@ + replace_all(a@.skip(i as int), p@, w@),
        decreases n - i,
    {
        let ghost rest = a@.skip(i as int);
        if n - i >= m {
            let piece = slice_chars(a.as_slice(), i, i + m);
            assert(rest.take(m as int) == a@.subrange(i as int, i + m));
            if chars_eq(piece.as_slice(), p.as_slice()) {
                assert(rest.skip(m as int) == a@.skip(i + m));
                out = concat_chars(out.as_slice(), w.as_slice());
                i = i + m;
                continue;
            }
        }
        assert(rest.skip(1) == a@.skip(i + 1));
        assert(rest[0] == a@[i as int]);
        let ghost o0 = out@;
        out.push(a[i]);
        assert(out@ == o0 + seq![rest[0]]);
        i = i + 1;
    }
    assert(a@.skip(n as int) =~= Seq::<char>::empty());
    assert(out@ + Seq::<char>::empty() == out@);
    from_chars(out.as_slice())
}

// ---------------------------------------------------------------------
// Upload notifications
// ---------------------------------------------------------------------

/// The notification sent for an upload: the template with `{filename}`
/// replaced by the sanitised file name, `{size}` by the file size in the
/// configured unit (or the automatic one) and `{storage}` by the space
/// used by the upload directory.
pub open spec fn notification_message(
    template: Seq<char>,
    filename: Seq<char>,
    file_size: nat,
    size_unit: Option<Seq<char>>,
    storage: nat,
) -> Seq<char> {
    replace_all(
        replace_all(
            replace_all(template, "{filename}"@, sanitized_filename(filename)),
            "{size}"@,
            formatted_size(file_size, size_unit),
        ),
        "{storage}"@,
        formatted_size(storage, None),
    )
}

pub fn notification_text(
    template: &str,
    filename: &str,
    file_size: u64,
    size_unit: Option<&str>,
    storage_bytes: u64,
) -> (r: String)
    requires
        sanitize_total(filename@),
    ensures
        r@ == notification_message(
            template@,
            filename@,
            file_size as nat,
            match size_unit {
                Some(u) => Some(u@),
                None => None,
            },
            storage_bytes as nat,
        ),
{
    let size = format_file_size(file_size, size_unit);
    let storage = format_file_size(storage_bytes, None);
    let name = sanitize_filename_safe(filename);
    proof {
        reveal_strlit("{filename}");
        reveal_strlit("{size}");
        reveal_strlit("{storage}");
    }
    let a = replace_text(template, "{filename}", name.as_str());
    let b = replace_text(a.as_str(), "{size}", size.as_str());
    replace_text(b.as_str(), "{storage}", storage.as_str())
}

// ---------------------------------------------------------------------
// Logging, CORS and HSTS
// ---------------------------------------------------------------------

/// Where logs are written: the configured directory, else `/app/data/log`
/// when `/app/data` is a directory, else `/app/log`; `off`, `none` and
/// `false` turn file logging off.
pub open spec fn log_dir(configured: Option<Seq<char>>, data_dir_exists: bool) -> Option<Seq<char>> {
    let d = match configured {
        Some(c) => c,
        None => if data_dir_exists {
            "/app/data/log"@
        } else {
            "/app/log"@
        },
    };
    if d == "off"@ || d == "none"@ || d == "false"@ {
        None
    } else {
        Some(d)
    }
}

pub fn log_dir_choice(configured: Option<&str>, data_dir_exists: bool) -> (r: Option<String>)
    ensures
        match r {
            Some(d) => log_dir(
                match configured {
                    Some(c) => Some(c@),
                    None => None,
                },
                data_dir_exists,
            ) == Some(d@),
            None => log_dir(
                match configured {
                    Some(c) => Some(c@),
                    None => None,
                },
                data_dir_exists,
            ) is None,
        },
{
    let d = match configured {
        Some(c) => to_chars(c),
        None => if data_dir_exists {
            to_chars("/app/data/log")
        } else {
            to_chars("/app/log")
        },
    };
    let off = to_chars("off");
    let none = to_chars("none");
    let no = to_chars("false");
    if chars_eq(d.as_slice(), off.as_slice()) || chars_eq(d.as_slice(), none.as_slice())
        || chars_eq(d.as_slice(), no.as_slice()) {
        None
    } else {
        Some(from_chars(d.as_slice()))
    }
}

/// The origins allowed to call the API: `None` when the setting is `*`
/// (any origin), else each comma-separated entry trimmed.
pub open spec fn cors_origins(allowed: Seq<char>) -> Option<Seq<Seq<char>>> {
    if trim_ws(allowed) == "*"@ {
        None
    } else {
        Some(split_on(allowed, seq![',']).map_values(|o: Seq<char>| trim_ws(o)))
    }
}

pub fn allowed_origins(allowed: &str) -> (r: Option<Vec<String>>)
    ensures
        match r {
            Some(v) => cors_origins(allowed@) == Some(v@.map_values(|s: String| s@)),
            None => cors_origins(allowed@) is None,
        },
{
    let a = to_chars(allowed);
    let t = trim_whitespace(a.as_slice());
    let star = to_chars("*");
    if chars_eq(t.as_slice(), star.as_slice()) {
        return None;
    }
    let sep = vec![','];
    assert(sep@ =~= seq![',']);
    let parts = split_chars(a.as_slice(), sep.as_slice());
    let ghost pv = parts.deep_view();
    let mut out: Vec<String> = Vec::new();
    let mut i: usize = 0;
    while i < parts.len()
        invariant
            i <= parts@.len(),
            pv == parts.deep_view(),
            pv == split_on(allowed@, seq![',']),
            out@.map_values(|s: String| s@) =~= pv.take(i as int).map_values(
                |o: Seq<char>| trim_ws(o),
            ),
        decreases parts.len() - i,
    {
        assert(pv[i as int] == parts@[i as int]@);
        let o = from_chars(trim_whitespace(parts[i].as_slice()).as_slice());
        let ghost o0 = out@.map_values(|s: String| s@);
        let ghost ov = o@;
        out.push(o);
        assert(out@.map_values(|s: String| s@) =~= o0.push(ov));
        assert(pv.take(i + 1).map_values(|o: Seq<char>| trim_ws(o)) =~= pv.take(i as int).map_values(
            |o: Seq<char>| trim_ws(o),
        ).push(trim_ws(pv[i as int])));
        i = i + 1;
    }
    assert(pv.take(pv.len() as int) == pv);
    Some(out)
}

/// ASCII case-insensitive equality (`str::eq_ignore_ascii_case`).
pub open spec fn ascii_lower_char(c: char) -> char {
    if 'A' <= c && c <= 'Z' {
        ((c as int) + 32) as char
    } else {
        c
    }
}

pub open spec fn eq_ignore_ascii_case(a: Seq<char>, b: Seq<char>) -> bool {
    a.len() == b.len() && forall|i: int| 0 <= i < a.len() ==> ascii_lower_char(#[trigger] a[i])
        == ascii_lower_char(b[i])
}

/// Whether a request came over HTTPS: as the `X-Forwarded-Proto` header
/// says when there is one (ignoring ASCII case), else as the configured
/// base URL says.
pub open spec fn secure_request(forwarded_proto: Option<Seq<char>>, base_url: Seq<char>) -> bool {
    match forwarded_proto {
        Some(v) => eq_ignore_ascii_case(v, "https"@),
        None => "https"@.len() <= base_url.len() && base_url.take("https"@.len() as int)
            == "https"@,
    }
}

fn lower_exec(c: char) -> (r: char)
    ensures
        r == ascii_lower_char(c),
{
    if 'A' <= c && c <= 'Z' {
        ((c as u8) + 32) as char
    } else {
        c
    }
}

pub fn is_secure_request(forwarded_proto: Option<&str>, base_url: &str) -> (r: bool)
    ensures
        r == secure_request(
            match forwarded_proto {
                Some(v) => Some(v@),
                None => None,
            },
            base_url@,
        ),
{
    let https = to_chars("https");
    match forwarded_proto {
        Some(v) => {
            let a = to_chars(v);
            if a.len() != https.len() {
                return false;
            }
            let mut i: usize = 0;
            while i < a.len()
                invariant
                    i <= a@.len(),
                    a@.len() == https@.len(),
                    forwarded_proto == Some(v),
                    a@ == v@,
                    https@ == "https"@,
                    forall|k: int| 0 <= k < i ==> ascii_lower_char(#[trigger] a@[k])
                        == ascii_lower_char(https@[k]),
                decreases a.len() - i,
            {
                if lower_exec(a[i]) != lower_exec(https[i]) {
                    assert(!(ascii_lower_char(a@[i as int]) == ascii_lower_char(https@[i as int])));
                    assert(!eq_ignore_ascii_case(a@, https@));
                    return false;
                }
                i = i + 1;
            }
            true
        },
        None => {
            let b = to_chars(base_url);
            if https.len() > b.len() {
                return false;
            }
            let head = slice_chars(b.as_slice(), 0, https.len());
            assert(b@.subrange(0, https@.len() as int) == b@.take(https@.len() as int));
            chars_eq(head.as_slice(), https.as_slice())
        },
    }
}

} // verus!
