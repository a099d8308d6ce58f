//! Character and string helpers shared by the rest of the library.

use vstd::prelude::*;

verus! {

broadcast use {vstd::string::group_string_axioms, crate::lemmas::lemma_chars_deep_view};

/// `String::push` appends one character.
pub assume_specification[ String::push ](s: &mut String, ch: char)
    ensures
        final(s)@ == old(s)@.push(ch),
;

/// The characters of a string slice, collected into a vector.
pub fn to_chars(s: &str) -> (v: Vec<char>)
    ensures
        v@ == s@,
{
    let mut v: Vec<char> = Vec::new();
    for c in it: s.chars()
        invariant
            v@ == it.seq().take(it.index() as int),
    {
        v.push(c);
    }
    v
}

/// A string holding exactly the given characters.
pub fn from_chars(v: &[char]) -> (s: String)
    ensures
        s@ == v@,
{
    let mut s = String::new();
    let mut i: usize = 0;
    while i < v.len()
        invariant
            i <= v.len(),
            s@ == v@.take(i as int),
        decreases v.len() - i,
    {
        s.push(v[i]);
        i = i + 1;
        assert(v@.take(i as int) == v@.take((i - 1) as int).push(v@[i - 1]));
    }
    assert(v@.take(v.len() as int) == v@);
    s
}

/// A fresh copy of a string.
pub fn copy(s: &str) -> (r: String)
    ensures
        r@ == s@,
{
    from_chars(to_chars(s).as_slice())
}


// ---------------------------------------------------------------------
// ASCII classes (whole behaviour is a comparison of code points)
// ---------------------------------------------------------------------

pub open spec fn is_ascii_digit(c: char) -> bool {
    0x30 <= (c as u32) <= 0x39
}

pub open spec fn is_ascii_lower(c: char) -> bool {
    0x61 <= (c as u32) <= 0x7A
}

pub open spec fn is_ascii_upper(c: char) -> bool {
    0x41 <= (c as u32) <= 0x5A
}

pub open spec fn is_ascii_alnum(c: char) -> bool {
    is_ascii_digit(c) || is_ascii_lower(c) || is_ascii_upper(c)
}

/// The characters that Unicode's `White_Space` property holds inside ASCII.
pub open spec fn is_ascii_white_space(c: char) -> bool {
    (c as u32) == 0x20 || (0x09 <= (c as u32) <= 0x0D)
}

pub fn ascii_digit(c: char) -> (r: bool)
    ensures
        r == is_ascii_digit(c),
{
    0x30 <= (c as u32) && (c as u32) <= 0x39
}

pub fn ascii_lower(c: char) -> (r: bool)
    ensures
        r == is_ascii_lower(c),
{
    0x61 <= (c as u32) && (c as u32) <= 0x7A
}

// ---------------------------------------------------------------------
// Unicode classes and case mapping, decided by std
// ---------------------------------------------------------------------

/// Whether a character has Unicode's `Alphabetic` or `Numeric` property.
pub uninterp spec fn unicode_alphanumeric(c: char) -> bool;

/// Whether a character has Unicode's `White_Space` property.
pub uninterp spec fn unicode_whitespace(c: char) -> bool;

/// The full Unicode lowercase mapping of a string.
pub uninterp spec fn unicode_lowercase(s: Seq<char>) -> Seq<char>;

/// The full Unicode uppercase mapping of a string.
pub uninterp spec fn unicode_uppercase(s: Seq<char>) -> Seq<char>;

/// Calls `char::is_alphanumeric` (Unicode `Alphabetic` or `Numeric`).
/// Claimed: the result is `unicode_alphanumeric(c)`, and on an ASCII
/// character it is the ASCII letter-or-digit test. Nothing is claimed of
/// other characters.
#[verifier::external_body]
pub(crate) fn char_is_alphanumeric(c: char) -> (r: bool)
    ensures
        r == unicode_alphanumeric(c),
        (c as u32) < 0x80 ==> (r == is_ascii_alnum(c)),
{
    c.is_alphanumeric()
}

/// Calls `char::is_whitespace` (Unicode `White_Space`).
/// Claimed: the result is `unicode_whitespace(c)`, and on an ASCII
/// character it holds exactly for space and U+0009..=U+000D. Nothing is
/// claimed of other characters.
#[verifier::external_body]
pub(crate) fn char_is_whitespace(c: char) -> (r: bool)
    ensures
        r == unicode_whitespace(c),
        (c as u32) < 0x80 ==> (r == is_ascii_white_space(c)),
{
    c.is_whitespace()
}

/// Every character is ASCII.
pub open spec fn all_ascii(s: Seq<char>) -> bool {
    forall|i: int| 0 <= i < s.len() ==> (#[trigger] s[i] as u32) < 0x80
}

/// `A`..=`Z` mapped to `a`..=`z`, every other character kept.
pub open spec fn ascii_lowered(c: char) -> char {
    if is_ascii_upper(c) {
        ((c as u32) + 32) as char
    } else {
        c
    }
}

/// `a`..=`z` mapped to `A`..=`Z`, every other character kept.
pub open spec fn ascii_uppered(c: char) -> char {
    if is_ascii_lower(c) {
        ((c as u32) - 32) as char
    } else {
        c
    }
}

/// Calls `str::to_lowercase`. Claimed: the result is the value that
/// `unicode_lowercase` names for the argument, and on all-ASCII text it is
/// the text with `A`..=`Z` lowered (Unicode's lowercase mapping of the
/// ASCII letters; other ASCII characters have none).
#[verifier::external_body]
pub(crate) fn to_lowercase(s: &str) -> (r: String)
    ensures
        r@ == unicode_lowercase(s@),
        all_ascii(s@) ==> r@ == s@.map_values(|c: char| ascii_lowered(c)),
{
    s.to_lowercase()
}

/// Calls `str::to_uppercase`. Claimed: the result is the value that
/// `unicode_uppercase` names for the argument, and on all-ASCII text it is
/// the text with `a`..=`z` raised (Unicode's uppercase mapping of the ASCII
/// letters; other ASCII characters have none).
#[verifier::external_body]
pub(crate) fn to_uppercase(s: &str) -> (r: String)
    ensures
        r@ == unicode_uppercase(s@),
        all_ascii(s@) ==> r@ == s@.map_values(|c: char| ascii_uppered(c)),
{
    s.to_uppercase()
}

// ---------------------------------------------------------------------
// Sequences of characters
// ---------------------------------------------------------------------

/// A copy of `v[a..b]`.
pub fn slice_chars(v: &[char], a: usize, b: usize) -> (r: Vec<char>)
    requires
        a <= b <= v@.len(),
    ensures
        r@ == v@.subrange(a as int, b as int),
{
    let mut r: Vec<char> = Vec::new();
    let mut i = a;
    while i < b
        invariant
            a <= i <= b <= v@.len(),
            r@ == v@.subrange(a as int, i as int),
        decreases b - i,
    {
        r.push(v[i]);
        i = i + 1;
        assert(v@.subrange(a as int, i as int) == v@.subrange(a as int, (i - 1) as int).push(v@[i - 1]));
    }
    r
}

/// `s` followed by `t`.
pub fn concat_chars(s: &[char], t: &[char]) -> (r: Vec<char>)
    ensures
        r@ == s@ + t@,
{
    let mut r = slice_chars(s, 0, s.len());
    assert(s@.subrange(0, s@.len() as int) == s@);
    let mut i: usize = 0;
    while i < t.len()
        invariant
            i <= t.len(),
            r@ == s@ + t@.take(i as int),
        decreases t.len() - i,
    {
        r.push(t[i]);
        i = i + 1;
        assert(t@.take(i as int) == t@.take((i - 1) as int).push(t@[i - 1]));
    }
    assert(t@.take(t.len() as int) == t@);
    r
}

/// Whether two character sequences are equal.
pub fn chars_eq(s: &[char], t: &[char]) -> (r: bool)
    ensures
        r == (s@ == t@),
{
    if s.len() != t.len() {
        return false;
    }
    let mut i: usize = 0;
    while i < s.len()
        invariant
            i <= s.len() == t.len(),
            s@.take(i as int) == t@.take(i as int),
        decreases s.len() - i,
    {
        if s[i] != t[i] {
            assert(s@[i as int] != t@[i as int]);
            return false;
        }
        i = i + 1;
        assert(s@.take(i as int) == s@.take((i - 1) as int).push(s@[i - 1]));
        assert(t@.take(i as int) == t@.take((i - 1) as int).push(t@[i - 1]));
    }
    assert(s@ == s@.take(s.len() as int));
    assert(t@ == t@.take(t.len() as int));
    true
}

/// Whether `c` occurs in `set`.
pub fn char_in(c: char, set: &[char]) -> (r: bool)
    ensures
        r == set@.contains(c),
{
    let mut i: usize = 0;
    while i < set.len()
        invariant
            i <= set.len(),
            forall|k: int| 0 <= k < i ==> set@[k] != c,
        decreases set.len() - i,
    {
        if set[i] == c {
            return true;
        }
        i = i + 1;
    }
    false
}

// ---------------------------------------------------------------------
// Splitting, joining and trimming
// ---------------------------------------------------------------------

/// `s` cut at every character of `seps`, as `str::split` with a set of
/// separator characters does: `k` separators give `k + 1` pieces, empty
/// pieces included.
pub open spec fn split_on(s: Seq<char>, seps: Seq<char>) -> Seq<Seq<char>>
    decreases s.len(),
{
    if s.len() == 0 {
        seq![Seq::<char>::empty()]
    } else {
        let init = split_on(s.drop_last(), seps);
        if seps.contains(s.last()) {
            init.push(Seq::<char>::empty())
        } else {
            init.update(init.len() - 1, init.last().push(s.last()))
        }
    }
}

pub proof fn lemma_split_on_nonempty(s: Seq<char>, seps: Seq<char>)
    ensures
        split_on(s, seps).len() >= 1,
    decreases s.len(),
{
    if s.len() > 0 {
        lemma_split_on_nonempty(s.drop_last(), seps);
    }
}

/// A sequence holding none of the given characters.
pub open spec fn free_of(s: Seq<char>, set: Seq<char>) -> bool {
    forall|i: int| 0 <= i < s.len() ==> !set.contains(#[trigger] s[i])
}

/// Every piece of a split is free of the separators.
pub proof fn lemma_split_pieces_free(s: Seq<char>, seps: Seq<char>)
    ensures
        forall|i: int| 0 <= i < split_on(s, seps).len() ==> free_of(#[trigger] split_on(s, seps)[i], seps),
    decreases s.len(),
{
    if s.len() > 0 {
        lemma_split_pieces_free(s.drop_last(), seps);
        lemma_split_on_nonempty(s.drop_last(), seps);
        let init = split_on(s.drop_last(), seps);
        if !seps.contains(s.last()) {
            let last = init.last().push(s.last());
            assert(free_of(init.last(), seps));
            assert forall|k: int| 0 <= k < last.len() implies !seps.contains(#[trigger] last[k]) by {
                if k < last.len() - 1 {
                    assert(last[k] == init.last()[k]);
                }
            }
            assert(free_of(last, seps));
        } else {
            assert(free_of(Seq::<char>::empty(), seps));
        }
        let r = split_on(s, seps);
        assert forall|i: int| 0 <= i < r.len() implies free_of(#[trigger] r[i], seps) by {
            if i < init.len() - 1 {
                assert(r[i] == init[i]);
            }
        }
    }
}

/// Splitting text with no separator gives the text itself.
pub proof fn lemma_split_free(y: Seq<char>, seps: Seq<char>)
    requires
        free_of(y, seps),
    ensures
        split_on(y, seps) == seq![y],
    decreases y.len(),
{
    if y.len() > 0 {
        assert(free_of(y.drop_last(), seps)) by {
            assert forall|i: int| 0 <= i < y.drop_last().len() implies !seps.contains(
                #[trigger] y.drop_last()[i],
            ) by {
                assert(y.drop_last()[i] == y[i]);
            }
        }
        lemma_split_free(y.drop_last(), seps);
        assert(!seps.contains(y[y.len() - 1]));
        assert(y.drop_last().push(y.last()) =~= y);
        assert(split_on(y, seps) =~= seq![y]);
    } else {
        assert(y =~= Seq::<char>::empty());
    }
}

/// Splitting `a`, a separator and separator-free `y` gives the pieces of
/// `a` followed by `y`.
pub proof fn lemma_split_append(a: Seq<char>, sep: char, y: Seq<char>, seps: Seq<char>)
    requires
        seps.contains(sep),
        free_of(y, seps),
    ensures
        split_on(a + seq![sep] + y, seps) == split_on(a, seps).push(y),
    decreases y.len(),
{
    if y.len() == 0 {
        let s = a + seq![sep] + y;
        assert(s =~= a.push(sep));
        assert(s.drop_last() =~= a);
        assert(s.last() == sep);
        assert(y =~= Seq::<char>::empty());
    } else {
        let s = a + seq![sep] + y;
        assert(s.drop_last() =~= a + seq![sep] + y.drop_last());
        assert(free_of(y.drop_last(), seps)) by {
            assert forall|i: int| 0 <= i < y.drop_last().len() implies !seps.contains(
                #[trigger] y.drop_last()[i],
            ) by {
                assert(y.drop_last()[i] == y[i]);
            }
        }
        lemma_split_append(a, sep, y.drop_last(), seps);
        assert(s.last() == y.last());
        assert(!seps.contains(y[y.len() - 1]));
        assert(y.drop_last().push(y.last()) =~= y);
        assert(split_on(s, seps) =~= split_on(a, seps).push(y));
    }
}

/// Joining separator-free parts with a separator and splitting again gives
/// the parts back.
pub proof fn lemma_split_join(parts: Seq<Seq<char>>, sep: char, seps: Seq<char>)
    requires
        parts.len() >= 1,
        seps.contains(sep),
        forall|i: int| 0 <= i < parts.len() ==> free_of(#[trigger] parts[i], seps),
    ensures
        split_on(join_with(parts, seq![sep]), seps) == parts,
    decreases parts.len(),
{
    if parts.len() == 1 {
        lemma_split_free(parts[0], seps);
        assert(parts =~= seq![parts[0]]);
    } else {
        let init = parts.drop_last();
        assert forall|i: int| 0 <= i < init.len() implies free_of(#[trigger] init[i], seps) by {
            assert(init[i] == parts[i]);
        }
        lemma_split_join(init, sep, seps);
        assert(free_of(parts[parts.len() - 1], seps));
        lemma_split_append(join_with(init, seq![sep]), sep, parts.last(), seps);
        assert(init.push(parts.last()) =~= parts);
    }
}

/// The pieces of `s` between separators.
pub fn split_chars(s: &[char], seps: &[char]) -> (r: Vec<Vec<char>>)
    ensures
        r.deep_view() == split_on(s@, seps@),
{
    let mut done: Vec<Vec<char>> = Vec::new();
    let mut cur: Vec<char> = Vec::new();
    let mut i: usize = 0;
    while i < s.len()
        invariant
            i <= s.len(),
            done.deep_view().push(cur@) == split_on(s@.take(i as int), seps@),
        decreases s.len() - i,
    {
        let c = s[i];
        let ghost before = s@.take(i as int);
        proof {
            assert(s@.take(i + 1).drop_last() == before);
            assert(s@.take(i + 1).last() == c);
            lemma_split_on_nonempty(before, seps@);
        }
        if char_in(c, seps) {
            let ghost dv = done.deep_view();
            let old_cur = cur;
            cur = Vec::new();
            done.push(old_cur);
            assert(done.deep_view() =~= dv.push(old_cur@));
            assert(done.deep_view().push(cur@) =~= split_on(s@.take(i + 1), seps@));
        } else {
            cur.push(c);
            assert(done.deep_view().push(cur@) =~= split_on(s@.take(i + 1), seps@));
        }
        i = i + 1;
    }
    let ghost dv = done.deep_view();
    let ghost last = cur@;
    done.push(cur);
    assert(done.deep_view() =~= dv.push(last));
    assert(s@.take(s.len() as int) == s@);
    done
}

/// The parts joined with `sep` between consecutive ones.
pub open spec fn join_with(parts: Seq<Seq<char>>, sep: Seq<char>) -> Seq<char>
    decreases parts.len(),
{
    if parts.len() == 0 {
        Seq::<char>::empty()
    } else if parts.len() == 1 {
        parts[0]
    } else {
        join_with(parts.drop_last(), sep) + sep + parts.last()
    }
}

/// A join starts with the first part.
pub proof fn lemma_join_head(parts: Seq<Seq<char>>, sep: Seq<char>)
    requires
        parts.len() >= 1,
        parts[0].len() > 0,
    ensures
        join_with(parts, sep).len() >= parts[0].len(),
        join_with(parts, sep)[0] == parts[0][0],
    decreases parts.len(),
{
    if parts.len() > 1 {
        lemma_join_head(parts.drop_last(), sep);
        assert(parts.drop_last()[0] == parts[0]);
    }
}

pub fn join_chars(parts: &Vec<Vec<char>>, sep: &[char]) -> (r: Vec<char>)
    ensures
        r@ == join_with(parts.deep_view(), sep@),
{
    let mut r: Vec<char> = Vec::new();
    let mut i: usize = 0;
    while i < parts.len()
        invariant
            i <= parts.len(),
            r@ == join_with(parts.deep_view().take(i as int), sep@),
        decreases parts.len() - i,
    {
        let ghost pv = parts.deep_view();
        proof {
            assert(pv.take(i + 1).drop_last() == pv.take(i as int));
            assert(pv.take(i + 1).last() == parts[i as int]@);
        }
        if i == 0 {
            r = slice_chars(&parts[i], 0, parts[i].len());
            assert(parts[i as int]@.subrange(0, parts[i as int]@.len() as int) == parts[i as int]@);
        } else {
            let with_sep = concat_chars(&r, sep);
            r = concat_chars(&with_sep, &parts[i]);
        }
        i = i + 1;
    }
    assert(parts.deep_view().take(parts.len() as int) == parts.deep_view());
    r
}

/// `s` with leading characters of `set` removed.
pub open spec fn trim_start_on(s: Seq<char>, set: Seq<char>) -> Seq<char>
    decreases s.len(),
{
    if s.len() > 0 && set.contains(s[0]) {
        trim_start_on(s.drop_first(), set)
    } else {
        s
    }
}

/// `s` with trailing characters of `set` removed.
pub open spec fn trim_end_on(s: Seq<char>, set: Seq<char>) -> Seq<char>
    decreases s.len(),
{
    if s.len() > 0 && set.contains(s.last()) {
        trim_end_on(s.drop_last(), set)
    } else {
        s
    }
}

/// `s` with leading and trailing characters of `set` removed,
/// as `str::trim_matches` with a character set does.
pub open spec fn trim_on(s: Seq<char>, set: Seq<char>) -> Seq<char> {
    trim_end_on(trim_start_on(s, set), set)
}

/// `s` with leading Unicode white space removed.
pub open spec fn trim_start_ws(s: Seq<char>) -> Seq<char>
    decreases s.len(),
{
    if s.len() > 0 && unicode_whitespace(s[0]) {
        trim_start_ws(s.drop_first())
    } else {
        s
    }
}

/// `s` with trailing Unicode white space removed.
pub open spec fn trim_end_ws(s: Seq<char>) -> Seq<char>
    decreases s.len(),
{
    if s.len() > 0 && unicode_whitespace(s.last()) {
        trim_end_ws(s.drop_last())
    } else {
        s
    }
}

/// `s` with leading and trailing Unicode white space removed, as `str::trim`.
pub open spec fn trim_ws(s: Seq<char>) -> Seq<char> {
    trim_end_ws(trim_start_ws(s))
}

/// Removing leading characters keeps a suffix whose first character (if
/// any) is outside the set.
pub proof fn lemma_trim_start_on(s: Seq<char>, set: Seq<char>)
    ensures
        trim_start_on(s, set).len() <= s.len(),
        trim_start_on(s, set) == s.skip(s.len() - trim_start_on(s, set).len()),
        trim_start_on(s, set).len() > 0 ==> !set.contains(trim_start_on(s, set)[0]),
    decreases s.len(),
{
    if s.len() > 0 && set.contains(s[0]) {
        lemma_trim_start_on(s.drop_first(), set);
        let t = trim_start_on(s.drop_first(), set);
        assert(s.drop_first().skip(s.drop_first().len() - t.len()) =~= s.skip(s.len() - t.len()));
    } else {
        assert(s.skip(0) =~= s);
    }
}

/// Removing trailing characters keeps a prefix.
pub proof fn lemma_trim_end_on(s: Seq<char>, set: Seq<char>)
    ensures
        trim_end_on(s, set).len() <= s.len(),
        trim_end_on(s, set) == s.take(trim_end_on(s, set).len() as int),
    decreases s.len(),
{
    if s.len() > 0 && set.contains(s.last()) {
        lemma_trim_end_on(s.drop_last(), set);
        let t = trim_end_on(s.drop_last(), set);
        assert(s.drop_last().take(t.len() as int) =~= s.take(t.len() as int));
    } else {
        assert(s.take(s.len() as int) =~= s);
    }
}

pub fn trim_chars_on(s: &[char], set: &[char]) -> (r: Vec<char>)
    ensures
        r@ == trim_on(s@, set@),
{
    let mut a: usize = 0;
    assert(s@.skip(0) == s@);
    while a < s.len() && char_in(s[a], set)
        invariant
            a <= s.len(),
            trim_start_on(s@, set@) == trim_start_on(s@.skip(a as int), set@),
        decreases s.len() - a,
    {
        assert(s@.skip(a as int).drop_first() == s@.skip(a + 1));
        a = a + 1;
    }
    let mut b: usize = s.len();
    assert(s@.skip(a as int) == s@.subrange(a as int, b as int));
    while b > a && char_in(s[b - 1], set)
        invariant
            a <= b <= s.len(),
            trim_start_on(s@, set@) == s@.skip(a as int),
            trim_on(s@, set@) == trim_end_on(s@.subrange(a as int, b as int), set@),
        decreases b - a,
    {
        assert(s@.subrange(a as int, b as int).drop_last() == s@.subrange(a as int, b - 1));
        b = b - 1;
    }
    slice_chars(s, a, b)
}

pub fn trim_whitespace(s: &[char]) -> (r: Vec<char>)
    ensures
        r@ == trim_ws(s@),
{
    let mut a: usize = 0;
    assert(s@.skip(0) == s@);
    while a < s.len() && char_is_whitespace(s[a])
        invariant
            a <= s.len(),
            trim_start_ws(s@) == trim_start_ws(s@.skip(a as int)),
        decreases s.len() - a,
    {
        assert(s@.skip(a as int).drop_first() == s@.skip(a + 1));
        a = a + 1;
    }
    let mut b: usize = s.len();
    assert(s@.skip(a as int) == s@.subrange(a as int, b as int));
    while b > a && char_is_whitespace(s[b - 1])
        invariant
            a <= b <= s.len(),
            trim_start_ws(s@) == s@.skip(a as int),
            trim_ws(s@) == trim_end_ws(s@.subrange(a as int, b as int)),
        decreases b - a,
    {
        assert(s@.subrange(a as int, b as int).drop_last() == s@.subrange(a as int, b - 1));
        b = b - 1;
    }
    slice_chars(s, a, b)
}

} // verus!
