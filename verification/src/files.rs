//! The listing of the upload directory: one entry per file or directory,
//! directories first and then by name, with sizes and file counts.

use vstd::prelude::*;
use vstd::multiset::Multiset;
use crate::size_format::{format_file_size, formatted_size};
use crate::text::{concat_chars, from_chars, to_chars};
use crate::upload::checked_extension;

verus! {

broadcast use crate::lemmas::lemma_chars_deep_view;

/// One entry of the listing. The modification time is kept as seconds
/// and nanoseconds since the Unix epoch.
pub enum FileItem {
    File {
        name: String,
        path: String,
        size: u64,
        formatted_size: String,
        upload_secs: i64,
        upload_nanos: u32,
        extension: String,
    },
    Directory {
        name: String,
        path: String,
        size: u64,
        formatted_size: String,
        upload_secs: i64,
        upload_nanos: u32,
        children: Vec<FileItem>,
    },
}

pub open spec fn item_name(i: FileItem) -> Seq<char> {
    match i {
        FileItem::File { name, .. } => name@,
        FileItem::Directory { name, .. } => name@,
    }
}

pub open spec fn item_size(i: FileItem) -> u64 {
    match i {
        FileItem::File { size, .. } => size,
        FileItem::Directory { size, .. } => size,
    }
}

/// Directories sort before files.
pub open spec fn item_rank(i: FileItem) -> int {
    match i {
        FileItem::Directory { .. } => 0,
        FileItem::File { .. } => 1,
    }
}

/// The sum of the sizes of the entries (not of their children).
pub open spec fn total_size(s: Seq<FileItem>) -> nat
    decreases s.len(),
{
    if s.len() == 0 {
        0
    } else {
        total_size(s.drop_last()) + item_size(s.last()) as nat
    }
}

/// The number of files in an entry: one for a file, those below it for a
/// directory.
pub open spec fn item_file_count(i: FileItem) -> nat
    decreases i, 1int,
{
    match i {
        FileItem::File { .. } => 1,
        FileItem::Directory { children, .. } => items_file_count(children@),
    }
}

/// The number of files in and below the entries.
pub open spec fn items_file_count(s: Seq<FileItem>) -> nat
    decreases s, 0int,
{
    if s.len() == 0 {
        0
    } else {
        items_file_count(s.subrange(0, s.len() - 1)) + item_file_count(s[s.len() - 1])
    }
}

/// The sum of the sizes of the entries.
pub fn calculate_total_size(items: &[FileItem]) -> (r: u64)
    requires
        total_size(items@) <= u64::MAX,
    ensures
        r == total_size(items@),
{
    let mut sum: u64 = 0;
    let mut i: usize = 0;
    while i < items.len()
        invariant
            i <= items@.len(),
            total_size(items@) <= u64::MAX,
            sum == total_size(items@.take(i as int)),
        decreases items.len() - i,
    {
        assert(items@.take(i as int + 1).drop_last() == items@.take(i as int));
        proof {
            lemma_total_size_prefix(items@, i as int + 1);
        }
        let s = match &items[i] {
            FileItem::File { size, .. } => *size,
            FileItem::Directory { size, .. } => *size,
        };
        sum = sum + s;
        i = i + 1;
    }
    assert(items@.take(items@.len() as int) == items@);
    sum
}

/// The sum of the sizes of the entries, or `None` when it does not fit in
/// 64 bits.
pub fn checked_total_size(items: &[FileItem]) -> (r: Option<u64>)
    ensures
        r is Some <==> total_size(items@) <= u64::MAX,
        r matches Some(t) ==> t == total_size(items@),
{
    let mut sum: u64 = 0;
    let mut i: usize = 0;
    while i < items.len()
        invariant
            i <= items@.len(),
            sum == total_size(items@.take(i as int)),
        decreases items.len() - i,
    {
        assert(items@.take(i as int + 1).drop_last() == items@.take(i as int));
        let s = match &items[i] {
            FileItem::File { size, .. } => *size,
            FileItem::Directory { size, .. } => *size,
        };
        if s > u64::MAX - sum {
            proof {
                lemma_total_size_prefix(items@, i as int + 1);
            }
            return None;
        }
        sum = sum + s;
        i = i + 1;
    }
    assert(items@.take(items@.len() as int) == items@);
    Some(sum)
}

/// The total of a prefix is at most the total.
pub proof fn lemma_total_size_prefix(s: Seq<FileItem>, n: int)
    requires
        0 <= n <= s.len(),
    ensures
        total_size(s.take(n)) <= total_size(s),
    decreases s.len(),
{
    if n < s.len() {
        assert(s.drop_last().take(n) == s.take(n));
        lemma_total_size_prefix(s.drop_last(), n);
    } else {
        assert(s.take(n) == s);
    }
}

/// The file count of a prefix is at most the file count.
pub proof fn lemma_file_count_prefix(s: Seq<FileItem>, n: int)
    requires
        0 <= n <= s.len(),
    ensures
        items_file_count(s.take(n)) <= items_file_count(s),
    decreases s.len(),
{
    if n < s.len() {
        assert(s.subrange(0, s.len() - 1).take(n) == s.take(n));
        lemma_file_count_prefix(s.subrange(0, s.len() - 1), n);
    } else {
        assert(s.take(n) == s);
    }
}

/// The number of files in and below the entries, or `None` when it does
/// not fit in 64 bits.
pub fn checked_count_files(items: &[FileItem]) -> (r: Option<u64>)
    ensures
        r is Some <==> items_file_count(items@) <= u64::MAX,
        r matches Some(n) ==> n == items_file_count(items@),
    decreases items@,
{
    let mut sum: u64 = 0;
    let mut i: usize = 0;
    while i < items.len()
        invariant
            i <= items@.len(),
            sum == items_file_count(items@.take(i as int)),
        decreases items.len() - i,
    {
        let ghost t = items@.take(i as int + 1);
        assert(t.subrange(0, t.len() - 1) == items@.take(i as int));
        assert(t[t.len() - 1] == items@[i as int]);
        assert(items_file_count(t) == sum + item_file_count(items@[i as int]));
        let c: Option<u64> = match &items[i] {
            FileItem::File { .. } => Some(1),
            FileItem::Directory { children, .. } => {
                assert(decreases_to!(items@ => items@[i as int]));
                assert(item_file_count(items@[i as int]) == items_file_count(children@));
                checked_count_files(children.as_slice())
            },
        };
        match c {
            None => {
                proof {
                    lemma_file_count_prefix(items@, i as int + 1);
                }
                return None;
            },
            Some(c) => {
                if c > u64::MAX - sum {
                    proof {
                        lemma_file_count_prefix(items@, i as int + 1);
                    }
                    return None;
                }
                sum = sum + c;
            },
        }
        i = i + 1;
    }
    assert(items@.take(items@.len() as int) == items@);
    Some(sum)
}

/// The number of files in and below the entries.
pub fn count_files(items: &[FileItem]) -> (r: u64)
    requires
        items_file_count(items@) <= u64::MAX,
    ensures
        r == items_file_count(items@),
    decreases items@,
{
    let mut sum: u64 = 0;
    let mut i: usize = 0;
    while i < items.len()
        invariant
            i <= items@.len(),
            items_file_count(items@) <= u64::MAX,
            sum == items_file_count(items@.take(i as int)),
        decreases items.len() - i,
    {
        let ghost t = items@.take(i as int + 1);
        assert(t.subrange(0, t.len() - 1) == items@.take(i as int));
        assert(t[t.len() - 1] == items@[i as int]);
        proof {
            lemma_file_count_prefix(items@, i as int + 1);
        }
        assert(items_file_count(t) == sum + item_file_count(items@[i as int]));
        let c: u64 = match &items[i] {
            FileItem::File { .. } => 1,
            FileItem::Directory { children, .. } => {
                assert(decreases_to!(items@ => items@[i as int]));
                assert(item_file_count(items@[i as int]) == items_file_count(children@));
                count_files(children.as_slice())
            },
        };
        assert(c == item_file_count(items@[i as int]));
        sum = sum + c;
        i = i + 1;
    }
    assert(items@.take(items@.len() as int) == items@);
    sum
}

// ---------------------------------------------------------------------
// Order of the listing
// ---------------------------------------------------------------------

/// Lexicographic order of character sequences by code point (which is the
/// byte order of their UTF-8 encodings, the order of `String`).
pub open spec fn chars_le(a: Seq<char>, b: Seq<char>) -> bool
    decreases a.len(),
{
    if a.len() == 0 {
        true
    } else if b.len() == 0 {
        false
    } else if a[0] < b[0] {
        true
    } else if a[0] > b[0] {
        false
    } else {
        chars_le(a.drop_first(), b.drop_first())
    }
}

/// Any two sequences are ordered one way or the other.
pub proof fn lemma_chars_le_total(a: Seq<char>, b: Seq<char>)
    ensures
        chars_le(a, b) || chars_le(b, a),
    decreases a.len(),
{
    if a.len() > 0 && b.len() > 0 && a[0] == b[0] {
        lemma_chars_le_total(a.drop_first(), b.drop_first());
    }
}

/// The order is transitive.
pub proof fn lemma_chars_le_trans(a: Seq<char>, b: Seq<char>, c: Seq<char>)
    requires
        chars_le(a, b),
        chars_le(b, c),
    ensures
        chars_le(a, c),
    decreases a.len(),
{
    if a.len() > 0 && b.len() > 0 && c.len() > 0 && a[0] == b[0] && b[0] == c[0] {
        lemma_chars_le_trans(a.drop_first(), b.drop_first(), c.drop_first());
    }
}

/// The order is antisymmetric.
pub proof fn lemma_chars_le_antisym(a: Seq<char>, b: Seq<char>)
    requires
        chars_le(a, b),
        chars_le(b, a),
    ensures
        a == b,
    decreases a.len(),
{
    if a.len() > 0 && b.len() > 0 {
        lemma_chars_le_antisym(a.drop_first(), b.drop_first());
        assert(a == seq![a[0]] + a.drop_first());
        assert(b == seq![b[0]] + b.drop_first());
    }
}

/// `a` may stand before `b` in the listing: a directory before a file, and
/// within each kind by name.
pub open spec fn key_le(a: FileItem, b: FileItem) -> bool {
    item_rank(a) < item_rank(b) || (item_rank(a) == item_rank(b) && chars_le(
        item_name(a),
        item_name(b),
    ))
}

/// Every entry may stand before those after it.
pub open spec fn sorted_by_key(s: Seq<FileItem>) -> bool {
    forall|i: int, j: int| 0 <= i < j < s.len() ==> key_le(#[trigger] s[i], #[trigger] s[j])
}

pub proof fn lemma_key_le_total(a: FileItem, b: FileItem)
    ensures
        key_le(a, b) || key_le(b, a),
{
    lemma_chars_le_total(item_name(a), item_name(b));
}

pub proof fn lemma_key_le_trans(a: FileItem, b: FileItem, c: FileItem)
    requires
        key_le(a, b),
        key_le(b, c),
    ensures
        key_le(a, c),
{
    if item_rank(a) == item_rank(b) && item_rank(b) == item_rank(c) {
        lemma_chars_le_trans(item_name(a), item_name(b), item_name(c));
    }
}

/// Two entries with the same kind and the same name.
pub open spec fn same_key(a: FileItem, b: FileItem) -> bool {
    item_rank(a) == item_rank(b) && item_name(a) == item_name(b)
}

/// The entries of `s` with the kind and name of `k`, in their order in `s`.
pub open spec fn key_class(s: Seq<FileItem>, k: FileItem) -> Seq<FileItem> {
    s.filter(|y: FileItem| same_key(y, k))
}

/// Inserting `x` in front of entries that must come after it adds it at
/// the end of its class and leaves the other classes as they were.
proof fn lemma_insert_keeps_classes(before: Seq<FileItem>, j: int, x: FileItem, k: FileItem)
    requires
        0 <= j <= before.len(),
        forall|i: int| j <= i < before.len() ==> !key_le(#[trigger] before[i], x),
    ensures
        key_class(before.insert(j, x), k) == if same_key(x, k) {
            key_class(before, k).push(x)
        } else {
            key_class(before, k)
        },
{
    let p = |y: FileItem| same_key(y, k);
    let head = before.take(j);
    let tail = before.skip(j);
    assert(before.insert(j, x) =~= head + (seq![x] + tail));
    assert(before =~= head + tail);
    Seq::filter_distributes_over_add(head, seq![x] + tail, p);
    Seq::filter_distributes_over_add(head, tail, p);
    tail.lemma_filter_prepend(x, p);
    if same_key(x, k) {
        assert forall|i: int| 0 <= i < tail.len() implies !p(#[trigger] tail[i]) by {
            assert(tail[i] == before[j + i]);
            if p(tail[i]) {
                lemma_chars_le_total(item_name(x), item_name(x));
                assert(key_le(tail[i], x));
            }
        }
        assert(tail.all(|y: FileItem| !p(y)));
        tail.lemma_all_neg_filter_empty(p);
        assert(tail.filter(p) =~= Seq::<FileItem>::empty());
        assert(key_class(before.insert(j, x), k) =~= key_class(before, k).push(x));
    } else {
        assert(key_class(before.insert(j, x), k) =~= key_class(before, k));
    }
}

/// `chars_le` on two character slices.
fn chars_le_exec(a: &[char], b: &[char]) -> (r: bool)
    ensures
        r == chars_le(a@, b@),
{
    let mut i: usize = 0;
    assert(a@.skip(0) == a@);
    assert(b@.skip(0) == b@);
    loop
        invariant
            i <= a.len(),
            i <= b.len(),
            chars_le(a@, b@) == chars_le(a@.skip(i as int), b@.skip(i as int)),
        decreases a.len() - i,
    {
        if i == a.len() {
            return true;
        }
        if i == b.len() {
            return false;
        }
        if a[i] < b[i] {
            return true;
        }
        if a[i] > b[i] {
            return false;
        }
        assert(a@.skip(i as int).drop_first() == a@.skip(i as int + 1));
        assert(b@.skip(i as int).drop_first() == b@.skip(i as int + 1));
        i = i + 1;
    }
}

fn name_chars(item: &FileItem) -> (r: Vec<char>)
    ensures
        r@ == item_name(*item),
{
    match item {
        FileItem::File { name, .. } => to_chars(name.as_str()),
        FileItem::Directory { name, .. } => to_chars(name.as_str()),
    }
}

fn rank(item: &FileItem) -> (r: u8)
    ensures
        r == item_rank(*item),
{
    match item {
        FileItem::Directory { .. } => 0,
        FileItem::File { .. } => 1,
    }
}

/// Whether `x` must stand before `e`: `e` may not stand before it.
fn goes_before(x: &FileItem, e: &FileItem) -> (r: bool)
    ensures
        r == !key_le(*e, *x),
{
    let rx = rank(x);
    let re = rank(e);
    if re != rx {
        return rx < re;
    }
    let ne = name_chars(e);
    let nx = name_chars(x);
    !chars_le_exec(ne.as_slice(), nx.as_slice())
}

/// The entries of a directory in listing order: directories first, each
/// kind by name.
pub fn sort_items(items: Vec<FileItem>) -> (r: Vec<FileItem>)
    ensures
        r@.to_multiset() == items@.to_multiset(),
        sorted_by_key(r@),
        forall|k: FileItem| #[trigger] key_class(r@, k) == key_class(items@, k),
{
    broadcast use {vstd::seq_lib::group_to_multiset_ensures, vstd::multiset::group_multiset_axioms};

    let ghost orig = items@;
    let mut rest = items;
    let mut out: Vec<FileItem> = Vec::new();
    proof {
        assert forall|k: FileItem| #[trigger] key_class(orig, k) == key_class(out@, k) + key_class(
            rest@,
            k,
        ) by {
            reveal(Seq::filter);
            assert(key_class(out@, k) =~= Seq::<FileItem>::empty());
            assert(key_class(orig, k) =~= key_class(out@, k) + key_class(rest@, k));
        }
    }
    while rest.len() > 0
        invariant
            out@.to_multiset().add(rest@.to_multiset()) == orig.to_multiset(),
            sorted_by_key(out@),
            forall|k: FileItem| #[trigger] key_class(orig, k) == key_class(out@, k) + key_class(
                rest@,
                k,
            ),
        decreases rest.len(),
    {
        let ghost rest0 = rest@;
        let x = rest.remove(0);
        assert(rest0[0] == x);
        assert(rest@ == rest0.remove(0));
        proof {
            vstd::seq_lib::to_multiset_remove(rest0, 0);
            assert(rest0.contains(x));
            vstd::seq_lib::to_multiset_contains(rest0, x);
        }
        assert(rest0.to_multiset().count(x) > 0);
        let mut j = out.len();
        while j > 0 && goes_before(&x, &out[j - 1])
            invariant
                j <= out@.len(),
                forall|k: int| j <= k < out@.len() ==> !key_le(#[trigger] out@[k], x),
            decreases j,
        {
            j = j - 1;
        }
        let ghost before = out@;
        proof {
            assert forall|k: int| 0 <= k < j implies key_le(#[trigger] before[k], x) by {
                lemma_key_le_total(before[j - 1], x);
                if k < j - 1 {
                    lemma_key_le_trans(before[k], before[j - 1], x);
                }
            }
            assert forall|k: int| j <= k < before.len() implies key_le(x, #[trigger] before[k]) by {
                lemma_key_le_total(before[k], x);
            }
        }
        out.insert(j, x);
        proof {
            let now = out@;
            assert(now == before.insert(j as int, x));
            assert forall|a: int, b: int| 0 <= a < b < now.len() implies key_le(
                #[trigger] now[a],
                #[trigger] now[b],
            ) by {
                if a < j && b > j {
                    lemma_key_le_trans(before[a], x, before[b - 1]);
                }
            }
            vstd::seq_lib::to_multiset_insert(before, j as int, x);
            assert(out@.to_multiset() == before.to_multiset().insert(x));
            assert(out@.to_multiset().add(rest@.to_multiset()) =~= orig.to_multiset());
            assert(rest0 =~= seq![x] + rest@);
            assert forall|k: FileItem| #[trigger] key_class(orig, k) == key_class(out@, k)
                + key_class(rest@, k) by {
                lemma_insert_keeps_classes(before, j as int, x, k);
                rest@.lemma_filter_prepend(x, |y: FileItem| same_key(y, k));
                assert(key_class(orig, k) == key_class(before, k) + key_class(rest0, k));
                if same_key(x, k) {
                    assert(key_class(before, k) + key_class(rest0, k) =~= key_class(before, k).push(x)
                        + key_class(rest@, k));
                } else {
                    assert(key_class(before, k) + key_class(rest0, k) =~= key_class(before, k)
                        + key_class(rest@, k));
                }
            }
        }
    }
    proof {
        vstd::seq_lib::to_multiset_len(rest@);
    }
    assert(rest@.to_multiset() =~= Multiset::<FileItem>::empty());
    assert(out@.to_multiset().add(rest@.to_multiset()) =~= out@.to_multiset());
    assert forall|k: FileItem| #[trigger] key_class(out@, k) == key_class(orig, k) by {
        reveal(Seq::filter);
        assert(key_class(rest@, k) =~= Seq::<FileItem>::empty());
        assert(key_class(out@, k) + key_class(rest@, k) =~= key_class(out@, k));
    }
    out
}

// ---------------------------------------------------------------------
// Building the entries
// ---------------------------------------------------------------------

/// Whether a directory entry is shown: names starting with `.` (the
/// `.metadata` directory among them) are hidden.
pub open spec fn listed_name(name: Seq<char>) -> bool {
    !(name.len() > 0 && name[0] == '.')
}

pub fn is_listed_name(name: &str) -> (r: bool)
    ensures
        r == listed_name(name@),
{
    let n = to_chars(name);
    !(n.len() > 0 && n[0] == '.')
}

/// The path of an entry relative to the upload directory:
/// `<parent path>/<name>`, or the name alone at the top.
pub open spec fn child_path(relative: Seq<char>, name: Seq<char>) -> Seq<char> {
    if relative.len() == 0 {
        name
    } else {
        relative + seq!['/'] + name
    }
}

pub fn child_relative_path(relative: &str, name: &str) -> (r: String)
    ensures
        r@ == child_path(relative@, name@),
{
    let rel = to_chars(relative);
    let n = to_chars(name);
    if rel.len() == 0 {
        return from_chars(n.as_slice());
    }
    let sep = vec!['/'];
    let a = concat_chars(rel.as_slice(), sep.as_slice());
    let b = concat_chars(a.as_slice(), n.as_slice());
    from_chars(b.as_slice())
}

/// The entry of a file: its size formatted in the automatic unit and its
/// extension as `.` and the lower-cased extension (or nothing).
pub fn file_entry(name: String, relative: &str, size: u64, upload_secs: i64, upload_nanos: u32) -> (r: FileItem)
    ensures
        r matches FileItem::File { name: n, path: p, size: sz, formatted_size: f, upload_secs: s, upload_nanos: ns, extension: e }
            && n@ == name@ && p@ == child_path(relative@, name@) && sz == size
            && f@ == formatted_size(size as nat, None) && s == upload_secs && ns == upload_nanos
            && e@ == checked_extension(name@),
{
    let path = child_relative_path(relative, name.as_str());
    let formatted = format_file_size(size, None);
    let ext = crate::upload::dotted_lower_extension(name.as_str());
    FileItem::File {
        name,
        path,
        size,
        formatted_size: formatted,
        upload_secs,
        upload_nanos,
        extension: ext,
    }
}

/// The entry of a directory: its size is the sum of its entries' sizes.
pub fn directory_entry(
    name: String,
    relative: &str,
    upload_secs: i64,
    upload_nanos: u32,
    children: Vec<FileItem>,
) -> (r: FileItem)
    requires
        total_size(children@) <= u64::MAX,
    ensures
        r matches FileItem::Directory { name: n, path: p, size: sz, formatted_size: f, upload_secs: s, upload_nanos: ns, children: c }
            && n@ == name@ && p@ == child_path(relative@, name@) && sz == total_size(children@)
            && f@ == formatted_size(total_size(children@), None) && s == upload_secs
            && ns == upload_nanos && c@ == children@,
{
    let path = child_relative_path(relative, name.as_str());
    let size = calculate_total_size(children.as_slice());
    let formatted = format_file_size(size, None);
    FileItem::Directory {
        name,
        path,
        size,
        formatted_size: formatted,
        upload_secs,
        upload_nanos,
        children,
    }
}

/// The totals shown above a listing: the number of files in it and below
/// it, the sum of the entries' sizes, and that sum formatted.
pub fn listing_totals(items: &[FileItem]) -> (r: (u64, u64, String))
    requires
        items_file_count(items@) <= u64::MAX,
        total_size(items@) <= u64::MAX,
    ensures
        r.0 == items_file_count(items@),
        r.1 == total_size(items@),
        r.2@ == formatted_size(total_size(items@), None),
{
    let files = count_files(items);
    let size = calculate_total_size(items);
    (files, size, format_file_size(size, None))
}

} // verus!
