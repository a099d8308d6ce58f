//! Upload sessions: the shared upload state, its periodic cleanup, the
//! metadata record of one upload and the decisions taken when an upload is
//! started and when a chunk arrives.

use vstd::prelude::*;
use crate::security::elapsed_ms;
use crate::str_map::StrMap;
use crate::paths::{
    components, dotdot, has_cur_dir, has_root, lemma_join_stays_within, path_starts_with,
    extension, file_name, file_name_chars, file_stem, normalize_path, normalized, parent,
    parent_chars, path_join, path_join_chars, split_name,
};
use crate::sanitize::{sanitize_path_preserve_dirs_safe, sanitize_path_total, sanitized_upload_path};
use crate::size_format::{decimal, decimal_exec};
use crate::session_id::hex_digits;
use crate::text::{
    join_with, split_chars, split_on,
    chars_eq, concat_chars, from_chars, to_chars, to_lowercase, unicode_lowercase,
};

verus! {

broadcast use crate::lemmas::lemma_chars_deep_view;

/// A batch with no activity for this long (30 minutes) is forgotten.
pub const BATCH_TIMEOUT_MS: u64 = 1_800_000;

/// Shared state of the uploads in progress: which unique folder each
/// `<folder>-<batch id>` was given, and when each batch was last active
/// (milliseconds on the caller's clock).
pub struct UploadState {
    pub folder_mappings: StrMap<String>,
    pub batch_activity: StrMap<u64>,
}

impl UploadState {
    pub open spec fn wf(&self) -> bool {
        self.folder_mappings.wf() && self.batch_activity.wf()
    }

    /// No folder mapping and no batch yet.
    pub fn new() -> (r: Self)
        ensures
            r.wf(),
            r.folder_mappings@ == Map::<Seq<char>, String>::empty(),
            r.batch_activity@ == Map::<Seq<char>, u64>::empty(),
    {
        UploadState { folder_mappings: StrMap::new(), batch_activity: StrMap::new() }
    }
}

/// Whether a batch last active at `last` has timed out at `now`.
pub open spec fn batch_expired(last: u64, now: u64) -> bool {
    elapsed_ms(last, now) >= BATCH_TIMEOUT_MS
}

/// The batches that have timed out at `now`.
pub open spec fn expired_batches(act: Map<Seq<char>, u64>, now: u64) -> Set<Seq<char>> {
    act.dom().filter(|b: Seq<char>| batch_expired(act[b], now))
}

/// Whether a folder-mapping key is `<anything>-<batch>`.
pub open spec fn is_batch_folder_key(key: Seq<char>, batch: Seq<char>) -> bool {
    key.len() >= batch.len() + 1 && key.skip(key.len() - batch.len() - 1) == seq!['-'] + batch
}

/// Whether a folder-mapping key belongs to one of the given batches.
pub open spec fn belongs_to_any(key: Seq<char>, batches: Set<Seq<char>>) -> bool {
    exists|b: Seq<char>| batches.contains(b) && is_batch_folder_key(key, b)
}

/// Batch activity after a cleanup at `now`: timed-out batches removed.
pub open spec fn cleaned_activity(act: Map<Seq<char>, u64>, now: u64) -> Map<Seq<char>, u64> {
    act.remove_keys(expired_batches(act, now))
}

/// Folder mappings after a cleanup at `now`: the mappings of timed-out
/// batches removed.
pub open spec fn cleaned_mappings(
    maps: Map<Seq<char>, String>,
    act: Map<Seq<char>, u64>,
    now: u64,
) -> Map<Seq<char>, String> {
    maps.remove_keys(maps.dom().filter(|k: Seq<char>| belongs_to_any(k, expired_batches(act, now))))
}

/// Whether `key` ends with `-` followed by `batch`.
fn is_batch_folder_key_exec(key: &[char], batch: &[char]) -> (r: bool)
    ensures
        r == is_batch_folder_key(key@, batch@),
{
    if key.len() <= batch.len() {
        return false;
    }
    let start = key.len() - batch.len() - 1;
    if key[start] != '-' {
        assert(key@.skip(start as int)[0] != (seq!['-'] + batch@)[0]);
        return false;
    }
    let mut i: usize = 0;
    while i < batch.len()
        invariant
            start + batch.len() + 1 == key.len(),
            key@[start as int] == '-',
            i <= batch.len(),
            forall|j: int| 0 <= j < i ==> key@[start + 1 + j] == batch@[j],
        decreases batch.len() - i,
    {
        if key[start + 1 + i] != batch[i] {
            assert(key@.skip(start as int)[i + 1] != (seq!['-'] + batch@)[i + 1]);
            return false;
        }
        i = i + 1;
    }
    assert(key@.skip(start as int) =~= seq!['-'] + batch@);
    true
}

impl UploadState {
    /// Marks a batch as active at `now_ms`.
    pub fn touch_batch(&mut self, batch_id: &str, now_ms: u64)
        requires
            old(self).wf(),
        ensures
            final(self).wf(),
            final(self).batch_activity@ == old(self).batch_activity@.insert(batch_id@, now_ms),
            final(self).folder_mappings@ == old(self).folder_mappings@,
    {
        self.batch_activity.insert(batch_id, now_ms);
    }

    /// The unique folder recorded for a mapping key.
    pub fn folder_mapping(&self, key: &str) -> (r: Option<String>)
        requires
            self.wf(),
        ensures
            match r {
                Some(v) => self.folder_mappings@.contains_key(key@) && v@
                    == self.folder_mappings@[key@]@,
                None => !self.folder_mappings@.contains_key(key@),
            },
    {
        match self.folder_mappings.get(key) {
            Some(v) => Some(v.clone()),
            None => None,
        }
    }

    /// Records the unique folder chosen for a mapping key.
    pub fn record_folder_mapping(&mut self, key: &str, folder: String)
        requires
            old(self).wf(),
        ensures
            final(self).wf(),
            final(self).folder_mappings@ == old(self).folder_mappings@.insert(key@, folder),
            final(self).batch_activity@ == old(self).batch_activity@,
    {
        self.folder_mappings.insert(key, folder);
    }

    /// Forgets every batch that has been inactive for `BATCH_TIMEOUT_MS` at
    /// `now_ms`, together with its folder mappings; returns how many batches
    /// were forgotten.
    pub fn cleanup_expired(&mut self, now_ms: u64) -> (r: usize)
        requires
            old(self).wf(),
        ensures
            final(self).wf(),
            final(self).batch_activity@ == cleaned_activity(old(self).batch_activity@, now_ms),
            final(self).folder_mappings@ == cleaned_mappings(
                old(self).folder_mappings@,
                old(self).batch_activity@,
                now_ms,
            ),
            r == expired_batches(old(self).batch_activity@, now_ms).len(),
    {
        let ghost act0 = self.batch_activity@;
        let ghost maps0 = self.folder_mappings@;
        let ghost exp = expired_batches(act0, now_ms);
        proof {
            self.batch_activity.lemma_key_list();
        }
        let keys = self.batch_activity.keys();
        let ghost kl = self.batch_activity.key_list();
        // the timed-out batches, in key order
        let mut expired: Vec<Vec<char>> = Vec::new();
        let mut i: usize = 0;
        while i < keys.len()
            invariant
                self.wf(),
                self.batch_activity@ == act0,
                i <= keys@.len(),
                keys@.map_values(|s: String| s@) == kl,
                kl.no_duplicates(),
                forall|k: Seq<char>| act0.contains_key(k) <==> kl.contains(k),
                expired.deep_view().no_duplicates(),
                forall|k: Seq<char>|
                    expired.deep_view().contains(k) <==> (kl.take(i as int).contains(k)
                        && batch_expired(act0[k], now_ms)),
            decreases keys@.len() - i,
        {
            let ghost k = kl[i as int];
            assert(keys@[i as int]@ == k);
            assert(kl.take(i + 1) =~= kl.take(i as int).push(k));
            assert(act0.contains_key(k)) by {
                assert(kl.contains(k));
            }
            let ghost before = expired.deep_view();
            match self.batch_activity.get(keys[i].as_str()) {
                Some(t) => {
                    assert(*t == act0[k]);
                    if now_ms >= *t && now_ms - *t >= BATCH_TIMEOUT_MS {
                        let kc = to_chars(keys[i].as_str());
                        assert(!expired.deep_view().contains(k)) by {
                            if expired.deep_view().contains(k) {
                                let j = choose|j: int| 0 <= j < i && kl[j] == k;
                                assert(kl[j] == kl[i as int]);
                            }
                        }
                        let ghost old_e = expired;
                        let ghost kcv = kc;
                        expired.push(kc);
                        proof {
                            crate::lemmas::lemma_push_deep_view(old_e, expired, kcv);
                            assert forall|a: int, b: int|
                                0 <= a < expired.deep_view().len() && 0 <= b
                                    < expired.deep_view().len() && a != b implies expired.deep_view()[a]
                                != expired.deep_view()[b] by {
                                if a < old_e.deep_view().len() && b < old_e.deep_view().len() {
                                } else if a == old_e.deep_view().len() {
                                    assert(old_e.deep_view().contains(old_e.deep_view()[b]));
                                } else {
                                    assert(old_e.deep_view().contains(old_e.deep_view()[a]));
                                }
                            }
                        }
                    }
                },
                None => {},
            }
            assert forall|k2: Seq<char>|
                expired.deep_view().contains(k2) <==> (kl.take(i + 1).contains(k2) && batch_expired(
                    act0[k2],
                    now_ms,
                )) by {
                if expired.deep_view().contains(k2) && k2 != k {
                    let x = choose|x: int| 0 <= x < expired.deep_view().len() && expired.deep_view()[x] == k2;
                    assert(x < before.len());
                    assert(before.contains(k2));
                }
                if kl.take(i + 1).contains(k2) && batch_expired(act0[k2], now_ms) && k2 != k {
                    let x = choose|x: int| 0 <= x < i + 1 && #[trigger] kl.take(i + 1)[x] == k2;
                    assert(kl.take(i as int).contains(k2)) by {
                        assert(kl.take(i as int)[x] == k2);
                    }
                    assert(before.contains(k2));
                    let y = choose|y: int| 0 <= y < before.len() && before[y] == k2;
                    assert(expired.deep_view()[y] == k2);
                }
                if k2 == k && batch_expired(act0[k], now_ms) {
                    assert(expired.deep_view()[expired.deep_view().len() - 1] == k);
                }
                if k2 == k && expired.deep_view().contains(k) {
                    if !batch_expired(act0[k], now_ms) {
                        assert(expired.deep_view() == before);
                        assert(kl.take(i as int).contains(k));
                        let x = choose|x: int| 0 <= x < i && #[trigger] kl.take(i as int)[x] == k;
                        assert(kl[x] == kl[i as int]);
                    }
                    assert(kl.take(i + 1)[i as int] == k);
                }
            }
            i = i + 1;
        }
        assert(kl.take(keys@.len() as int) =~= kl);
        let ghost ev = expired.deep_view();
        assert(ev.to_set() =~= exp);
        proof {
            ev.unique_seq_to_set();
        }
        // forget the timed-out batches
        let mut j: usize = 0;
        while j < expired.len()
            invariant
                self.wf(),
                self.folder_mappings@ == maps0,
                j <= expired@.len(),
                ev == expired.deep_view(),
                self.batch_activity@ == act0.remove_keys(ev.take(j as int).to_set()),
            decreases expired@.len() - j,
        {
            let name = crate::text::from_chars(expired[j].as_slice());
            self.batch_activity.remove(name.as_str());
            j = j + 1;
            assert(self.batch_activity@ =~= act0.remove_keys(ev.take(j as int).to_set())) by {
                assert(ev.take(j as int) =~= ev.take(j - 1).push(ev[j - 1]));
                ev.take(j - 1).lemma_push_to_set_commute(ev[j - 1]);
                assert(ev[j - 1] == expired@[j - 1]@);
            }
        }
        assert(ev.take(expired@.len() as int) =~= ev);
        assert(self.batch_activity@ =~= cleaned_activity(act0, now_ms));
        // forget their folder mappings
        proof {
            self.folder_mappings.lemma_key_list();
        }
        let mkeys = self.folder_mappings.keys();
        let ghost ml = self.folder_mappings.key_list();
        let ghost doomed = maps0.dom().filter(|k: Seq<char>| belongs_to_any(k, exp));
        let mut m: usize = 0;
        while m < mkeys.len()
            invariant
                self.wf(),
                self.batch_activity@ == cleaned_activity(act0, now_ms),
                m <= mkeys@.len(),
                mkeys@.map_values(|s: String| s@) == ml,
                forall|k: Seq<char>| maps0.contains_key(k) <==> ml.contains(k),
                ev == expired.deep_view(),
                ev.to_set() == exp,
                doomed == maps0.dom().filter(|k: Seq<char>| belongs_to_any(k, exp)),
                self.folder_mappings@ == maps0.remove_keys(
                    doomed.intersect(ml.take(m as int).to_set()),
                ),
            decreases mkeys@.len() - m,
        {
            let ghost k = ml[m as int];
            assert(mkeys@[m as int]@ == k);
            let kc = to_chars(mkeys[m].as_str());
            let mut hit = false;
            let mut e: usize = 0;
            while e < expired.len()
                invariant
                    e <= expired@.len(),
                    ev == expired.deep_view(),
                    kc@ == k,
                    hit == exists|x: int| 0 <= x < e && is_batch_folder_key(k, ev[x]),
                decreases expired@.len() - e,
            {
                let matched = is_batch_folder_key_exec(kc.as_slice(), expired[e].as_slice());
                assert(expired@[e as int]@ == ev[e as int]);
                if matched {
                    hit = true;
                }
                e = e + 1;
                assert(hit == exists|x: int| 0 <= x < e && is_batch_folder_key(k, ev[x])) by {
                    if exists|x: int| 0 <= x < e && is_batch_folder_key(k, ev[x]) {
                        let x = choose|x: int| 0 <= x < e && is_batch_folder_key(k, ev[x]);
                        if x < e - 1 {
                        }
                    }
                }
            }
            assert(hit == belongs_to_any(k, exp)) by {
                if hit {
                    let x = choose|x: int| 0 <= x < expired@.len() && is_batch_folder_key(k, ev[x]);
                    assert(ev.to_set().contains(ev[x]));
                }
                if belongs_to_any(k, exp) {
                    let b = choose|b: Seq<char>| exp.contains(b) && is_batch_folder_key(k, b);
                    assert(ev.to_set().contains(b));
                    let x = choose|x: int| 0 <= x < ev.len() && ev[x] == b;
                }
            }
            assert(maps0.contains_key(k)) by {
                assert(ml.contains(k));
            }
            if hit {
                self.folder_mappings.remove(mkeys[m].as_str());
            }
            m = m + 1;
            assert(ml.take(m as int) =~= ml.take(m - 1).push(k));
            proof {
                ml.take(m - 1).lemma_push_to_set_commute(k);
            }
            assert(self.folder_mappings@ =~= maps0.remove_keys(
                doomed.intersect(ml.take(m as int).to_set()),
            ));
        }
        assert(ml.take(mkeys@.len() as int) =~= ml);
        assert(doomed.intersect(ml.to_set()) =~= doomed) by {
            assert forall|k: Seq<char>| doomed.contains(k) implies ml.to_set().contains(k) by {
                assert(ml.contains(k));
            }
        }
        assert(self.folder_mappings@ =~= cleaned_mappings(maps0, act0, now_ms));
        expired.len()
    }
}

/// After a cleanup no remaining batch has timed out, and no remaining
/// folder mapping belongs to a batch that was forgotten.
pub proof fn lemma_cleanup_leaves_no_expired(
    maps: Map<Seq<char>, String>,
    act: Map<Seq<char>, u64>,
    now: u64,
)
    ensures
        forall|b: Seq<char>|
            #[trigger] cleaned_activity(act, now).contains_key(b) ==> !batch_expired(
                cleaned_activity(act, now)[b],
                now,
            ),
        forall|k: Seq<char>|
            #[trigger] cleaned_mappings(maps, act, now).contains_key(k) ==> !belongs_to_any(
                k,
                expired_batches(act, now),
            ),
        forall|b: Seq<char>|
            act.contains_key(b) && !batch_expired(act[b], now) ==> #[trigger] cleaned_activity(
                act,
                now,
            ).contains_key(b) && cleaned_activity(act, now)[b] == act[b],
{
}


// ---------------------------------------------------------------------
// The metadata record of an upload
// ---------------------------------------------------------------------

/// What is known of one upload in progress; it is stored as JSON under
/// `<upload dir>/.metadata/<upload id>.meta`.
#[derive(Clone, Debug, PartialEq, Eq)]
pub struct UploadMetadata {
    pub upload_id: String,
    pub original_filename: String,
    pub file_path: String,
    pub partial_file_path: String,
    pub file_size: u64,
    pub bytes_received: u64,
    pub batch_id: String,
    pub created_at: u64,
    pub last_activity: u64,
}

/// A metadata record with its text as character sequences.
pub struct MetadataView {
    pub upload_id: Seq<char>,
    pub original_filename: Seq<char>,
    pub file_path: Seq<char>,
    pub partial_file_path: Seq<char>,
    pub file_size: u64,
    pub bytes_received: u64,
    pub batch_id: Seq<char>,
    pub created_at: u64,
    pub last_activity: u64,
}

impl View for UploadMetadata {
    type V = MetadataView;

    open spec fn view(&self) -> MetadataView {
        MetadataView {
            upload_id: self.upload_id@,
            original_filename: self.original_filename@,
            file_path: self.file_path@,
            partial_file_path: self.partial_file_path@,
            file_size: self.file_size,
            bytes_received: self.bytes_received,
            batch_id: self.batch_id@,
            created_at: self.created_at,
            last_activity: self.last_activity,
        }
    }
}

pub open spec fn metadata_dir_name() -> Seq<char> {
    seq!['.', 'm', 'e', 't', 'a', 'd', 'a', 't', 'a']
}

pub open spec fn meta_suffix() -> Seq<char> {
    seq!['.', 'm', 'e', 't', 'a']
}

/// `<upload dir>/.metadata/<upload id>.meta`.
pub open spec fn metadata_path(upload_dir: Seq<char>, upload_id: Seq<char>) -> Seq<char> {
    path_join(path_join(upload_dir, metadata_dir_name()), upload_id + meta_suffix())
}

/// Where the metadata of an upload is stored.
pub fn get_metadata_path(upload_dir: &str, upload_id: &str) -> (r: String)
    ensures
        r@ == metadata_path(upload_dir@, upload_id@),
{
    let dir = to_chars(upload_dir);
    let id = to_chars(upload_id);
    let m = vec!['.', 'm', 'e', 't', 'a', 'd', 'a', 't', 'a'];
    assert(m@ =~= metadata_dir_name());
    let suffix = vec!['.', 'm', 'e', 't', 'a'];
    assert(suffix@ =~= meta_suffix());
    let meta_dir = path_join_chars(dir.as_slice(), m.as_slice());
    let file = concat_chars(id.as_slice(), suffix.as_slice());
    let p = path_join_chars(meta_dir.as_slice(), file.as_slice());
    from_chars(p.as_slice())
}

/// Whether `s` holds `..` anywhere.
pub open spec fn contains_dotdot(s: Seq<char>) -> bool {
    exists|i: int| 0 <= i < s.len() - 1 && #[trigger] s[i] == '.' && s[i + 1] == '.'
}

/// Whether an upload id may name a metadata file: it must not hold `..`.
pub fn upload_id_is_safe(upload_id: &str) -> (r: bool)
    ensures
        r == !contains_dotdot(upload_id@),
{
    let s = to_chars(upload_id);
    let mut i: usize = 0;
    while i < s.len() && i + 1 < s.len()
        invariant
            s@ == upload_id@,
            forall|j: int| 0 <= j < i && j < s@.len() - 1 ==> !(#[trigger] s@[j] == '.' && s@[j + 1] == '.'),
        decreases s.len() - i,
    {
        if s[i] == '.' && s[i + 1] == '.' {
            assert(s@[i as int] == '.' && s@[i + 1] == '.');
            return false;
        }
        i = i + 1;
    }
    true
}

// ---------------------------------------------------------------------
// Starting an upload
// ---------------------------------------------------------------------

/// Why a request to start an upload is refused before anything is written.
#[derive(Clone, Copy, Debug)]
pub enum InitRejection {
    /// The file name is empty (400).
    MissingFilename,
    /// The size is above the configured limit (413).
    FileTooLarge { limit: u64 },
    /// The client sent a batch id that does not have the batch-id form (400).
    InvalidBatchId,
}

pub open spec fn init_check(
    filename: Seq<char>,
    file_size: u64,
    max_file_size: u64,
    batch_header: Option<Seq<char>>,
) -> Result<(), InitRejection> {
    if filename.len() == 0 {
        Err(InitRejection::MissingFilename)
    } else if file_size > max_file_size {
        Err(InitRejection::FileTooLarge { limit: max_file_size })
    } else {
        match batch_header {
            Some(b) => if crate::sanitize::valid_batch_id(b) {
                Ok(())
            } else {
                Err(InitRejection::InvalidBatchId)
            },
            None => Ok(()),
        }
    }
}

/// The checks made on a request to start an upload, in order: a file name
/// is required, the size must not exceed the limit, and a batch id sent by
/// the client must have the batch-id form.
pub fn check_init_request(
    filename: &str,
    file_size: u64,
    max_file_size: u64,
    client_batch_id: Option<&str>,
) -> (r: Result<(), InitRejection>)
    ensures
        r == init_check(filename@, file_size, max_file_size, match client_batch_id {
            Some(b) => Some(b@),
            None => None,
        }),
{
    if filename.is_empty() {
        return Err(InitRejection::MissingFilename);
    }
    if file_size > max_file_size {
        return Err(InitRejection::FileTooLarge { limit: max_file_size });
    }
    match client_batch_id {
        Some(b) => if crate::sanitize::is_valid_batch_id(b) {
            Ok(())
        } else {
            Err(InitRejection::InvalidBatchId)
        },
        None => Ok(()),
    }
}

/// The decimal text of a signed integer.
pub open spec fn signed_decimal(n: int) -> Seq<char> {
    if n < 0 {
        seq!['-'] + decimal((-n) as nat)
    } else {
        decimal(n as nat)
    }
}

fn signed_decimal_exec(n: i64) -> (r: Vec<char>)
    ensures
        r@ == signed_decimal(n as int),
{
    if n < 0 {
        let magnitude: u128 = (0i128 - (n as i128)) as u128;
        let digits = decimal_exec(magnitude);
        let minus = vec!['-'];
        assert(minus@ =~= seq!['-']);
        concat_chars(minus.as_slice(), digits.as_slice())
    } else {
        decimal_exec(n as u128)
    }
}

/// A batch id made by the server: the clock reading in milliseconds, `-`,
/// and the random characters lower-cased.
pub open spec fn server_batch_id(now_ms: i64, random: Seq<char>) -> Seq<char> {
    signed_decimal(now_ms as int) + seq!['-'] + unicode_lowercase(random)
}

/// The batch id the server uses when the client sends none.
pub fn generated_batch_id(now_ms: i64, random: &str) -> (r: String)
    ensures
        r@ == server_batch_id(now_ms, random@),
{
    let digits = signed_decimal_exec(now_ms);
    let dash = vec!['-'];
    assert(dash@ =~= seq!['-']);
    let lower = to_lowercase(random);
    let lc = to_chars(lower.as_str());
    let head = concat_chars(digits.as_slice(), dash.as_slice());
    let all = concat_chars(head.as_slice(), lc.as_slice());
    from_chars(all.as_slice())
}

/// The hex digits of n, without leading zeros ("0" for zero), as
/// `format!("{:x}", n)` writes them.
pub open spec fn lower_hex(n: nat) -> Seq<char>
    decreases n,
{
    if n < 16 {
        seq![hex_digits()[n as int]]
    } else {
        lower_hex(n / 16).push(hex_digits()[(n % 16) as int])
    }
}

fn lower_hex_exec(n: u128) -> (r: Vec<char>)
    ensures
        r@ == lower_hex(n as nat),
    decreases n,
{
    let t = ['0', '1', '2', '3', '4', '5', '6', '7', '8', '9', 'a', 'b', 'c', 'd', 'e', 'f'];
    assert(t@ =~= hex_digits());
    if n < 16 {
        let mut v: Vec<char> = Vec::new();
        v.push(t[n as usize]);
        assert(v@ =~= seq![hex_digits()[n as int]]);
        v
    } else {
        let mut v = lower_hex_exec(n / 16);
        v.push(t[(n % 16) as usize]);
        v
    }
}

/// An upload id: a random 128-bit value in lowercase hex.
pub fn upload_id_from(value: u128) -> (r: String)
    ensures
        r@ == lower_hex(value as nat),
{
    let v = lower_hex_exec(value);
    from_chars(v.as_slice())
}

/// Every `\` turned into `/`.
pub open spec fn backslashes_to_slashes(s: Seq<char>) -> Seq<char> {
    s.map_values(|c: char| if c == '\\' { '/' } else { c })
}

/// The name under which an upload is stored: the sanitised path, lexically
/// normalised, with `/` separators.
pub open spec fn safe_upload_name(filename: Seq<char>) -> Seq<char> {
    backslashes_to_slashes(normalized(sanitized_upload_path(filename)))
}

/// The sanitised, normalised relative path an upload is stored under.
pub fn safe_upload_filename(filename: &str) -> (r: String)
    requires
        sanitize_path_total(filename@),
    ensures
        r@ == safe_upload_name(filename@),
        r@ == sanitized_upload_path(filename@),
        !has_root(r@),
        !has_cur_dir(r@),
        !components(r@).contains(dotdot()),
        forall|dir: Seq<char>| path_starts_with(#[trigger] path_join(dir, r@), dir),
        upload_parts(r@).len() >= 1,
        forall|i: int| 0 <= i < upload_parts(r@).len() ==> clean_name(#[trigger] upload_parts(r@)[i]),
        r@ == join_with(upload_parts(r@), seq!['/']),
{
    let sanitized = sanitize_path_preserve_dirs_safe(filename);
    let normal = normalize_path(sanitized.as_str());
    let r = slashes_for_backslashes(normal.as_str());
    proof {
        assert(backslashes_to_slashes(sanitized@) =~= sanitized@);
        assert forall|dir: Seq<char>| path_starts_with(#[trigger] path_join(dir, r@), dir) by {
            let cd = components(dir);
            assert(cd.take(cd.len() as int) =~= cd);
            lemma_join_stays_within(dir, r@, dir);
        }
        let ps = choose|ps: Seq<Seq<char>>|
            ps.len() >= 1 && crate::sanitize::clean_parts(ps) && r@ == #[trigger] join_with(
                ps,
                seq!['/'],
            );
        assert forall|i: int| 0 <= i < ps.len() implies crate::text::free_of(
            #[trigger] ps[i],
            seq!['/'],
        ) by {
            crate::sanitize::lemma_sep_free_free_of(ps[i]);
        }
        assert(seq!['/'].contains('/')) by {
            assert(seq!['/'][0] == '/');
        }
        crate::text::lemma_split_join(ps, '/', seq!['/']);
        lemma_nonempty_pieces_all(ps);
        assert forall|i: int| 0 <= i < ps.len() implies clean_name(#[trigger] ps[i]) by {}
    }
    r
}

/// Pieces that are all non-empty are kept as they are.
proof fn lemma_nonempty_pieces_all(ps: Seq<Seq<char>>)
    requires
        forall|i: int| 0 <= i < ps.len() ==> (#[trigger] ps[i]).len() > 0,
    ensures
        nonempty_pieces(ps) == ps,
    decreases ps.len(),
{
    if ps.len() > 0 {
        assert forall|i: int| 0 <= i < ps.drop_last().len() implies (
        #[trigger] ps.drop_last()[i]).len() > 0 by {
            assert(ps.drop_last()[i] == ps[i]);
        }
        lemma_nonempty_pieces_all(ps.drop_last());
        assert(ps[ps.len() - 1].len() > 0);
        assert(ps.drop_last().push(ps.last()) =~= ps);
    }
}

/// `s` with every `\` turned into `/`.
pub fn slashes_for_backslashes(s: &str) -> (r: String)
    ensures
        r@ == backslashes_to_slashes(s@),
{
    let chars = to_chars(s);
    let mut out: Vec<char> = Vec::new();
    let mut i: usize = 0;
    while i < chars.len()
        invariant
            i <= chars@.len(),
            out@ == backslashes_to_slashes(chars@.take(i as int)),
        decreases chars@.len() - i,
    {
        let c = chars[i];
        out.push(if c == '\\' { '/' } else { c });
        i = i + 1;
        assert(out@ =~= backslashes_to_slashes(chars@.take(i as int)));
    }
    assert(chars@.take(chars@.len() as int) == chars@);
    from_chars(out.as_slice())
}

/// `.` followed by the extension of `name`, or nothing.
pub open spec fn dotted_extension(name: Seq<char>) -> Seq<char> {
    match extension(name) {
        Some(e) => seq!['.'] + e,
        None => Seq::<char>::empty(),
    }
}

/// The lower-cased extension checked against the allowed list.
pub open spec fn checked_extension(name: Seq<char>) -> Seq<char> {
    match extension(name) {
        Some(e) => seq!['.'] + unicode_lowercase(e),
        None => Seq::<char>::empty(),
    }
}

/// Whether an upload's extension is refused: there is an allow-list, the
/// name has an extension, and `.<extension>` (lower-cased) is not listed.
pub open spec fn extension_refused(name: Seq<char>, allowed: Option<Seq<Seq<char>>>) -> bool {
    match allowed {
        Some(list) => checked_extension(name).len() > 0 && !list.contains(checked_extension(name)),
        None => false,
    }
}

/// The characters of each string.
pub open spec fn string_views(v: Seq<String>) -> Seq<Seq<char>> {
    v.map_values(|s: String| s@)
}

/// `.` and the lower-cased extension of a path's file name, or nothing
/// when it has no extension.
pub fn dotted_lower_extension(name: &str) -> (r: String)
    ensures
        r@ == checked_extension(name@),
{
    let n = to_chars(name);
    match file_name_chars(n.as_slice()) {
        Some(f) => match split_name(f.as_slice()).1 {
            Some(e) => {
                let es = from_chars(e.as_slice());
                let lower = to_lowercase(es.as_str());
                let lc = to_chars(lower.as_str());
                let d = vec!['.'];
                assert(d@ =~= seq!['.']);
                let r = concat_chars(d.as_slice(), lc.as_slice());
                from_chars(r.as_slice())
            },
            None => String::new(),
        },
        None => String::new(),
    }
}

/// The extension check of an upload: `Err` carries the refused
/// `.<extension>`.
pub fn check_extension(safe_name: &str, allowed: Option<&Vec<String>>) -> (r: Result<(), String>)
    ensures
        r is Err <==> extension_refused(safe_name@, match allowed {
            Some(l) => Some(string_views(l@)),
            None => None,
        }),
        r matches Err(e) ==> e@ == checked_extension(safe_name@),
{
    match allowed {
        None => Ok(()),
        Some(list) => {
            let ext = to_chars(dotted_lower_extension(safe_name).as_str());
            assert(ext@ == checked_extension(safe_name@));
            if ext.len() == 0 {
                return Ok(());
            }
            let ghost lv = string_views(list@);
            let mut i: usize = 0;
            while i < list.len()
                invariant
                    i <= list@.len(),
                    lv == string_views(list@),
                    lv.len() == list@.len(),
                    allowed == Some(list),
                    ext@ == checked_extension(safe_name@),
                    ext@.len() > 0,
                    forall|j: int| 0 <= j < i ==> lv[j] != ext@,
                decreases list@.len() - i,
            {
                let item = to_chars(list[i].as_str());
                if chars_eq(item.as_slice(), ext.as_slice()) {
                    assert(lv[i as int] == ext@);
                    assert(lv.contains(ext@));
                    return Ok(());
                }
                i = i + 1;
            }
            assert(!lv.contains(ext@));
            Err(from_chars(ext.as_slice()))
        },
    }
}

/// `name (counter)`.
pub open spec fn numbered(name: Seq<char>, counter: nat) -> Seq<char> {
    name + seq![' ', '('] + decimal(counter) + seq![')']
}

/// The `counter`-th alternative for a folder that already exists:
/// `<parent>/<name> (<counter>)`.
pub open spec fn folder_candidate(folder: Seq<char>, counter: nat) -> Seq<char> {
    let base = match parent(folder) {
        Some(p) => p,
        None => Seq::<char>::empty(),
    };
    let name = match file_name(folder) {
        Some(n) => n,
        None => Seq::<char>::empty(),
    };
    path_join(base, numbered(name, counter))
}

fn numbered_exec(name: &[char], counter: u64) -> (r: Vec<char>)
    ensures
        r@ == numbered(name@, counter as nat),
{
    let open = vec![' ', '('];
    assert(open@ =~= seq![' ', '(']);
    let close = vec![')'];
    assert(close@ =~= seq![')']);
    let digits = decimal_exec(counter as u128);
    let a = concat_chars(name, open.as_slice());
    let b = concat_chars(a.as_slice(), digits.as_slice());
    concat_chars(b.as_slice(), close.as_slice())
}

/// A folder name to try when `folder_path` exists (the caller tries
/// counters 1, 2, ... until one does not exist).
pub fn unique_folder_candidate(folder_path: &str, counter: u64) -> (r: String)
    ensures
        r@ == folder_candidate(folder_path@, counter as nat),
{
    let f = to_chars(folder_path);
    let base = match parent_chars(f.as_slice()) {
        Some(p) => p,
        None => Vec::new(),
    };
    let name = match file_name_chars(f.as_slice()) {
        Some(n) => n,
        None => Vec::new(),
    };
    let numbered_name = numbered_exec(name.as_slice(), counter);
    let p = path_join_chars(base.as_slice(), numbered_name.as_slice());
    from_chars(p.as_slice())
}

/// The `counter`-th alternative for a file that already exists:
/// `<parent>/<stem> (<counter>)<.ext>`, the parent being the upload
/// directory when the path has none.
pub open spec fn file_candidate(path: Seq<char>, upload_dir: Seq<char>, counter: nat) -> Seq<char> {
    let base = match parent(path) {
        Some(p) => p,
        None => upload_dir,
    };
    let stem = match file_stem(path) {
        Some(s) => s,
        None => Seq::<char>::empty(),
    };
    path_join(base, numbered(stem, counter) + dotted_extension(path))
}

/// A file name to try when `file_path` exists (the caller tries counters
/// 1, 2, ... until one does not exist).
pub fn unique_file_candidate(file_path: &str, upload_dir: &str, counter: u64) -> (r: String)
    ensures
        r@ == file_candidate(file_path@, upload_dir@, counter as nat),
{
    let f = to_chars(file_path);
    let base = match parent_chars(f.as_slice()) {
        Some(p) => p,
        None => to_chars(upload_dir),
    };
    let (stem, ext) = match file_name_chars(f.as_slice()) {
        Some(n) => {
            let (s, e) = split_name(n.as_slice());
            let dotted = match e {
                Some(e) => {
                    let d = vec!['.'];
                    assert(d@ =~= seq!['.']);
                    concat_chars(d.as_slice(), e.as_slice())
                },
                None => Vec::new(),
            };
            (s, dotted)
        },
        None => (Vec::new(), Vec::new()),
    };
    assert(ext@ == dotted_extension(file_path@));
    let numbered_stem = numbered_exec(stem.as_slice(), counter);
    let name = concat_chars(numbered_stem.as_slice(), ext.as_slice());
    let p = path_join_chars(base.as_slice(), name.as_slice());
    from_chars(p.as_slice())
}

pub open spec fn partial_suffix() -> Seq<char> {
    seq!['.', 'p', 'a', 'r', 't', 'i', 'a', 'l']
}

/// Where the bytes of an upload are written until it completes.
pub fn partial_path_of(final_path: &str) -> (r: String)
    ensures
        r@ == final_path@ + partial_suffix(),
{
    let f = to_chars(final_path);
    let s = vec!['.', 'p', 'a', 'r', 't', 'i', 'a', 'l'];
    assert(s@ =~= partial_suffix());
    let p = concat_chars(f.as_slice(), s.as_slice());
    from_chars(p.as_slice())
}

/// `<folder>-<batch id>`, the key of a folder mapping.
pub fn folder_mapping_key(folder: &str, batch_id: &str) -> (r: String)
    ensures
        r@ == folder@ + seq!['-'] + batch_id@,
{
    let f = to_chars(folder);
    let b = to_chars(batch_id);
    let d = vec!['-'];
    assert(d@ =~= seq!['-']);
    let a = concat_chars(f.as_slice(), d.as_slice());
    let k = concat_chars(a.as_slice(), b.as_slice());
    from_chars(k.as_slice())
}

/// The folder mapping of an upload belongs to its batch.
pub proof fn lemma_mapping_key_of_batch(folder: Seq<char>, batch: Seq<char>)
    ensures
        is_batch_folder_key(folder + seq!['-'] + batch, batch),
{
    let k = folder + seq!['-'] + batch;
    assert(k.skip(k.len() - batch.len() - 1) =~= seq!['-'] + batch);
}

/// Every folder mapping belongs to a batch that is still tracked.
pub open spec fn mappings_tracked(maps: Map<Seq<char>, String>, act: Map<Seq<char>, u64>) -> bool {
    forall|k: Seq<char>|
        #[trigger] maps.contains_key(k) ==> exists|b: Seq<char>|
            act.contains_key(b) && is_batch_folder_key(k, b)
}

/// No folder mapping outlives its batch: after a cleanup, every mapping
/// left belongs to a batch that is still tracked.
pub proof fn lemma_cleanup_keeps_mappings_tracked(
    maps: Map<Seq<char>, String>,
    act: Map<Seq<char>, u64>,
    now: u64,
)
    requires
        mappings_tracked(maps, act),
    ensures
        mappings_tracked(cleaned_mappings(maps, act, now), cleaned_activity(act, now)),
{
    let cm = cleaned_mappings(maps, act, now);
    let ca = cleaned_activity(act, now);
    let ex = expired_batches(act, now);
    assert forall|k: Seq<char>| #[trigger] cm.contains_key(k) implies exists|b: Seq<char>|
        ca.contains_key(b) && is_batch_folder_key(k, b) by {
        assert(maps.contains_key(k));
        assert(!belongs_to_any(k, ex));
        let b = choose|b: Seq<char>| act.contains_key(b) && is_batch_folder_key(k, b);
        if batch_expired(act[b], now) {
            assert(ex.contains(b));
            assert(belongs_to_any(k, ex));
        }
        assert(!ex.contains(b));
        assert(ca.contains_key(b));
    }
}

/// Marking a batch active keeps every mapping tracked.
pub proof fn lemma_touch_keeps_mappings_tracked(
    maps: Map<Seq<char>, String>,
    act: Map<Seq<char>, u64>,
    batch: Seq<char>,
    now: u64,
)
    requires
        mappings_tracked(maps, act),
    ensures
        mappings_tracked(maps, act.insert(batch, now)),
{
    assert forall|k: Seq<char>| #[trigger] maps.contains_key(k) implies exists|b: Seq<char>|
        act.insert(batch, now).contains_key(b) && is_batch_folder_key(k, b) by {
        let b = choose|b: Seq<char>| act.contains_key(b) && is_batch_folder_key(k, b);
        assert(act.insert(batch, now).contains_key(b));
    }
}

/// Recording the folder of a tracked batch keeps every mapping tracked.
pub proof fn lemma_record_keeps_mappings_tracked(
    maps: Map<Seq<char>, String>,
    act: Map<Seq<char>, u64>,
    folder: Seq<char>,
    batch: Seq<char>,
    mapped: String,
)
    requires
        mappings_tracked(maps, act),
        act.contains_key(batch),
    ensures
        mappings_tracked(maps.insert(folder + seq!['-'] + batch, mapped), act),
{
    let key = folder + seq!['-'] + batch;
    lemma_mapping_key_of_batch(folder, batch);
    let m2 = maps.insert(key, mapped);
    assert forall|k: Seq<char>| #[trigger] m2.contains_key(k) implies exists|b: Seq<char>|
        act.contains_key(b) && is_batch_folder_key(k, b) by {
        if k == key {
            assert(act.contains_key(batch) && is_batch_folder_key(k, batch));
        } else {
            assert(maps.contains_key(k));
        }
    }
}

// ---------------------------------------------------------------------
// Receiving a chunk
// ---------------------------------------------------------------------

/// What to do with a chunk that arrives for an upload.
#[derive(Clone, Copy, Debug)]
pub enum ChunkPlan {
    /// Everything was already received: finalise again and report 100%.
    AlreadyComplete,
    /// Append the first `write_len` bytes of the chunk; the upload then has
    /// `received_after` bytes.
    Write { write_len: u64, received_after: u64 },
}

pub open spec fn chunk_plan(received: u64, file_size: u64, chunk_len: u64) -> ChunkPlan {
    if received >= file_size {
        ChunkPlan::AlreadyComplete
    } else if received + chunk_len > file_size {
        ChunkPlan::Write {
            write_len: (file_size - received) as u64,
            received_after: file_size,
        }
    } else {
        ChunkPlan::Write { write_len: chunk_len, received_after: (received + chunk_len) as u64 }
    }
}

/// How a chunk of `chunk_len` bytes is taken in: nothing when the upload
/// already has all its bytes, otherwise as much of the chunk as still fits
/// in the announced size.
pub fn plan_chunk(bytes_received: u64, file_size: u64, chunk_len: u64) -> (r: ChunkPlan)
    requires
        bytes_received < file_size ==> bytes_received + chunk_len <= u64::MAX,
    ensures
        r == chunk_plan(bytes_received, file_size, chunk_len),
{
    if bytes_received >= file_size {
        return ChunkPlan::AlreadyComplete;
    }
    if bytes_received + chunk_len > file_size {
        let write_len = file_size - bytes_received;
        ChunkPlan::Write { write_len, received_after: bytes_received + write_len }
    } else {
        ChunkPlan::Write { write_len: chunk_len, received_after: bytes_received + chunk_len }
    }
}

/// An upload never receives more bytes than it announced, the bytes
/// written are exactly the growth of the received count, and a chunk that
/// would overflow the size completes the upload.
pub proof fn lemma_chunk_plan_bounded(received: u64, file_size: u64, chunk_len: u64)
    requires
        received + chunk_len <= u64::MAX,
        chunk_len > 0,
    ensures
        chunk_plan(received, file_size, chunk_len) matches ChunkPlan::Write { write_len, received_after } ==> {
            &&& received_after <= file_size
            &&& received_after == received + write_len
            &&& 0 < write_len <= chunk_len
            &&& (received + chunk_len >= file_size ==> received_after == file_size)
        },
        received >= file_size <==> chunk_plan(received, file_size, chunk_len) is AlreadyComplete,
{
}

// ---------------------------------------------------------------------
// Folder uploads
// ---------------------------------------------------------------------

/// The non-empty `/`-separated pieces of an upload name.
pub open spec fn nonempty_pieces(ps: Seq<Seq<char>>) -> Seq<Seq<char>>
    decreases ps.len(),
{
    if ps.len() == 0 {
        Seq::<Seq<char>>::empty()
    } else if ps.last().len() > 0 {
        nonempty_pieces(ps.drop_last()).push(ps.last())
    } else {
        nonempty_pieces(ps.drop_last())
    }
}

pub open spec fn upload_parts(name: Seq<char>) -> Seq<Seq<char>> {
    nonempty_pieces(split_on(name, seq!['/']))
}

/// The parts of an upload name; more than one means a folder upload whose
/// top folder is the first part.
pub fn upload_path_parts(safe_name: &str) -> (r: Vec<String>)
    ensures
        string_views(r@) == upload_parts(safe_name@),
{
    let n = to_chars(safe_name);
    let sep = vec!['/'];
    assert(sep@ =~= seq!['/']);
    let pieces = split_chars(n.as_slice(), sep.as_slice());
    let ghost pv = pieces.deep_view();
    let mut out: Vec<String> = Vec::new();
    let mut i: usize = 0;
    while i < pieces.len()
        invariant
            i <= pieces@.len(),
            pv == pieces.deep_view(),
            pv == split_on(safe_name@, seq!['/']),
            string_views(out@) =~= nonempty_pieces(pv.take(i as int)),
        decreases pieces.len() - i,
    {
        assert(pv.take(i + 1).drop_last() == pv.take(i as int));
        assert(pv[i as int] == pieces@[i as int]@);
        if pieces[i].len() > 0 {
            let ghost o0 = string_views(out@);
            let piece = from_chars(pieces[i].as_slice());
            out.push(piece);
            assert(string_views(out@) =~= o0.push(pv[i as int]));
        }
        i = i + 1;
    }
    assert(pv.take(pv.len() as int) == pv);
    out
}

/// The parts pushed one after the other onto an empty path
/// (`PathBuf::from_iter`).
pub open spec fn pushed_path(parts: Seq<Seq<char>>) -> Seq<char>
    decreases parts.len(),
{
    if parts.len() == 0 {
        Seq::<char>::empty()
    } else {
        path_join(pushed_path(parts.drop_last()), parts.last())
    }
}

/// Where a file of a folder upload goes: the upload directory, the folder
/// the batch was given in place of the top folder, then the other parts.
pub fn remapped_upload_path(upload_dir: &str, parts: &Vec<String>, folder: &str) -> (r: String)
    requires
        parts@.len() > 1,
    ensures
        r@ == path_join(upload_dir@, pushed_path(string_views(parts@).update(0, folder@))),
{
    let ghost target = string_views(parts@).update(0, folder@);
    let mut acc: Vec<char> = Vec::new();
    let mut i: usize = 0;
    while i < parts.len()
        invariant
            i <= parts@.len(),
            parts@.len() > 1,
            target == string_views(parts@).update(0, folder@),
            acc@ == pushed_path(target.take(i as int)),
        decreases parts.len() - i,
    {
        assert(target.take(i + 1).drop_last() == target.take(i as int));
        let piece = if i == 0 {
            to_chars(folder)
        } else {
            to_chars(parts[i].as_str())
        };
        assert(piece@ == target[i as int]);
        acc = path_join_chars(acc.as_slice(), piece.as_slice());
        i = i + 1;
    }
    assert(target.take(target.len() as int) == target);
    let dir = to_chars(upload_dir);
    from_chars(path_join_chars(dir.as_slice(), acc.as_slice()).as_slice())
}

/// A name that stands as one path component: not empty, free of `/` and
/// `\\`, and not starting with `.`, `_` or `-` (as sanitised names are).
pub open spec fn clean_name(s: Seq<char>) -> bool {
    crate::sanitize::sep_free(s) && s.len() > 0 && !crate::sanitize::edge_chars().contains(s[0])
}

/// Clean names pushed one after the other are the names joined with `/`.
proof fn lemma_pushed_path_join(q: Seq<Seq<char>>)
    requires
        q.len() >= 1,
        forall|i: int| 0 <= i < q.len() ==> clean_name(#[trigger] q[i]),
    ensures
        pushed_path(q) == join_with(q, seq!['/']),
    decreases q.len(),
{
    assert(crate::sanitize::edge_chars()[0] == '.');
    assert(clean_name(q[q.len() - 1]));
    let last = q.last();
    assert(last[0] != '/');
    if q.len() == 1 {
        assert(q.drop_last() =~= Seq::<Seq<char>>::empty());
        assert(pushed_path(q.drop_last()) == Seq::<char>::empty());
        assert(Seq::<char>::empty() + last =~= last);
    } else {
        let init = q.drop_last();
        assert forall|i: int| 0 <= i < init.len() implies clean_name(#[trigger] init[i]) by {
            assert(init[i] == q[i]);
        }
        lemma_pushed_path_join(init);
        let a = join_with(init, seq!['/']);
        crate::text::lemma_join_head(init, seq!['/']);
        assert(clean_name(init[0]));
        lemma_join_last(init);
        let il = init.last();
        assert(clean_name(init[init.len() - 1]));
        assert(il[il.len() - 1] != '/');
        assert(a.len() > 0 && a.last() != '/');
    }
}

/// A join ends with the end of its last part.
proof fn lemma_join_last(parts: Seq<Seq<char>>)
    requires
        parts.len() >= 1,
        parts.last().len() > 0,
    ensures
        join_with(parts, seq!['/']).len() > 0,
        join_with(parts, seq!['/']).last() == parts.last().last(),
{
    if parts.len() > 1 {
        let a = join_with(parts.drop_last(), seq!['/']);
        let j = a + seq!['/'] + parts.last();
        assert(j.last() == parts.last().last());
    }
}

/// A folder upload keeps its directory structure: the file lands in the
/// upload directory, under the folder its batch was given, followed by the
/// other parts of its path, each one component.
pub proof fn lemma_remapped_keeps_structure(dir: Seq<char>, parts: Seq<Seq<char>>, folder: Seq<char>)
    requires
        parts.len() > 1,
        forall|i: int| 0 <= i < parts.len() ==> clean_name(#[trigger] parts[i]),
        clean_name(folder),
    ensures
        components(path_join(dir, pushed_path(parts.update(0, folder)))) == components(dir)
            + parts.update(0, folder),
{
    let q = parts.update(0, folder);
    assert forall|i: int| 0 <= i < q.len() implies clean_name(#[trigger] q[i]) by {
        if i != 0 {
            assert(q[i] == parts[i]);
        }
    }
    lemma_pushed_path_join(q);
    let j = join_with(q, seq!['/']);
    crate::sanitize::lemma_clean_relative_path(q);
    assert(j.skip(0) =~= j);
    crate::paths::lemma_components_join(dir, j);
}

/// The file name of a path, or `fallback` when it has none.
pub fn file_name_or(path: &str, fallback: &str) -> (r: String)
    ensures
        r@ == match file_name(path@) {
            Some(n) => n,
            None => fallback@,
        },
{
    let p = to_chars(path);
    match file_name_chars(p.as_slice()) {
        Some(n) => from_chars(n.as_slice()),
        None => from_chars(to_chars(fallback).as_slice()),
    }
}

/// The temporary file a metadata record is written to before it is moved
/// in place: `<upload id>.<random>.tmp`.
pub fn metadata_temp_name(upload_id: &str, random: u32) -> (r: String)
    ensures
        r@ == upload_id@ + seq!['.'] + decimal(random as nat) + seq!['.', 't', 'm', 'p'],
{
    let id = to_chars(upload_id);
    let dot = vec!['.'];
    assert(dot@ =~= seq!['.']);
    let tmp = vec!['.', 't', 'm', 'p'];
    assert(tmp@ =~= seq!['.', 't', 'm', 'p']);
    let n = decimal_exec(random as u128);
    let a = concat_chars(id.as_slice(), dot.as_slice());
    let b = concat_chars(a.as_slice(), n.as_slice());
    from_chars(concat_chars(b.as_slice(), tmp.as_slice()).as_slice())
}

} // verus!
