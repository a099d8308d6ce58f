//! Login throttling, constant-time secret comparison and the client address
//! taken from a proxy header.
//!
//! Failed attempts are counted per client address. After `MAX_ATTEMPTS`
//! attempts the address is locked out for `LOCKOUT_DURATION_MS` counted from
//! its last attempt. Time is a millisecond clock reading supplied by the
//! caller.

use vstd::prelude::*;
use vstd::utf8::{encode_utf8, encode_utf8_decode_utf8};
use crate::str_map::StrMap;
use crate::text::{chars_eq, split_chars, split_on, to_chars, trim_whitespace, trim_ws, from_chars};

verus! {

broadcast use crate::lemmas::lemma_chars_deep_view;

/// Attempts allowed before an address is locked out.
pub const MAX_ATTEMPTS: u32 = 5;

/// How long a lockout lasts after the last attempt: fifteen minutes.
pub const LOCKOUT_DURATION_MS: u64 = 900_000;

/// The attempts of one address: how many, and when the last one was
/// (milliseconds on the caller's clock).
#[derive(Clone, Copy, Debug)]
pub struct Attempt {
    pub count: u32,
    pub last_attempt: u64,
}

/// Attempt counts per client address.
pub struct LoginAttempts {
    attempts: StrMap<Attempt>,
}

impl View for LoginAttempts {
    type V = Map<Seq<char>, Attempt>;

    closed spec fn view(&self) -> Map<Seq<char>, Attempt> {
        self.attempts@
    }
}

impl LoginAttempts {
    pub closed spec fn wf(&self) -> bool {
        self.attempts.wf()
    }

    /// No address has attempts yet.
    pub fn new() -> (r: Self)
        ensures
            r.wf(),
            r@ == Map::<Seq<char>, Attempt>::empty(),
    {
        LoginAttempts { attempts: StrMap::new() }
    }
}

/// Time since `last`; zero when the clock reads earlier than `last`.
pub open spec fn elapsed_ms(last: u64, now: u64) -> nat {
    if now >= last {
        (now - last) as nat
    } else {
        0
    }
}

/// Whether `ip` is locked out at time `now`.
pub open spec fn locked_out(m: Map<Seq<char>, Attempt>, ip: Seq<char>, now: u64) -> bool {
    &&& m.contains_key(ip)
    &&& m[ip].count >= MAX_ATTEMPTS
    &&& elapsed_ms(m[ip].last_attempt, now) < LOCKOUT_DURATION_MS
}

/// The table after a lockout check at time `now`: an address that reached
/// the limit but whose lockout is over is forgotten.
pub open spec fn after_lockout_check(m: Map<Seq<char>, Attempt>, ip: Seq<char>, now: u64) -> Map<
    Seq<char>,
    Attempt,
> {
    if m.contains_key(ip) && m[ip].count >= MAX_ATTEMPTS && elapsed_ms(m[ip].last_attempt, now)
        >= LOCKOUT_DURATION_MS {
        m.remove(ip)
    } else {
        m
    }
}

/// The entry of `ip` after one more attempt at time `now`.
pub open spec fn recorded(m: Map<Seq<char>, Attempt>, ip: Seq<char>, now: u64) -> Attempt {
    Attempt {
        count: if m.contains_key(ip) {
            (m[ip].count + 1) as u32
        } else {
            1
        },
        last_attempt: now,
    }
}

/// Whole seconds of lockout left for `ip` at time `now`: counted from the
/// last attempt whatever the count, zero once the lockout time has passed.
pub open spec fn seconds_remaining(m: Map<Seq<char>, Attempt>, ip: Seq<char>, now: u64) -> u64 {
    if m.contains_key(ip) && elapsed_ms(m[ip].last_attempt, now) < LOCKOUT_DURATION_MS {
        ((LOCKOUT_DURATION_MS - elapsed_ms(m[ip].last_attempt, now)) / 1000) as u64
    } else {
        0
    }
}

/// Forgets the attempts of `ip`.
pub fn reset_attempts(attempts: &mut LoginAttempts, ip: &str)
    requires
        old(attempts).wf(),
    ensures
        final(attempts).wf(),
        final(attempts)@ == old(attempts)@.remove(ip@),
{
    attempts.attempts.remove(ip);
}

/// Whether `ip` is locked out at `now_ms`. An address whose lockout is over
/// is forgotten, so that it starts counting again.
pub fn is_locked_out(attempts: &mut LoginAttempts, ip: &str, now_ms: u64) -> (r: bool)
    requires
        old(attempts).wf(),
    ensures
        final(attempts).wf(),
        r == locked_out(old(attempts)@, ip@, now_ms),
        final(attempts)@ == after_lockout_check(old(attempts)@, ip@, now_ms),
{
    let found = match attempts.attempts.get(ip) {
        Some(a) => Some(*a),
        None => None,
    };
    match found {
        Some(a) => {
            if a.count >= MAX_ATTEMPTS {
                let elapsed = if now_ms >= a.last_attempt {
                    now_ms - a.last_attempt
                } else {
                    0
                };
                if elapsed < LOCKOUT_DURATION_MS {
                    return true;
                }
                attempts.attempts.remove(ip);
            }
            false
        },
        None => false,
    }
}

/// Counts one more attempt for `ip` at `now_ms` and returns its entry.
pub fn record_attempt(attempts: &mut LoginAttempts, ip: &str, now_ms: u64) -> (r: Attempt)
    requires
        old(attempts).wf(),
        old(attempts)@.contains_key(ip@) ==> old(attempts)@[ip@].count < u32::MAX,
    ensures
        final(attempts).wf(),
        r == recorded(old(attempts)@, ip@, now_ms),
        final(attempts)@ == old(attempts)@.insert(ip@, r),
{
    let count = match attempts.attempts.get(ip) {
        Some(a) => a.count + 1,
        None => 1,
    };
    let a = Attempt { count, last_attempt: now_ms };
    attempts.attempts.insert(ip, a);
    a
}

/// Whole seconds of lockout left for `ip` (see `seconds_remaining`).
pub fn get_lockout_time_remaining(attempts: &LoginAttempts, ip: &str, now_ms: u64) -> (r: u64)
    requires
        attempts.wf(),
    ensures
        r == seconds_remaining(attempts@, ip@, now_ms),
{
    match attempts.attempts.get(ip) {
        Some(a) => {
            let elapsed = if now_ms >= a.last_attempt {
                now_ms - a.last_attempt
            } else {
                0
            };
            if elapsed < LOCKOUT_DURATION_MS {
                (LOCKOUT_DURATION_MS - elapsed) / 1000
            } else {
                0
            }
        },
        None => 0,
    }
}

/// The number of attempts allowed before a lockout.
pub fn get_max_attempts() -> (r: u32)
    ensures
        r == MAX_ATTEMPTS,
{
    MAX_ATTEMPTS
}

/// The attempt that brings an address to `MAX_ATTEMPTS` locks it out for
/// `LOCKOUT_DURATION_MS` from that attempt.
pub proof fn lemma_limit_locks_out(m: Map<Seq<char>, Attempt>, ip: Seq<char>, t: u64, later: u64)
    requires
        m.contains_key(ip) ==> m[ip].count < u32::MAX,
        recorded(m, ip, t).count >= MAX_ATTEMPTS,
        t <= later,
        later - t < LOCKOUT_DURATION_MS,
    ensures
        locked_out(m.insert(ip, recorded(m, ip, t)), ip, later),
        seconds_remaining(m.insert(ip, recorded(m, ip, t)), ip, later) == (LOCKOUT_DURATION_MS - (
        later - t)) / 1000,
{
}

/// Fewer than `MAX_ATTEMPTS` attempts never lock an address out.
pub proof fn lemma_below_limit_not_locked(m: Map<Seq<char>, Attempt>, ip: Seq<char>, now: u64)
    requires
        m.contains_key(ip) ==> m[ip].count < MAX_ATTEMPTS,
    ensures
        !locked_out(m, ip, now),
        after_lockout_check(m, ip, now) == m,
{
}

/// Once the lockout time has passed since the last attempt the address is
/// no longer locked out, the check forgets it, and its next attempt counts
/// as its first.
pub proof fn lemma_lockout_expires(m: Map<Seq<char>, Attempt>, ip: Seq<char>, now: u64, next: u64)
    requires
        m.contains_key(ip),
        m[ip].count >= MAX_ATTEMPTS,
        elapsed_ms(m[ip].last_attempt, now) >= LOCKOUT_DURATION_MS,
    ensures
        !locked_out(m, ip, now),
        !after_lockout_check(m, ip, now).contains_key(ip),
        recorded(after_lockout_check(m, ip, now), ip, next).count == 1,
        seconds_remaining(m, ip, now) == 0,
{
}

/// Resetting an address lifts its lockout.
pub proof fn lemma_reset_unlocks(m: Map<Seq<char>, Attempt>, ip: Seq<char>, now: u64)
    ensures
        !locked_out(m.remove(ip), ip, now),
        seconds_remaining(m.remove(ip), ip, now) == 0,
        recorded(m.remove(ip), ip, now).count == 1,
{
}

/// The lockout time reported never exceeds the lockout length.
pub proof fn lemma_remaining_bounded(m: Map<Seq<char>, Attempt>, ip: Seq<char>, now: u64)
    ensures
        seconds_remaining(m, ip, now) <= LOCKOUT_DURATION_MS / 1000,
{
}

/// The table after attempts of `ip` at each of the given times, in order.
pub open spec fn record_all(m: Map<Seq<char>, Attempt>, ip: Seq<char>, times: Seq<u64>) -> Map<
    Seq<char>,
    Attempt,
>
    decreases times.len(),
{
    if times.len() == 0 {
        m
    } else {
        let before = record_all(m, ip, times.drop_last());
        before.insert(ip, recorded(before, ip, times.last()))
    }
}

/// Recorded attempts of an address are counted one by one and keep the
/// time of the last.
pub proof fn lemma_record_all_counts(m: Map<Seq<char>, Attempt>, ip: Seq<char>, times: Seq<u64>)
    requires
        !m.contains_key(ip),
        times.len() < u32::MAX,
    ensures
        times.len() > 0 ==> record_all(m, ip, times).contains_key(ip) && record_all(
            m,
            ip,
            times,
        )[ip] == (Attempt { count: times.len() as u32, last_attempt: times.last() }),
        times.len() == 0 ==> !record_all(m, ip, times).contains_key(ip),
    decreases times.len(),
{
    if times.len() > 0 {
        lemma_record_all_counts(m, ip, times.drop_last());
    }
}

/// Starting from no attempts, an address whose attempts all fall in the
/// lockout window before `now` is locked out exactly from its
/// `MAX_ATTEMPTS`-th attempt on.
pub proof fn lemma_locked_out_from_the_limit(m: Map<Seq<char>, Attempt>, ip: Seq<char>, times: Seq<u64>, now: u64)
    requires
        !m.contains_key(ip),
        times.len() < u32::MAX,
        times.len() > 0 ==> times.last() <= now && now - times.last() < LOCKOUT_DURATION_MS,
    ensures
        locked_out(record_all(m, ip, times), ip, now) <==> times.len() >= MAX_ATTEMPTS,
{
    lemma_record_all_counts(m, ip, times);
}

// ---------------------------------------------------------------------
// Secret comparison
// ---------------------------------------------------------------------

/// Calls `constant_time_eq::constant_time_eq`, which compares two byte
/// slices in time that depends only on their lengths. Claimed: the result is
/// whether the slices are equal (the source returns `a.len() == b.len()`
/// and no differing byte).
#[verifier::external_body]
fn bytes_equal_in_constant_time(a: &[u8], b: &[u8]) -> (r: bool)
    ensures
        r == (a@ == b@),
{
    constant_time_eq::constant_time_eq(a, b)
}

/// Whether two secrets are equal, compared in constant time over their
/// UTF-8 bytes.
pub fn safe_compare(a: &str, b: &str) -> (r: bool)
    ensures
        r == (a@ == b@),
{
    let r = bytes_equal_in_constant_time(a.as_bytes(), b.as_bytes());
    proof {
        encode_utf8_decode_utf8(a@);
        encode_utf8_decode_utf8(b@);
    }
    r
}

// ---------------------------------------------------------------------
// Client address behind a proxy
// ---------------------------------------------------------------------

/// Whether the peer may speak for the client: proxies are trusted, and the
/// peer is one of the trusted proxies (any peer, when no list is set).
pub open spec fn peer_trusted(trust_proxy: bool, peer: Seq<char>, trusted: Option<Seq<Seq<char>>>) -> bool {
    trust_proxy && match trusted {
        Some(list) => list.contains(peer),
        None => true,
    }
}

/// The address a trusted proxy reports: the first comma-separated entry of
/// `X-Forwarded-For`, trimmed; `None` when the peer is not trusted to
/// report it or the header is absent.
pub open spec fn forwarded_candidate(
    trust_proxy: bool,
    peer: Seq<char>,
    trusted: Option<Seq<Seq<char>>>,
    forwarded_for: Option<Seq<char>>,
) -> Option<Seq<char>> {
    if peer_trusted(trust_proxy, peer, trusted) {
        match forwarded_for {
            Some(h) => Some(trim_ws(split_on(h, seq![','])[0])),
            None => None,
        }
    } else {
        None
    }
}

/// The texts of a list of strings.
pub open spec fn texts_of(v: Seq<String>) -> Seq<Seq<char>> {
    v.map_values(|s: String| s@)
}

/// Whether `peer` is one of `list`.
fn listed(list: &Vec<String>, peer: &str) -> (r: bool)
    ensures
        r == texts_of(list@).contains(peer@),
{
    let p = to_chars(peer);
    let mut i: usize = 0;
    while i < list.len()
        invariant
            i <= list@.len(),
            p@ == peer@,
            forall|k: int| 0 <= k < i ==> list@[k]@ != peer@,
        decreases list.len() - i,
    {
        let e = to_chars(list[i].as_str());
        if chars_eq(e.as_slice(), p.as_slice()) {
            assert(texts_of(list@)[i as int] == peer@);
            return true;
        }
        i = i + 1;
    }
    assert forall|k: int| 0 <= k < texts_of(list@).len() implies texts_of(list@)[k] != peer@ by {
        assert(texts_of(list@)[k] == list@[k]@);
    }
    false
}

/// The text to parse as the client address (see `forwarded_candidate`):
/// `peer` is the address the request came from and `trusted` the list of
/// trusted proxies; the caller falls back to the peer address when this is
/// `None` or does not parse as an IP address.
pub fn forwarded_client_candidate(
    trust_proxy: bool,
    peer: &str,
    trusted: Option<&Vec<String>>,
    forwarded_for: Option<&str>,
) -> (r: Option<String>)
    ensures
        r matches Some(s) ==> forwarded_candidate(
            trust_proxy,
            peer@,
            match trusted {
                Some(l) => Some(texts_of(l@)),
                None => None,
            },
            match forwarded_for {
                Some(h) => Some(h@),
                None => None,
            },
        ) == Some(s@),
        r is None ==> forwarded_candidate(
            trust_proxy,
            peer@,
            match trusted {
                Some(l) => Some(texts_of(l@)),
                None => None,
            },
            match forwarded_for {
                Some(h) => Some(h@),
                None => None,
            },
        ) is None,
{
    if !trust_proxy {
        return None;
    }
    match trusted {
        Some(list) => {
            if !listed(list, peer) {
                return None;
            }
        },
        None => {},
    }
    match forwarded_for {
        Some(h) => {
            let chars = to_chars(h);
            let comma = vec![','];
            assert(comma@ =~= seq![',']);
            let pieces = split_chars(chars.as_slice(), comma.as_slice());
            proof {
                crate::text::lemma_split_on_nonempty(chars@, seq![',']);
            }
            let first = trim_whitespace(pieces[0].as_slice());
            Some(from_chars(first.as_slice()))
        },
        None => None,
    }
}

} // verus!
