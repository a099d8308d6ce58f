//! Session identifiers: 16 random bytes written as 32 lowercase hex digits.

use vstd::prelude::*;
use crate::size_format::{decimal, decimal_exec};
use crate::text::from_chars;

verus! {

/// Bytes in a session id.
pub const SESSION_ID_BYTES: usize = 16;

/// The SHA-256 digest of a byte string.
pub uninterp spec fn sha256_digest(data: Seq<u8>) -> Seq<u8>;

/// Calls `getrandom::getrandom` to fill `buf` from the operating system's
/// random source. Claimed: the length of `buf` is unchanged. Its contents
/// are random, and on failure unspecified; the result says whether the call
/// succeeded.
#[verifier::external_body]
fn fill_random(buf: &mut Vec<u8>) -> (ok: bool)
    ensures
        final(buf)@.len() == old(buf)@.len(),
{
    getrandom::getrandom(buf.as_mut_slice()).is_ok()
}

/// Reads the system clock: nanoseconds since the Unix epoch, or 0 when the
/// clock reads earlier than the epoch. Nothing is claimed of the value.
#[verifier::external_body]
fn unix_time_nanos() -> u128 {
    std::time::SystemTime::now().duration_since(std::time::UNIX_EPOCH).map(|d| d.as_nanos()).unwrap_or(0)
}

/// Calls `sha2::Sha256::digest`. Claimed: the result is `sha256_digest` of
/// the input and is 32 bytes long (the digest size of SHA-256).
#[verifier::external_body]
fn sha256(data: &[u8]) -> (r: Vec<u8>)
    ensures
        r@ == sha256_digest(data@),
        r@.len() == 32,
{
    <sha2::Sha256 as sha2::Digest>::digest(data).to_vec()
}

pub open spec fn hex_digits() -> Seq<char> {
    seq!['0', '1', '2', '3', '4', '5', '6', '7', '8', '9', 'a', 'b', 'c', 'd', 'e', 'f']
}

/// Each byte as two lowercase hex digits, high nibble first.
pub open spec fn hex_lower(b: Seq<u8>) -> Seq<char>
    decreases b.len(),
{
    if b.len() == 0 {
        Seq::<char>::empty()
    } else {
        hex_lower(b.drop_last()) + seq![
            hex_digits()[(b.last() / 16) as int],
            hex_digits()[(b.last() % 16) as int],
        ]
    }
}

pub open spec fn is_lower_hex(c: char) -> bool {
    hex_digits().contains(c)
}

pub proof fn lemma_hex_lower_shape(b: Seq<u8>)
    ensures
        hex_lower(b).len() == 2 * b.len(),
        forall|i: int| 0 <= i < hex_lower(b).len() ==> is_lower_hex(#[trigger] hex_lower(b)[i]),
    decreases b.len(),
{
    if b.len() > 0 {
        lemma_hex_lower_shape(b.drop_last());
        let h = hex_lower(b);
        let init = hex_lower(b.drop_last());
        assert forall|i: int| 0 <= i < h.len() implies is_lower_hex(#[trigger] h[i]) by {
            if i < init.len() {
                assert(h[i] == init[i]);
            } else if i == init.len() {
                assert(h[i] == hex_digits()[(b.last() / 16) as int]);
            } else {
                assert(h[i] == hex_digits()[(b.last() % 16) as int]);
            }
        }
    }
}

/// The ASCII bytes of the decimal digits of n.
pub open spec fn decimal_bytes(n: nat) -> Seq<u8> {
    decimal(n).map_values(|c: char| c as u8)
}

/// The bytes a session id falls back to when the random source fails: the
/// first 16 bytes of the SHA-256 digest of the clock reading in decimal.
pub open spec fn fallback_bytes(nanos: nat) -> Seq<u8> {
    sha256_digest(decimal_bytes(nanos)).take(16)
}

/// Two lowercase hex digits per byte.
pub fn hex_encode(bytes: &[u8]) -> (r: String)
    ensures
        r@ == hex_lower(bytes@),
{
    let t = ['0', '1', '2', '3', '4', '5', '6', '7', '8', '9', 'a', 'b', 'c', 'd', 'e', 'f'];
    assert(t@ =~= hex_digits());
    let mut out: Vec<char> = Vec::new();
    let mut i: usize = 0;
    while i < bytes.len()
        invariant
            i <= bytes.len(),
            t@ == hex_digits(),
            out@ == hex_lower(bytes@.take(i as int)),
        decreases bytes.len() - i,
    {
        let b = bytes[i];
        assert(bytes@.take(i + 1).drop_last() == bytes@.take(i as int));
        out.push(t[(b / 16) as usize]);
        out.push(t[(b % 16) as usize]);
        i = i + 1;
        assert(out@ =~= hex_lower(bytes@.take(i as int)));
    }
    assert(bytes@.take(bytes.len() as int) == bytes@);
    from_chars(out.as_slice())
}

/// The fallback bytes for a clock reading (see `fallback_bytes`).
pub fn fallback_session_bytes(nanos: u128) -> (r: Vec<u8>)
    ensures
        r@ == fallback_bytes(nanos as nat),
        r@.len() == SESSION_ID_BYTES,
{
    let digits = decimal_exec(nanos);
    let mut text: Vec<u8> = Vec::new();
    let mut i: usize = 0;
    while i < digits.len()
        invariant
            i <= digits.len(),
            text@ == digits@.take(i as int).map_values(|c: char| c as u8),
        decreases digits.len() - i,
    {
        text.push(digits[i] as u8);
        i = i + 1;
        assert(text@ =~= digits@.take(i as int).map_values(|c: char| c as u8));
    }
    assert(digits@.take(digits.len() as int) == digits@);
    let digest = sha256(text.as_slice());
    let mut out: Vec<u8> = Vec::new();
    let mut j: usize = 0;
    while j < 16
        invariant
            j <= 16,
            digest@.len() == 32,
            out@ == digest@.take(j as int),
        decreases 16 - j,
    {
        out.push(digest[j]);
        j = j + 1;
        assert(out@ =~= digest@.take(j as int));
    }
    out
}

/// The session id made of what the sources gave: the random bytes when
/// the draw succeeded, otherwise the fallback bytes of the clock reading,
/// written as 32 lowercase hex digits.
pub fn session_id_from(drawn: bool, random: &[u8], nanos: u128) -> (r: String)
    requires
        random@.len() == SESSION_ID_BYTES,
    ensures
        r@ == hex_lower(
            if drawn {
                random@
            } else {
                fallback_bytes(nanos as nat)
            },
        ),
        r@.len() == 32,
        forall|i: int| 0 <= i < r@.len() ==> is_lower_hex(#[trigger] r@[i]),
{
    let r = if drawn {
        hex_encode(random)
    } else {
        let fallback = fallback_session_bytes(nanos);
        hex_encode(fallback.as_slice())
    };
    proof {
        lemma_hex_lower_shape(if drawn { random@ } else { fallback_bytes(nanos as nat) });
    }
    r
}

/// A fresh session id: 16 bytes from the operating system's random source
/// (or, should the draw fail, from the SHA-256 digest of the clock
/// reading), written as 32 lowercase hex digits. A fallback id matches no
/// registered session, so it is simply rejected later. The clock is read
/// only when the draw failed; what the sources gave is turned into the id
/// by `session_id_from`.
pub fn generate_session_id() -> (r: String)
    ensures
        r@.len() == 32,
        forall|i: int| 0 <= i < r@.len() ==> is_lower_hex(#[trigger] r@[i]),
{
    let mut bytes: Vec<u8> = Vec::new();
    while bytes.len() < SESSION_ID_BYTES
        invariant
            bytes@.len() <= SESSION_ID_BYTES,
        decreases SESSION_ID_BYTES - bytes@.len(),
    {
        bytes.push(0u8);
    }
    let drawn = fill_random(&mut bytes);
    let nanos = if drawn {
        0
    } else {
        unix_time_nanos()
    };
    session_id_from(drawn, bytes.as_slice(), nanos)
}

} // verus!
