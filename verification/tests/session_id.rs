use std::collections::HashSet;

use rustdrop::session_id::{fallback_session_bytes, generate_session_id, hex_encode, session_id_from, SESSION_ID_BYTES};

#[test]
fn session_id_is_32_hex_chars() {
    let id = generate_session_id();
    assert_eq!(id.len(), SESSION_ID_BYTES * 2);
    assert!(id.chars().all(|c| c.is_ascii_hexdigit()));
}

#[test]
fn session_ids_are_unique() {
    let mut seen = HashSet::new();
    for _ in 0..256 {
        let id = generate_session_id();
        assert!(seen.insert(id), "collision in 256 generated ids");
    }
}

#[test]
fn session_id_is_lower_case() {
    let id = generate_session_id();
    assert!(id.chars().all(|c| c.is_ascii_digit() || ('a'..='f').contains(&c)));
}

#[test]
fn hex_encode_writes_two_lower_digits_per_byte() {
    assert_eq!(hex_encode(&[0x00, 0x0f, 0xa5, 0xff]), "000fa5ff");
    assert_eq!(hex_encode(&[]), "");
}

#[test]
fn fallback_bytes_are_the_sha256_prefix_of_the_decimal_time() {
    // SHA-256("1") = 6b86b273ff34fce19d6b804eff5a3f5747ada4eaa22f1d49c01e52ddb7875b4b
    let bytes = fallback_session_bytes(1);
    assert_eq!(bytes.len(), SESSION_ID_BYTES);
    assert_eq!(hex_encode(&bytes), "6b86b273ff34fce19d6b804eff5a3f57");
    assert_ne!(fallback_session_bytes(2), bytes);
}

#[test]
fn session_id_from_uses_the_draw_or_the_clock() {
    let random: Vec<u8> = (0u8..16).collect();
    assert_eq!(session_id_from(true, &random, 7), "000102030405060708090a0b0c0d0e0f");
    assert_eq!(session_id_from(false, &random, 7), hex_encode(&fallback_session_bytes(7)));
    assert_ne!(session_id_from(false, &random, 7), session_id_from(true, &random, 7));
}
