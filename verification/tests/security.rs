use rustdrop::security::{
    forwarded_client_candidate, get_lockout_time_remaining, get_max_attempts, is_locked_out,
    record_attempt, reset_attempts, safe_compare, LoginAttempts, LOCKOUT_DURATION_MS, MAX_ATTEMPTS,
};

#[test]
fn five_attempts_lock_an_address_out() {
    let mut attempts = LoginAttempts::new();
    let ip = "10.0.0.1";
    for i in 0..4u64 {
        let a = record_attempt(&mut attempts, ip, 1_000 + i);
        assert_eq!(a.count, (i + 1) as u32);
        assert!(!is_locked_out(&mut attempts, ip, 1_000 + i));
    }
    let a = record_attempt(&mut attempts, ip, 2_000);
    assert_eq!(a.count, MAX_ATTEMPTS);
    assert_eq!(a.last_attempt, 2_000);
    assert!(is_locked_out(&mut attempts, ip, 2_000));
    assert!(is_locked_out(&mut attempts, ip, 2_000 + LOCKOUT_DURATION_MS - 1));
    assert!(!is_locked_out(&mut attempts, "10.0.0.2", 2_000));
}

#[test]
fn a_lockout_expires_and_the_count_starts_again() {
    let mut attempts = LoginAttempts::new();
    let ip = "10.0.0.1";
    for _ in 0..5 {
        record_attempt(&mut attempts, ip, 0);
    }
    assert!(!is_locked_out(&mut attempts, ip, LOCKOUT_DURATION_MS));
    // The expired entry was forgotten: the next attempt counts from one.
    assert_eq!(record_attempt(&mut attempts, ip, LOCKOUT_DURATION_MS).count, 1);
}

#[test]
fn reset_forgets_an_address() {
    let mut attempts = LoginAttempts::new();
    for _ in 0..5 {
        record_attempt(&mut attempts, "a", 10);
    }
    reset_attempts(&mut attempts, "a");
    assert!(!is_locked_out(&mut attempts, "a", 10));
    assert_eq!(get_lockout_time_remaining(&attempts, "a", 10), 0);
}

#[test]
fn remaining_time_is_in_whole_seconds() {
    let mut attempts = LoginAttempts::new();
    record_attempt(&mut attempts, "a", 1_000);
    assert_eq!(get_lockout_time_remaining(&attempts, "a", 1_000), 900);
    assert_eq!(get_lockout_time_remaining(&attempts, "a", 1_999), 899);
    assert_eq!(get_lockout_time_remaining(&attempts, "a", 1_000 + LOCKOUT_DURATION_MS), 0);
    // A clock that reads earlier than the attempt counts as no time passed.
    assert_eq!(get_lockout_time_remaining(&attempts, "a", 0), 900);
    assert_eq!(get_lockout_time_remaining(&attempts, "b", 1_000), 0);
}

#[test]
fn max_attempts_is_five() {
    assert_eq!(get_max_attempts(), 5);
}

#[test]
fn secrets_compare_by_content() {
    assert!(safe_compare("123456", "123456"));
    assert!(!safe_compare("123456", "123457"));
    assert!(!safe_compare("123456", "1234567"));
    assert!(safe_compare("", ""));
}

#[test]
fn forwarded_address_is_the_first_entry_trimmed() {
    assert_eq!(
        forwarded_client_candidate(true, "10.0.0.1", None, Some(" 203.0.113.7 , 10.0.0.1")),
        Some("203.0.113.7".to_string())
    );
    assert_eq!(forwarded_client_candidate(true, "10.0.0.1", None, Some("")), Some(String::new()));
    assert_eq!(forwarded_client_candidate(true, "10.0.0.1", None, None), None);
    assert_eq!(forwarded_client_candidate(false, "10.0.0.1", None, Some("203.0.113.7")), None);
}

#[test]
fn forwarded_address_counts_only_from_a_trusted_proxy() {
    let proxies = vec!["10.0.0.1".to_string(), "10.0.0.2".to_string()];
    assert_eq!(
        forwarded_client_candidate(true, "10.0.0.2", Some(&proxies), Some("203.0.113.7")),
        Some("203.0.113.7".to_string())
    );
    assert_eq!(forwarded_client_candidate(true, "198.51.100.9", Some(&proxies), Some("203.0.113.7")), None);
    assert_eq!(forwarded_client_candidate(true, "10.0.0.1", Some(&vec![]), Some("203.0.113.7")), None);
}

#[test]
fn locked_out_exactly_from_the_fifth_attempt() {
    let mut a = LoginAttempts::new();
    for n in 1..=7u64 {
        record_attempt(&mut a, "203.0.113.7", 1000 * n);
        assert_eq!(is_locked_out(&mut a, "203.0.113.7", 10_000), n >= get_max_attempts() as u64);
    }
}
