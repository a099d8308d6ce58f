use rustdrop::server::{
    allowed_origins, is_secure_request, log_dir_choice, notification_text, replace_text,
};

#[test]
fn replace_works_left_to_right_without_overlap() {
    assert_eq!(replace_text("aaa", "aa", "b"), "ba");
    assert_eq!(replace_text("x{a}y{a}", "{a}", "-"), "x-y-");
    assert_eq!(replace_text("abc", "zz", "q"), "abc");
    assert_eq!(replace_text("", "a", "b"), "");
}

#[test]
fn notifications_fill_the_template() {
    let text = notification_text(
        "New: {filename} ({size}), storage {storage}",
        "my photo.JPG",
        1536,
        Some("kb"),
        3 * 1024 * 1024,
    );
    assert_eq!(text, "New: my_photo.jpg (1.50KB), storage 3.00MB");
    assert_eq!(notification_text("{size}{size}", "a", 1, None, 0), "1.00B1.00B");
}

#[test]
fn log_directory_choice() {
    assert_eq!(log_dir_choice(Some("/var/log/rd"), false), Some("/var/log/rd".to_string()));
    assert_eq!(log_dir_choice(None, true), Some("/app/data/log".to_string()));
    assert_eq!(log_dir_choice(None, false), Some("/app/log".to_string()));
    assert_eq!(log_dir_choice(Some("off"), true), None);
    assert_eq!(log_dir_choice(Some("none"), true), None);
    assert_eq!(log_dir_choice(Some("false"), true), None);
    assert_eq!(log_dir_choice(Some("OFF"), true), Some("OFF".to_string()));
}

#[test]
fn cors_origins_from_the_setting() {
    assert_eq!(allowed_origins(" * "), None);
    assert_eq!(
        allowed_origins("https://a.example, https://b.example"),
        Some(vec!["https://a.example".to_string(), "https://b.example".to_string()])
    );
    assert_eq!(allowed_origins(""), Some(vec![String::new()]));
}

#[test]
fn hsts_follows_the_forwarded_protocol_or_the_base_url() {
    assert!(is_secure_request(Some("HTTPS"), "http://x"));
    assert!(!is_secure_request(Some("http"), "https://x"));
    assert!(!is_secure_request(Some("https "), "https://x"));
    assert!(is_secure_request(None, "https://x"));
    assert!(!is_secure_request(None, "http://x"));
}
