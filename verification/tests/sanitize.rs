use rustdrop::sanitize::{
    is_valid_batch_id, sanitize_filename_is_total, sanitize_filename_safe,
    sanitize_filename_checked, sanitize_path_checked, sanitize_path_is_total,
    sanitize_path_preserve_dirs_safe,
};

#[test]
fn empty_name_becomes_unnamed_file() {
    assert_eq!(sanitize_filename_safe(""), "unnamed_file.txt");
}

#[test]
fn spaces_and_plus_become_underscores_and_extension_is_lowered() {
    assert_eq!(sanitize_filename_safe("my file+name.TXT"), "my_file_name.txt");
}

#[test]
fn directories_are_dropped_from_a_file_name() {
    assert_eq!(sanitize_filename_safe("../etc/passwd"), "passwd");
}

#[test]
fn windows_device_names_get_a_suffix() {
    assert_eq!(sanitize_filename_safe("CON.txt"), "CON_file.txt");
    assert_eq!(sanitize_filename_safe("lpt1"), "lpt1_file");
}

#[test]
fn underscores_collapse_and_edges_are_trimmed() {
    assert_eq!(sanitize_filename_safe("__a__b__.Pdf"), "a_b.pdf");
    assert_eq!(sanitize_filename_safe(".hidden"), "hidden");
    assert_eq!(sanitize_filename_safe("---.txt"), "file.txt");
}

#[test]
fn unsafe_characters_are_removed() {
    assert_eq!(sanitize_filename_safe("a<b>c|d?.png"), "abcd.png");
    assert_eq!(sanitize_filename_safe("x.tar.gz"), "x.tar.gz");
    assert_eq!(sanitize_filename_safe("héllo wörld.png"), "héllo_wörld.png");
}

#[test]
fn long_names_are_cut_to_200_bytes() {
    let name = format!("{}.txt", "a".repeat(250));
    let out = sanitize_filename_safe(&name);
    assert_eq!(out, format!("{}.txt", "a".repeat(200)));
}

#[test]
fn a_cut_inside_a_character_is_detected() {
    // 199 ASCII bytes and a two-byte character: byte 200 falls inside it.
    let name = format!("{}é", "a".repeat(199));
    assert!(!sanitize_filename_is_total(&name));
    assert!(sanitize_filename_is_total("plain.txt"));
    assert!(sanitize_filename_is_total(""));
}

#[test]
fn sanitized_names_never_start_with_dot_underscore_or_dash() {
    for name in ["._x", "-rf", "__init__.py", ". . .", "+++", "😀.png"] {
        let out = sanitize_filename_safe(name);
        assert!(!out.is_empty());
        assert!(!out.starts_with('.') && !out.starts_with('_') && !out.starts_with('-'), "{out}");
        assert!(!out.contains('/') && !out.contains('\\'));
    }
}

#[test]
fn folder_paths_keep_their_directories() {
    assert_eq!(sanitize_path_preserve_dirs_safe("folder/sub/file name.txt"), "folder/sub/file_name.txt");
    assert_eq!(sanitize_path_preserve_dirs_safe("a\\b\\c.txt"), "a/b/c.txt");
    assert_eq!(sanitize_path_preserve_dirs_safe("./x/./y.txt"), "x/y.txt");
}

#[test]
fn traversal_in_a_folder_path_is_refused() {
    assert_eq!(sanitize_path_preserve_dirs_safe("a/../b"), "unnamed_file.txt");
    assert_eq!(sanitize_path_preserve_dirs_safe("..\\secret"), "unnamed_file.txt");
    assert_eq!(sanitize_path_preserve_dirs_safe(""), "unnamed_file.txt");
    assert_eq!(sanitize_path_preserve_dirs_safe("//"), "unnamed_file.txt");
    assert!(sanitize_path_is_total("a/b"));
}

#[test]
fn batch_ids_have_digits_a_dash_and_eight_or_nine_lower_alphanumerics() {
    assert!(is_valid_batch_id("1700000000000-abcdefgh"));
    assert!(is_valid_batch_id("1700000000000-abcdefgh9"));
    assert!(is_valid_batch_id("-abcdefgh"));
    assert!(!is_valid_batch_id("1700000000000-abc"));
    assert!(!is_valid_batch_id("1700000000000-abcdefghij"));
    assert!(!is_valid_batch_id("abc-abcdefgh"));
    assert!(!is_valid_batch_id("1-ABCDEFGH"));
    assert!(!is_valid_batch_id("1-abcdefgh-x"));
    assert!(!is_valid_batch_id("1-abcdéfgh"));
    assert!(!is_valid_batch_id("nodash"));
}

#[test]
fn traversal_is_refused_before_any_piece_is_cut() {
    let long = format!("{}é", "a".repeat(199));
    let path = format!("photos/{}/../../etc/passwd", long);
    assert!(sanitize_path_is_total(&path));
    assert_eq!(sanitize_path_preserve_dirs_safe(&path), "unnamed_file.txt");
    assert!(!sanitize_path_is_total(&format!("photos/{}", long)));
}

#[test]
fn checked_sanitising_refuses_only_undefined_inputs() {
    let long = format!("{}é", "a".repeat(199));
    assert_eq!(sanitize_filename_checked(&long), None);
    assert_eq!(sanitize_filename_checked("a b.TXT"), Some(sanitize_filename_safe("a b.TXT")));
    assert_eq!(sanitize_path_checked(&format!("x/{}", long)), None);
    assert_eq!(sanitize_path_checked("x/../y"), Some("unnamed_file.txt".to_string()));
    assert_eq!(sanitize_path_checked("x/y z"), Some("x/y_z".to_string()));
}
