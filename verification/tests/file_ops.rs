use rustdrop::file_ops::{
    create_safe_content_disposition, plan_rename, rename_name_is_blank, rename_report,
    request_file_path,
};

#[test]
fn ascii_names_are_quoted() {
    assert_eq!(create_safe_content_disposition("docs/report.pdf"), "attachment; filename=\"report.pdf\"");
    assert_eq!(create_safe_content_disposition("a\"b\\c.txt"), "attachment; filename=\"a_b_c.txt\"");
    assert_eq!(create_safe_content_disposition("tab\there.txt"), "attachment; filename=\"tab_here.txt\"");
}

#[test]
fn other_names_are_also_percent_encoded() {
    assert_eq!(
        create_safe_content_disposition("photos/été.jpg"),
        "attachment; filename=\"_t_.jpg\"; filename*=UTF-8''%C3%A9t%C3%A9%2Ejpg"
    );
    assert_eq!(
        create_safe_content_disposition("😀 x.png"),
        "attachment; filename=\"_ x.png\"; filename*=UTF-8''%F0%9F%98%80%20x%2Epng"
    );
}

#[test]
fn a_path_without_a_file_name_is_used_whole() {
    assert_eq!(create_safe_content_disposition("a/.."), "attachment; filename=\"a/..\"");
}

#[test]
fn request_paths_are_percent_decoded_and_joined() {
    let (decoded, full) = request_file_path("/srv/up", "My%20Docs/r%C3%A9sum%C3%A9.pdf");
    assert_eq!(decoded, "My Docs/résumé.pdf");
    assert_eq!(full, "/srv/up/My Docs/résumé.pdf");
    let (plain, _) = request_file_path("/srv/up", "a/b.txt");
    assert_eq!(plain, "a/b.txt");
    let (bad, _) = request_file_path("/srv/up", "%FF%zz");
    assert_eq!(bad, "\u{FFFD}%zz");
}

#[test]
fn blank_new_names_are_refused() {
    assert!(rename_name_is_blank(""));
    assert!(rename_name_is_blank(" \t\n"));
    assert!(!rename_name_is_blank(" x "));
}

#[test]
fn a_rename_stays_in_the_same_directory() {
    let (name, dest) = plan_rename("/srv/up", "/srv/up/docs/old.txt", "  New Name.TXT ").unwrap();
    assert_eq!(name, "New_Name.txt");
    assert_eq!(dest, "/srv/up/docs/New_Name.txt");
    let (name, dest) = plan_rename("/srv/up", "/srv/up/a", "../../evil").unwrap();
    assert_eq!(name, "evil");
    assert_eq!(dest, "/srv/up/evil");
}

#[test]
fn the_rename_report_names_old_and_new() {
    let (old, rel) = rename_report("/srv/up", "docs/old.txt", "/srv/up/docs/New.txt", "New.txt");
    assert_eq!(old, "old.txt");
    assert_eq!(rel, "docs/New.txt");
    let (_, outside) = rename_report("/srv/up", "x", "/elsewhere/New.txt", "New.txt");
    assert_eq!(outside, "New.txt");
}
