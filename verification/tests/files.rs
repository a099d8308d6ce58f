use rustdrop::files::{
    calculate_total_size, child_relative_path, count_files, directory_entry, file_entry,
    is_listed_name, listing_totals, sort_items, FileItem,
};

fn file(name: &str, size: u64) -> FileItem {
    file_entry(name.to_string(), "", size, 0, 0)
}

fn dir(name: &str, children: Vec<FileItem>) -> FileItem {
    directory_entry(name.to_string(), "", 0, 0, children)
}

fn name_of(i: &FileItem) -> &str {
    match i {
        FileItem::File { name, .. } | FileItem::Directory { name, .. } => name,
    }
}

#[test]
fn hidden_entries_are_not_listed() {
    assert!(!is_listed_name(".metadata"));
    assert!(!is_listed_name(".env"));
    assert!(is_listed_name("a.txt"));
    assert!(is_listed_name(""));
}

#[test]
fn entries_carry_their_relative_path() {
    assert_eq!(child_relative_path("", "a.txt"), "a.txt");
    assert_eq!(child_relative_path("Photos/2024", "a.jpg"), "Photos/2024/a.jpg");
}

#[test]
fn a_file_entry_has_its_formatted_size_and_extension() {
    match file_entry("Report.PDF".to_string(), "docs", 1536, 1_700_000_000, 5) {
        FileItem::File { name, path, size, formatted_size, upload_secs, upload_nanos, extension } => {
            assert_eq!(name, "Report.PDF");
            assert_eq!(path, "docs/Report.PDF");
            assert_eq!(size, 1536);
            assert_eq!(formatted_size, "1.50KB");
            assert_eq!((upload_secs, upload_nanos), (1_700_000_000, 5));
            assert_eq!(extension, ".pdf");
        }
        FileItem::Directory { .. } => panic!("expected a file"),
    }
    match file("Makefile", 0) {
        FileItem::File { extension, .. } => assert_eq!(extension, ""),
        FileItem::Directory { .. } => panic!("expected a file"),
    }
}

#[test]
fn a_directory_sums_its_entries() {
    let d = dir("Photos", vec![file("a.jpg", 1024), file("b.jpg", 2048)]);
    match &d {
        FileItem::Directory { size, formatted_size, children, path, .. } => {
            assert_eq!(*size, 3072);
            assert_eq!(formatted_size, "3.00KB");
            assert_eq!(children.len(), 2);
            assert_eq!(path, "Photos");
        }
        FileItem::File { .. } => panic!("expected a directory"),
    }
}

#[test]
fn totals_count_files_below_directories() {
    let items = vec![
        dir("A", vec![file("x", 1), dir("B", vec![file("y", 2), file("z", 3)]), dir("Empty", vec![])]),
        file("w", 10),
    ];
    assert_eq!(count_files(&items), 4);
    assert_eq!(calculate_total_size(&items), 16);
    let (files, size, text) = listing_totals(&items);
    assert_eq!((files, size, text.as_str()), (4, 16, "16.00B"));
    assert_eq!(count_files(&[]), 0);
}

#[test]
fn directories_come_first_then_names_in_order() {
    let items = vec![
        file("b.txt", 1),
        dir("zeta", vec![]),
        file("B.txt", 1),
        dir("alpha", vec![]),
        file("a.txt", 1),
        file("é.txt", 1),
    ];
    let sorted = sort_items(items);
    let names: Vec<&str> = sorted.iter().map(name_of).collect();
    assert_eq!(names, vec!["alpha", "zeta", "B.txt", "a.txt", "b.txt", "é.txt"]);
}

#[test]
fn sorting_agrees_with_string_order() {
    let words = ["delta", "Delta", "d", "", "dé", "de", "z", "Ω", "a b", "a"];
    let items: Vec<FileItem> = words.iter().map(|w| file(w, 0)).collect();
    let sorted = sort_items(items);
    let names: Vec<String> = sorted.iter().map(|i| name_of(i).to_string()).collect();
    let mut expected: Vec<String> = words.iter().map(|w| w.to_string()).collect();
    expected.sort();
    assert_eq!(names, expected);
}

#[test]
fn entries_with_the_same_kind_and_name_keep_their_order() {
    let size_of = |i: &FileItem| match i {
        FileItem::File { size, .. } => *size,
        FileItem::Directory { .. } => u64::MAX,
    };
    let sorted = sort_items(vec![file("b", 1), file("a", 2), file("b", 3), dir("z", vec![]), file("a", 4)]);
    let got: Vec<(String, u64)> = sorted.iter().map(|i| (name_of(i).to_string(), size_of(i))).collect();
    assert_eq!(
        got,
        vec![
            ("z".to_string(), u64::MAX),
            ("a".to_string(), 2),
            ("a".to_string(), 4),
            ("b".to_string(), 1),
            ("b".to_string(), 3)
        ]
    );
}
