use rustdrop::upload::{
    check_extension, check_init_request, dotted_lower_extension, file_name_or, folder_mapping_key,
    generated_batch_id, get_metadata_path, metadata_temp_name, partial_path_of, plan_chunk,
    remapped_upload_path, safe_upload_filename, slashes_for_backslashes, unique_file_candidate,
    unique_folder_candidate, upload_id_from, upload_id_is_safe, upload_path_parts, ChunkPlan,
    InitRejection, UploadState, BATCH_TIMEOUT_MS,
};

#[test]
fn metadata_lives_under_the_metadata_directory() {
    assert_eq!(get_metadata_path("/app/uploads", "abc123"), "/app/uploads/.metadata/abc123.meta");
    assert_eq!(get_metadata_path("/app/uploads/", "x"), "/app/uploads/.metadata/x.meta");
}

#[test]
fn upload_ids_with_dotdot_are_unsafe() {
    assert!(upload_id_is_safe("abc123"));
    assert!(upload_id_is_safe("a.b"));
    assert!(!upload_id_is_safe("../x"));
    assert!(!upload_id_is_safe("a..b"));
}

#[test]
fn init_requests_are_checked_in_order() {
    assert!(matches!(check_init_request("", 10, 5, Some("bad")), Err(InitRejection::MissingFilename)));
    assert!(matches!(
        check_init_request("a.txt", 10, 5, Some("bad")),
        Err(InitRejection::FileTooLarge { limit: 5 })
    ));
    assert!(matches!(check_init_request("a.txt", 5, 5, Some("bad")), Err(InitRejection::InvalidBatchId)));
    assert!(check_init_request("a.txt", 5, 5, Some("1700000000000-abcdefgh")).is_ok());
    assert!(check_init_request("a.txt", 0, 5, None).is_ok());
}

#[test]
fn server_batch_ids_are_time_dash_lowercase() {
    assert_eq!(generated_batch_id(1_700_000_000_000, "AbC123xYz"), "1700000000000-abc123xyz");
    assert_eq!(generated_batch_id(-5, "Q"), "-5-q");
}

#[test]
fn upload_ids_are_lower_hex() {
    assert_eq!(upload_id_from(0), "0");
    assert_eq!(upload_id_from(255), "ff");
    assert_eq!(upload_id_from(u128::MAX), "ffffffffffffffffffffffffffffffff");
}

#[test]
fn upload_names_are_sanitized_and_normalized() {
    assert_eq!(safe_upload_filename("My Folder/sub dir/photo.JPG"), "My_Folder/sub_dir/photo.jpg");
    assert_eq!(safe_upload_filename("../../etc/passwd"), "unnamed_file.txt");
    assert_eq!(safe_upload_filename("C:\\docs\\a.txt"), "C/docs/a.txt");
    assert_eq!(slashes_for_backslashes("a\\b/c"), "a/b/c");
}

#[test]
fn extensions_are_checked_against_the_allow_list() {
    let allowed = vec![".png".to_string(), ".pdf".to_string()];
    assert!(check_extension("photo.PNG", Some(&allowed)).is_ok());
    assert_eq!(check_extension("run.exe", Some(&allowed)), Err(".exe".to_string()));
    assert!(check_extension("README", Some(&allowed)).is_ok());
    assert!(check_extension("run.exe", None).is_ok());
    assert_eq!(dotted_lower_extension("a/b/Report.PDF"), ".pdf");
    assert_eq!(dotted_lower_extension("noext"), "");
}

#[test]
fn unique_names_number_the_folder_or_the_stem() {
    assert_eq!(unique_folder_candidate("/up/Photos", 1), "/up/Photos (1)");
    assert_eq!(unique_folder_candidate("/up/Photos", 12), "/up/Photos (12)");
    assert_eq!(unique_file_candidate("/up/a/report.pdf", "/up", 2), "/up/a/report (2).pdf");
    assert_eq!(unique_file_candidate("/up/archive.tar.gz", "/up", 1), "/up/archive.tar (1).gz");
    assert_eq!(unique_file_candidate("/up/README", "/up", 3), "/up/README (3)");
    assert_eq!(unique_file_candidate("notes.txt", "/up", 1), "notes (1).txt");
}

#[test]
fn partial_files_and_mapping_keys() {
    assert_eq!(partial_path_of("/up/a.txt"), "/up/a.txt.partial");
    assert_eq!(folder_mapping_key("Photos", "17-abcdefgh"), "Photos-17-abcdefgh");
    assert_eq!(metadata_temp_name("ab12", 4_294_967_295), "ab12.4294967295.tmp");
}

#[test]
fn folder_uploads_are_remapped_to_the_batch_folder() {
    let parts = upload_path_parts("Photos/2024/a.jpg");
    assert_eq!(parts, vec!["Photos".to_string(), "2024".to_string(), "a.jpg".to_string()]);
    assert_eq!(upload_path_parts("a.jpg"), vec!["a.jpg".to_string()]);
    assert_eq!(upload_path_parts("//x//y/"), vec!["x".to_string(), "y".to_string()]);
    assert_eq!(remapped_upload_path("/up", &parts, "Photos (1)"), "/up/Photos (1)/2024/a.jpg");
    assert_eq!(file_name_or("/up/Photos (2)", "Photos"), "Photos (2)");
    assert_eq!(file_name_or("/", "Photos"), "Photos");
}

#[test]
fn chunks_never_overflow_the_announced_size() {
    assert!(matches!(plan_chunk(10, 10, 5), ChunkPlan::AlreadyComplete));
    assert!(matches!(plan_chunk(0, 10, 4), ChunkPlan::Write { write_len: 4, received_after: 4 }));
    assert!(matches!(plan_chunk(8, 10, 5), ChunkPlan::Write { write_len: 2, received_after: 10 }));
}

#[test]
fn cleanup_forgets_idle_batches_and_their_folders() {
    let mut state = UploadState::new();
    state.touch_batch("1-aaaaaaaa", 0);
    state.touch_batch("2-bbbbbbbb", BATCH_TIMEOUT_MS);
    state.record_folder_mapping("Photos-1-aaaaaaaa", "Photos".to_string());
    state.record_folder_mapping("Docs-2-bbbbbbbb", "Docs (1)".to_string());
    assert_eq!(state.folder_mapping("Photos-1-aaaaaaaa"), Some("Photos".to_string()));
    assert_eq!(state.cleanup_expired(BATCH_TIMEOUT_MS), 1);
    assert_eq!(state.folder_mapping("Photos-1-aaaaaaaa"), None);
    assert_eq!(state.folder_mapping("Docs-2-bbbbbbbb"), Some("Docs (1)".to_string()));
    assert_eq!(state.cleanup_expired(BATCH_TIMEOUT_MS + 1), 0);
    assert_eq!(state.cleanup_expired(2 * BATCH_TIMEOUT_MS), 1);
    assert_eq!(state.folder_mapping("Docs-2-bbbbbbbb"), None);
}
