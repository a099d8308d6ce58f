use rustdrop::sanitize::is_valid_batch_id;
use rustdrop::client::{
    chunk_end, chunk_failed_message, chunk_failure, client_batch_id, count_files_in_dir,
    encode_path, file_count_text, flatten_files, format_date, retry_delay_ms, retry_status,
    share_link, ChunkFailure, ClientState, Command, FrontendConfig, ListedItem, PageLayout, QueuedFile,
};

fn config(pin_required: bool, auto_upload: bool) -> FrontendConfig {
    FrontendConfig {
        site_title: "Drop".to_string(),
        auto_upload,
        show_file_list: true,
        pin_required,
        pin_length: 4,
        max_file_size: 1 << 30,
        client_max_retries: 3,
    }
}

fn s(x: &str) -> String {
    x.to_string()
}

fn toast(m: &str, k: &str) -> Command {
    Command::ShowToast(s(m), s(k))
}

#[test]
fn settings_with_a_pin_ask_for_the_session() {
    let mut c = ClientState::new(s("light"));
    let (redraw, cmds) = c.load_config(Ok(config(true, false)));
    assert!(redraw);
    assert_eq!(cmds, vec![Command::SetTitle(s("Drop - Simple File Upload")), Command::CheckSession]);
    assert_eq!(c.pin_digits, vec![s(""); 4]);
    assert!(!c.is_authenticated);
}

#[test]
fn settings_without_a_pin_sign_in_at_once() {
    let mut c = ClientState::new(s("dark"));
    let (_, cmds) = c.load_config(Ok(config(false, false)));
    assert_eq!(cmds, vec![Command::SetTitle(s("Drop - Simple File Upload")), Command::RefreshFiles]);
    assert!(c.is_authenticated);
    assert_eq!(c.refresh_files(), (false, vec![Command::FetchFiles]));
}

#[test]
fn failed_settings_are_reported() {
    let mut c = ClientState::new(s("dark"));
    let (_, cmds) = c.load_config(Err(s("HTTP 500")));
    assert_eq!(cmds, vec![toast("Failed to load configuration: HTTP 500", "error")]);
    assert_eq!(c.refresh_files(), (false, vec![]));
}

#[test]
fn typing_the_pin_moves_along_and_submits() {
    let mut c = ClientState::new(s("light"));
    c.load_config(Ok(config(true, false)));
    assert_eq!(c.pin_digit_input(0, "a7b").1, vec![Command::SetPinInput(0, s("7")), Command::FocusPin(1)]);
    assert_eq!(c.pin_digit_input(1, "x").1, vec![Command::SetPinInput(1, s(""))]);
    c.pin_digit_input(1, "2");
    c.pin_digit_input(2, "3");
    assert_eq!(c.pin_digit_input(3, "4").1, vec![Command::SetPinInput(3, s("4")), Command::VerifyPin]);
    assert_eq!(c.verify_pin(), (false, vec![Command::SubmitPin(s("7234"))]));
}

#[test]
fn an_incomplete_pin_is_not_submitted() {
    let mut c = ClientState::new(s("light"));
    c.load_config(Ok(config(true, false)));
    c.pin_digit_input(0, "1");
    assert_eq!(c.pin_digit_input(3, "9").1, vec![Command::SetPinInput(3, s("9"))]);
    assert_eq!(c.verify_pin(), (false, vec![]));
}

#[test]
fn backspace_in_an_empty_input_clears_the_previous_one() {
    let mut c = ClientState::new(s("light"));
    c.load_config(Ok(config(true, false)));
    c.pin_digit_input(0, "1");
    assert_eq!(c.pin_backspace(1), (true, vec![Command::SetPinInput(0, s("")), Command::FocusPin(0)]));
    assert_eq!(c.pin_digits[0], "");
    assert_eq!(c.pin_backspace(0), (false, vec![]));
}

#[test]
fn pasting_fills_from_the_start() {
    let mut c = ClientState::new(s("light"));
    c.load_config(Ok(config(true, false)));
    let (_, cmds) = c.pin_paste("1-2 3");
    assert_eq!(
        cmds,
        vec![
            Command::SetPinInput(0, s("1")),
            Command::SetPinInput(1, s("2")),
            Command::SetPinInput(2, s("3")),
            Command::FocusPin(3),
        ]
    );
    let (_, cmds) = c.pin_paste("987654");
    assert_eq!(cmds.last(), Some(&Command::VerifyPin));
    assert_eq!(cmds.len(), 5);
    assert_eq!(c.pin_digits, vec![s("9"), s("8"), s("7"), s("6")]);
    assert_eq!(c.pin_paste("abc"), (false, vec![]));
}

#[test]
fn too_many_attempts_lock_the_inputs() {
    let mut c = ClientState::new(s("light"));
    c.load_config(Ok(config(true, false)));
    let (_, cmds) = c.pin_verification_result(Err(s(
        "Too many PIN verification attempts. Please wait before trying again.",
    )));
    assert!(cmds.is_empty());
    assert!(c.is_lockout);
    assert_eq!(c.pin_digit_input(0, "1"), (false, vec![]));
    assert_eq!(c.pin_paste("1234"), (false, vec![]));
    assert_eq!(c.pin_backspace(1), (false, vec![]));
    assert_eq!(c.pin_digit_input(99, "7"), (false, vec![]));
    assert_eq!(c.pin_backspace(99), (false, vec![]));
    assert_eq!(c.pin_digits, vec![s(""); 4]);
}

#[test]
fn a_wrong_pin_clears_the_inputs() {
    let mut c = ClientState::new(s("light"));
    c.load_config(Ok(config(true, false)));
    c.pin_paste("1234");
    let (_, cmds) = c.pin_verification_result(Err(s("Invalid PIN")));
    assert_eq!(cmds, vec![Command::ClearPinInputs]);
    assert_eq!(c.error_message, Some(s("Invalid PIN")));
    assert_eq!(c.pin_digits, vec![s(""); 4]);
    assert!(!c.is_lockout);
    let (_, cmds) = c.pin_verification_result(Ok(false));
    assert_eq!(cmds, vec![Command::ClearPinInputs]);
}

#[test]
fn an_unknown_session_changes_nothing_and_success_signs_in() {
    let mut c = ClientState::new(s("light"));
    c.load_config(Ok(config(true, false)));
    assert_eq!(c.pin_verification_result(Err(s(""))), (true, vec![]));
    assert_eq!(c.error_message, None);
    let (_, cmds) = c.pin_verification_result(Ok(true));
    assert_eq!(cmds, vec![toast("Authentication successful", "success"), Command::RefreshFiles]);
    assert!(c.is_authenticated);
    let (_, cmds) = c.logout();
    assert_eq!(cmds, vec![Command::Logout, Command::ClearPinInputs]);
    assert!(!c.is_authenticated);
}

#[test]
fn theme_toggles() {
    let mut c = ClientState::new(s("light"));
    assert_eq!(c.toggle_theme().1, vec![Command::SaveTheme(s("dark"))]);
    assert_eq!(c.toggle_theme().1, vec![Command::SaveTheme(s("light"))]);
    let mut d = ClientState::new(s("odd"));
    d.toggle_theme();
    assert_eq!(d.theme, "light");
}

#[test]
fn drag_highlight_redraws_only_on_change() {
    let mut c = ClientState::new(s("light"));
    assert_eq!(c.drag_over(true), (true, vec![]));
    assert_eq!(c.drag_over(true), (false, vec![]));
    assert_eq!(c.drag_over(false), (true, vec![]));
}

#[test]
fn an_upload_batch_from_selection_to_completion() {
    let mut c = ClientState::new(s("light"));
    c.load_config(Ok(config(false, true)));
    let files = vec![
        QueuedFile { name: s("a.txt"), path: s("dir/a.txt"), size: 10 },
        QueuedFile { name: s("b.txt"), path: s("b.txt"), size: 0 },
    ];
    assert_eq!(c.select_files(files).1, vec![Command::StartUploads]);
    assert_eq!(c.start_uploads(), (true, vec![Command::RunUploads(3)]));
    assert_eq!(c.start_uploads(), (false, vec![]));
    assert_eq!(c.active_uploads.get("dir/a.txt").unwrap().status, "queued");
    c.upload_init("dir/a.txt");
    assert_eq!(c.active_uploads.get("dir/a.txt").unwrap().status, "initializing");
    c.upload_progress("dir/a.txt", 5, s("uploading..."), None);
    assert_eq!(c.active_uploads.get("dir/a.txt").unwrap().uploaded, 5);
    let (_, cmds) = c.upload_completed("dir/a.txt");
    assert_eq!(cmds, vec![toast("File uploaded: a.txt", "success")]);
    assert!(c.is_uploading);
    let (_, cmds) = c.upload_failed("b.txt", "HTTP 500");
    assert_eq!(cmds, vec![toast("Upload failed for b.txt: HTTP 500", "error"), Command::RefreshFiles]);
    assert!(!c.is_uploading);
    assert!(c.upload_queue.is_empty());
    let b = c.active_uploads.get("b.txt").unwrap();
    assert_eq!(b.status, "Error: HTTP 500");
    assert_eq!(b.error_color, Some(s("var(--danger-color)")));
    let a = c.active_uploads.get("dir/a.txt").unwrap();
    assert_eq!((a.uploaded, a.status.as_str()), (10, "complete"));
}

#[test]
fn the_last_completion_ends_the_batch() {
    let mut c = ClientState::new(s("light"));
    c.select_files(vec![QueuedFile { name: s("a"), path: s("a"), size: 1 }]);
    assert_eq!(c.start_uploads(), (true, vec![Command::RunUploads(5)]));
    let (_, cmds) = c.upload_completed("a");
    assert_eq!(
        cmds,
        vec![toast("File uploaded: a", "success"), Command::RefreshFiles, Command::ClearFileInputs]
    );
    assert_eq!(c.drop_failed("boom").1, vec![toast("Failed to process drop: boom", "error")]);
}

#[test]
fn notices_get_increasing_ids_and_expire() {
    let mut c = ClientState::new(s("light"));
    assert_eq!(c.add_toast(s("one"), s("info")).1, vec![Command::ExpireToast(0)]);
    assert_eq!(c.add_toast(s("two"), s("error")).1, vec![Command::ExpireToast(1)]);
    c.remove_toast(0);
    assert_eq!(c.toasts.len(), 1);
    assert_eq!(c.toasts[0].id, 1);
    assert_eq!(c.toasts[0].message, "two");
    c.remove_toast(7);
    assert_eq!(c.toasts.len(), 1);
}

#[test]
fn rename_dialog() {
    let mut c = ClientState::new(s("light"));
    c.start_rename(s("docs/a.txt"), s("a.txt"));
    assert_eq!(c.rename_input, "a.txt");
    c.rename_input_changed(s("   "));
    assert_eq!(c.confirm_rename(), (false, vec![]));
    assert!(c.rename_target.is_some());
    c.rename_input_changed(s("  b.txt "));
    assert_eq!(c.confirm_rename(), (false, vec![Command::SubmitRename(s("docs/a.txt"), s("b.txt"))]));
    assert!(c.rename_target.is_none());
    let (_, cmds) = c.rename_result(Ok(s("b.txt")));
    assert_eq!(cmds, vec![toast("Renamed to: b.txt", "success"), Command::RefreshFiles]);
    assert_eq!(c.rename_input, "");
    assert_eq!(c.rename_result(Err(s("exists"))).1, vec![toast("Rename failed: exists", "error")]);
    c.start_rename(s("x"), s("x"));
    c.cancel_rename();
    assert!(c.rename_target.is_none());
}

#[test]
fn deletions_ask_first_and_report() {
    let c = ClientState::new(s("light"));
    assert_eq!(
        c.delete_file("docs/a.txt"),
        (false, vec![Command::ConfirmDelete(s("docs/a.txt"), s("Are you sure you want to delete \"a.txt\"?"))])
    );
    assert_eq!(c.delete_result(Ok(s("docs/a.txt"))).1, vec![toast("Deleted: a.txt", "success"), Command::RefreshFiles]);
    assert_eq!(c.delete_result(Err(s("nope"))).1, vec![toast("Delete failed: nope", "error")]);
    assert_eq!(c.file_list_failed("HTTP 401").1, vec![toast("Failed to load files: HTTP 401", "error")]);
}

#[test]
fn chunks_retries_and_backoff() {
    assert_eq!(chunk_end(0, 10), 10);
    assert_eq!(chunk_end(0, 3 * 1024 * 1024), 1024 * 1024);
    assert_eq!(chunk_end(2 * 1024 * 1024, 3 * 1024 * 1024 - 1), 3 * 1024 * 1024 - 1);
    assert_eq!(retry_delay_ms(1), 1000);
    assert_eq!(retry_delay_ms(2), 2000);
    assert_eq!(retry_delay_ms(5), 16000);
    assert_eq!(retry_delay_ms(6), 30000);
    assert_eq!(retry_delay_ms(55), 30000);
    assert_eq!(retry_status(2, 5), "Retrying attempt 2/5...");
    assert_eq!(chunk_failure(1, 5, "HTTP 404 Not Found"), ChunkFailure::AssumeComplete);
    assert_eq!(chunk_failure(0, 5, "HTTP 404 Not Found"), ChunkFailure::Retry);
    assert_eq!(chunk_failure(5, 5, "HTTP 500"), ChunkFailure::GiveUp);
    assert_eq!(chunk_failed_message("HTTP 500"), "Chunk upload failed: HTTP 500");
}

#[test]
fn request_paths_are_encoded_per_segment() {
    assert_eq!(encode_path("My Docs/résumé (1).pdf"), "My%20Docs/r%C3%A9sum%C3%A9%20(1).pdf");
    assert_eq!(encode_path("a/b?c#d&e"), "a/b%3Fc%23d%26e");
    assert_eq!(encode_path("-_.!~*'()"), "-_.!~*'()");
    assert_eq!(share_link("https://x.example", "a b/c"), "https://x.example/api/files/download/a%20b/c");
}

#[test]
fn texts_of_the_page() {
    assert_eq!(format_date("2024-05-06T07:08:09Z"), "2024-05-06");
    assert_eq!(format_date("short"), "short");
    assert_eq!(file_count_text(1), "1 file");
    assert_eq!(file_count_text(0), "0 files");
    assert_eq!(file_count_text(12), "12 files");
    assert_eq!(client_batch_id(1_700_000_000_000, 0xdead_beef), "1700000000000-deadbeef");
    assert_eq!(client_batch_id(5, 0xf), "5-f");
}

fn listed_file(name: &str) -> ListedItem {
    ListedItem::File {
        name: s(name),
        path: s(name),
        size: 1,
        formatted_size: s("1.00 Bytes"),
        upload_date: s("2024-01-01T00:00:00Z"),
        extension: s(""),
    }
}

fn listed_dir(name: &str, children: Vec<ListedItem>) -> ListedItem {
    ListedItem::Directory {
        name: s(name),
        path: s(name),
        size: 0,
        formatted_size: s("0 Bytes"),
        upload_date: s("2024-01-01T00:00:00Z"),
        children,
    }
}

#[test]
fn received_listings_are_counted_and_flattened() {
    let items = vec![
        listed_dir("A", vec![listed_file("x"), listed_dir("B", vec![listed_file("y")])]),
        listed_file("z"),
        listed_dir("Empty", vec![]),
    ];
    assert_eq!(count_files_in_dir(&items), 3);
    let flat = flatten_files(&items);
    let names: Vec<String> = flat
        .iter()
        .map(|i| match i {
            ListedItem::File { name, .. } => name.clone(),
            ListedItem::Directory { .. } => panic!("directory in a flat list"),
        })
        .collect();
    assert_eq!(names, vec![s("x"), s("y"), s("z")]);
}

#[test]
fn client_batch_ids_pass_the_server_check_with_eight_hex_digits() {
    assert!(is_valid_batch_id(&client_batch_id(1_700_000_000_000, 0x1000_0000)));
    assert!(is_valid_batch_id(&client_batch_id(0, u32::MAX)));
    assert!(!is_valid_batch_id(&client_batch_id(1_700_000_000_000, 0x0fff_ffff)));
    assert!(!is_valid_batch_id(&client_batch_id(1_700_000_000_000, 0)));
}

#[test]
fn page_shows_what_the_state_calls_for() {
    let mut c = ClientState::new(s("light"));
    let hidden = PageLayout {
        pin_form: true,
        queue: false,
        upload_button: false,
        file_list: false,
        logout: false,
        rename_dialog: false,
    };
    assert_eq!(c.layout(), hidden);
    c.load_config(Ok(config(false, false)));
    c.select_files(vec![QueuedFile { name: s("a"), path: s("a"), size: 1 }]);
    assert_eq!(
        c.layout(),
        PageLayout { pin_form: false, queue: true, upload_button: true, file_list: true, logout: false, rename_dialog: false }
    );
    c.start_uploads();
    assert!(!c.layout().queue && !c.layout().upload_button);
    c.start_rename(s("a"), s("a"));
    assert!(c.layout().rename_dialog);

    let mut c = ClientState::new(s("light"));
    c.load_config(Ok(config(false, true)));
    c.select_files(vec![QueuedFile { name: s("a"), path: s("a"), size: 1 }]);
    assert!(c.layout().queue || c.is_uploading);
    assert!(!c.layout().upload_button);
}

#[test]
fn toast_ids_stay_increasing_and_below_the_next_id() {
    let mut c = ClientState::new(s("light"));
    for m in ["a", "b", "c", "d"] {
        c.add_toast(s(m), s("info"));
    }
    c.remove_toast(1);
    c.add_toast(s("e"), s("info"));
    let ids: Vec<usize> = c.toasts.iter().map(|t| t.id).collect();
    assert_eq!(ids, vec![0, 2, 3, 4]);
    assert!(ids.windows(2).all(|w| w[0] < w[1]));
    assert!(ids.iter().all(|&i| i < c.next_toast_id));
}
