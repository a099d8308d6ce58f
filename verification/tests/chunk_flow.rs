use rustdrop::chunk_flow::{AppendOutcome, ChunkEvent, ChunkFlow, ChunkReply, ChunkRequest, MoveOutcome};
use rustdrop::sanitize::is_valid_batch_id;
use rustdrop::upload::UploadMetadata;

fn s(x: &str) -> String {
    x.to_string()
}

fn record(received: u64, size: u64, batch: &str) -> UploadMetadata {
    UploadMetadata {
        upload_id: s("u1"),
        original_filename: s("a.txt"),
        file_path: s("/up/a.txt"),
        partial_file_path: s("/up/a.txt.partial"),
        file_size: size,
        bytes_received: received,
        batch_id: s(batch),
        created_at: 1,
        last_activity: 2,
    }
}

#[test]
fn empty_chunk_is_refused() {
    let (_, req) = ChunkFlow::new("u1", 0);
    assert_eq!(req, ChunkRequest::Respond(ChunkReply::Refused(400, s("Empty chunk received"))));
}

#[test]
fn unknown_upload_is_refused() {
    let (mut f, req) = ChunkFlow::new("u1", 4);
    assert_eq!(req, ChunkRequest::ReadMetadata(s("u1")));
    assert_eq!(
        f.step(ChunkEvent::Metadata(None)),
        ChunkRequest::Respond(ChunkReply::Refused(404, s("Upload session not found or already completed")))
    );
}

#[test]
fn chunk_is_appended_and_counted() {
    let batch = "1700000000000-abcd1234";
    assert!(is_valid_batch_id(batch));
    let (mut f, _) = ChunkFlow::new("u1", 4);
    assert_eq!(f.step(ChunkEvent::Metadata(Some(record(0, 10, batch)))), ChunkRequest::TouchBatch(s(batch)));
    assert_eq!(f.step(ChunkEvent::Finished), ChunkRequest::Append(s("/up/a.txt.partial"), 4));
    assert_eq!(
        f.step(ChunkEvent::Appended(AppendOutcome::Appended)),
        ChunkRequest::SaveMetadata(record(4, 10, batch))
    );
    assert_eq!(f.step(ChunkEvent::Finished), ChunkRequest::Respond(ChunkReply::Progress(4, 10)));
}

#[test]
fn last_chunk_is_cut_and_completes_the_upload() {
    let (mut f, _) = ChunkFlow::new("u1", 5);
    assert_eq!(f.step(ChunkEvent::Metadata(Some(record(8, 10, "")))), ChunkRequest::Append(s("/up/a.txt.partial"), 2));
    assert_eq!(f.step(ChunkEvent::Appended(AppendOutcome::Appended)), ChunkRequest::SaveMetadata(record(10, 10, "")));
    assert_eq!(f.step(ChunkEvent::Finished), ChunkRequest::Move(s("/up/a.txt.partial"), s("/up/a.txt")));
    assert_eq!(f.step(ChunkEvent::Moved(MoveOutcome::Moved)), ChunkRequest::DeleteMetadata(s("u1")));
    assert_eq!(f.step(ChunkEvent::Finished), ChunkRequest::Notify(s("a.txt"), 10));
    assert_eq!(f.step(ChunkEvent::Finished), ChunkRequest::Respond(ChunkReply::Progress(10, 10)));
}

#[test]
fn completion_when_the_partial_file_vanished_or_the_move_failed() {
    let (mut f, _) = ChunkFlow::new("u1", 2);
    f.step(ChunkEvent::Metadata(Some(record(8, 10, "bad batch"))));
    f.step(ChunkEvent::Appended(AppendOutcome::Appended));
    f.step(ChunkEvent::Finished);
    assert_eq!(f.step(ChunkEvent::Moved(MoveOutcome::Missing)), ChunkRequest::DeleteMetadata(s("u1")));
    assert_eq!(f.step(ChunkEvent::Finished), ChunkRequest::Respond(ChunkReply::Progress(10, 10)));

    let (mut f, _) = ChunkFlow::new("u1", 2);
    f.step(ChunkEvent::Metadata(Some(record(8, 10, ""))));
    f.step(ChunkEvent::Appended(AppendOutcome::Appended));
    f.step(ChunkEvent::Finished);
    assert_eq!(f.step(ChunkEvent::Moved(MoveOutcome::Failed)), ChunkRequest::Respond(ChunkReply::Progress(10, 10)));
}

#[test]
fn chunk_for_a_complete_upload_finalises_again() {
    let (mut f, _) = ChunkFlow::new("u1", 3);
    assert_eq!(f.step(ChunkEvent::Metadata(Some(record(12, 10, "")))), ChunkRequest::CheckExists(s("/up/a.txt")));
    assert_eq!(f.step(ChunkEvent::Exists(false)), ChunkRequest::CheckExists(s("/up/a.txt.partial")));
    assert_eq!(f.step(ChunkEvent::Exists(true)), ChunkRequest::Move(s("/up/a.txt.partial"), s("/up/a.txt")));
    assert_eq!(f.step(ChunkEvent::Moved(MoveOutcome::Failed)), ChunkRequest::DeleteMetadata(s("u1")));
    assert_eq!(f.step(ChunkEvent::Finished), ChunkRequest::Respond(ChunkReply::Progress(10, 10)));

    let (mut f, _) = ChunkFlow::new("u1", 3);
    f.step(ChunkEvent::Metadata(Some(record(10, 10, ""))));
    assert_eq!(f.step(ChunkEvent::Exists(true)), ChunkRequest::DeleteMetadata(s("u1")));
}

#[test]
fn failed_append_is_refused() {
    let (mut f, _) = ChunkFlow::new("u1", 3);
    f.step(ChunkEvent::Metadata(Some(record(0, 10, ""))));
    assert_eq!(
        f.step(ChunkEvent::Appended(AppendOutcome::OpenFailed)),
        ChunkRequest::Respond(ChunkReply::Refused(500, s("Failed to open partial file")))
    );
    let (mut f, _) = ChunkFlow::new("u1", 3);
    f.step(ChunkEvent::Metadata(Some(record(0, 10, ""))));
    assert_eq!(
        f.step(ChunkEvent::Appended(AppendOutcome::WriteFailed)),
        ChunkRequest::Respond(ChunkReply::Refused(500, s("Failed to write chunk")))
    );
}

#[test]
fn chunk_end_past_the_integer_range_is_flagged() {
    let (f, _) = ChunkFlow::new("u1", u64::MAX);
    assert!(f.undefined_on(&ChunkEvent::Metadata(Some(record(5, 10, "")))));
    assert!(!f.undefined_on(&ChunkEvent::Metadata(Some(record(10, 10, "")))));
}
