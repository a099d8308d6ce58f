use rustdrop::client::chunk_end;
use rustdrop::transfer::{FileTransfer, TransferEvent, TransferNote, TransferRequest};
use rustdrop::upload::{plan_chunk, ChunkPlan};

const MIB: u64 = 1024 * 1024;

fn progress(n: u64, status: &str, color: Option<&str>) -> TransferNote {
    TransferNote::Progress(n, status.to_string(), color.map(|c| c.to_string()))
}

fn uploaded(n: u64) -> TransferNote {
    TransferNote::Uploaded(n, "uploading...".to_string())
}

#[test]
fn file_is_sent_in_mebibyte_chunks() {
    let (mut t, notes, req) = FileTransfer::new(2 * MIB + 5, 3);
    assert_eq!(notes, vec![progress(0, "initializing...", None)]);
    assert_eq!(req, TransferRequest::InitUpload);
    assert_eq!(t.step(TransferEvent::InitOk), (vec![TransferNote::Initialized], TransferRequest::ReadChunk(0, MIB)));
    assert_eq!(t.step(TransferEvent::ChunkRead), (vec![], TransferRequest::SendChunk));
    assert_eq!(t.step(TransferEvent::ChunkSent), (vec![uploaded(MIB)], TransferRequest::ReadChunk(MIB, 2 * MIB)));
    assert_eq!(t.step(TransferEvent::ChunkRead), (vec![], TransferRequest::SendChunk));
    assert_eq!(
        t.step(TransferEvent::ChunkSent),
        (vec![uploaded(2 * MIB)], TransferRequest::ReadChunk(2 * MIB, 2 * MIB + 5))
    );
    assert_eq!(t.step(TransferEvent::ChunkRead), (vec![], TransferRequest::SendChunk));
    assert_eq!(
        t.step(TransferEvent::ChunkSent),
        (vec![uploaded(2 * MIB + 5), TransferNote::Completed], TransferRequest::Stop)
    );
}

#[test]
fn empty_file_completes_at_once() {
    let (mut t, _, _) = FileTransfer::new(0, 3);
    assert_eq!(
        t.step(TransferEvent::InitOk),
        (
            vec![TransferNote::Initialized, progress(0, "complete", None), TransferNote::Completed],
            TransferRequest::Stop
        )
    );
}

#[test]
fn refused_start_fails_the_file() {
    let (mut t, _, _) = FileTransfer::new(10, 3);
    assert_eq!(
        t.step(TransferEvent::InitFailed("File too large".to_string())),
        (vec![TransferNote::Failed("File too large".to_string())], TransferRequest::Stop)
    );
}

#[test]
fn failed_chunk_is_retried_with_growing_waits_then_cancelled() {
    let (mut t, _, _) = FileTransfer::new(10, 2);
    t.step(TransferEvent::InitOk);
    t.step(TransferEvent::ChunkRead);
    let warn = Some("var(--warning-color)");
    assert_eq!(
        t.step(TransferEvent::ChunkFailed("HTTP 500".to_string())),
        (vec![progress(0, "Retrying attempt 1/2...", warn)], TransferRequest::Wait(1000))
    );
    assert_eq!(t.step(TransferEvent::Waited), (vec![], TransferRequest::SendChunk));
    assert_eq!(
        t.step(TransferEvent::ChunkFailed("HTTP 500".to_string())),
        (vec![progress(0, "Retrying attempt 2/2...", warn)], TransferRequest::Wait(2000))
    );
    assert_eq!(t.step(TransferEvent::Waited), (vec![], TransferRequest::SendChunk));
    assert_eq!(t.step(TransferEvent::ChunkFailed("HTTP 502".to_string())), (vec![], TransferRequest::Cancel));
    assert_eq!(
        t.step(TransferEvent::Cancelled),
        (vec![TransferNote::Failed("Chunk upload failed: HTTP 502".to_string())], TransferRequest::Stop)
    );
}

#[test]
fn not_found_on_a_retry_means_complete() {
    let (mut t, _, _) = FileTransfer::new(3 * MIB, 5);
    t.step(TransferEvent::InitOk);
    t.step(TransferEvent::ChunkRead);
    t.step(TransferEvent::ChunkSent);
    t.step(TransferEvent::ChunkRead);
    let (notes, req) = t.step(TransferEvent::ChunkFailed("HTTP 404".to_string()));
    assert_eq!(req, TransferRequest::Wait(1000));
    assert_eq!(notes, vec![progress(MIB, "Retrying attempt 1/5...", Some("var(--warning-color)"))]);
    t.step(TransferEvent::Waited);
    assert_eq!(
        t.step(TransferEvent::ChunkFailed("HTTP 404 Not Found".to_string())),
        (vec![progress(3 * MIB, "complete", None), TransferNote::Completed], TransferRequest::Stop)
    );
}

#[test]
fn unreadable_chunk_fails_without_cancelling() {
    let (mut t, _, _) = FileTransfer::new(10, 5);
    t.step(TransferEvent::InitOk);
    assert_eq!(
        t.step(TransferEvent::ReadFailed("Slice failed: x".to_string())),
        (vec![TransferNote::Failed("Slice failed: x".to_string())], TransferRequest::Stop)
    );
    assert_eq!(t.step(TransferEvent::ChunkSent), (vec![], TransferRequest::Stop));
}

#[test]
fn outcome_of_another_kind_repeats_the_request() {
    let (mut t, _, _) = FileTransfer::new(10, 5);
    assert_eq!(t.step(TransferEvent::ChunkSent), (vec![], TransferRequest::InitUpload));
    assert!(!t.retry_overflows(&TransferEvent::ChunkFailed("x".to_string())));
}

#[test]
fn retry_past_the_wait_limit_is_flagged() {
    let (mut t, _, _) = FileTransfer::new(10, 100);
    t.step(TransferEvent::InitOk);
    t.step(TransferEvent::ChunkRead);
    for i in 1..=55u64 {
        let fail = TransferEvent::ChunkFailed("HTTP 500".to_string());
        assert!(!t.retry_overflows(&fail));
        let (_, req) = t.step(fail);
        assert_eq!(req, TransferRequest::Wait(if i < 6 { 1000 << (i - 1) } else { 30000 }));
        t.step(TransferEvent::Waited);
    }
    assert!(t.retry_overflows(&TransferEvent::ChunkFailed("HTTP 500".to_string())));
}

#[test]
fn server_takes_each_client_chunk_whole() {
    let size = 2 * MIB + 5;
    let mut position = 0;
    while position < size {
        let end = chunk_end(position, size);
        match plan_chunk(position, size, end - position) {
            ChunkPlan::Write { write_len, received_after } => {
                assert_eq!(write_len, end - position);
                assert_eq!(received_after, end);
            }
            ChunkPlan::AlreadyComplete => panic!("chunk at {} refused", position),
        }
        position = end;
    }
    assert_eq!(position, size);
}
