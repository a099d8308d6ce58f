use rustdrop::init_flow::{InitAction, InitEvent, InitFlow, InitReply};
use rustdrop::upload::UploadMetadata;

fn s(x: &str) -> String {
    x.to_string()
}

#[test]
fn single_file_takes_a_free_name() {
    let (mut flow, a) = InitFlow::new("/up", "a.txt", "b1", "id1", 10, 5);
    assert_eq!(a, InitAction::CheckWithin(s("/up/a.txt")));
    assert_eq!(flow.step(InitEvent::Within(true)), InitAction::CreateDir(s("/up")));
    assert_eq!(flow.step(InitEvent::Finished), InitAction::CheckExists(s("/up/a.txt")));
    assert_eq!(flow.step(InitEvent::Exists(true)), InitAction::CheckExists(s("/up/a (1).txt")));
    assert_eq!(flow.step(InitEvent::Exists(true)), InitAction::CheckExists(s("/up/a (2).txt")));
    assert_eq!(flow.step(InitEvent::Exists(false)), InitAction::CheckWithin(s("/up/a (2).txt")));
    assert_eq!(flow.step(InitEvent::Within(true)), InitAction::CreateDir(s("/up")));
    assert_eq!(
        flow.step(InitEvent::Finished),
        InitAction::CheckWithin(s("/up/a (2).txt.partial"))
    );
    let expected = UploadMetadata {
        upload_id: s("id1"),
        original_filename: s("a.txt"),
        file_path: s("/up/a (2).txt"),
        partial_file_path: s("/up/a (2).txt.partial"),
        file_size: 10,
        bytes_received: 0,
        batch_id: s("b1"),
        created_at: 5,
        last_activity: 5,
    };
    assert_eq!(flow.step(InitEvent::Within(true)), InitAction::WriteMetadata(expected));
    assert_eq!(flow.step(InitEvent::Written(true)), InitAction::Respond(InitReply::Accepted));
}

#[test]
fn zero_byte_folder_upload_gets_a_unique_folder() {
    let (mut flow, a) = InitFlow::new("/up", "docs/x.md", "b1", "id2", 0, 7);
    assert_eq!(a, InitAction::CheckWithin(s("/up/docs/x.md")));
    assert_eq!(flow.step(InitEvent::Within(true)), InitAction::LookupMapping(s("docs-b1")));
    assert_eq!(flow.step(InitEvent::Mapping(None)), InitAction::CheckExists(s("/up/docs")));
    assert_eq!(flow.step(InitEvent::Exists(true)), InitAction::CheckExists(s("/up/docs")));
    assert_eq!(flow.step(InitEvent::Exists(true)), InitAction::CheckExists(s("/up/docs (1)")));
    assert_eq!(flow.step(InitEvent::Exists(false)), InitAction::CreateDir(s("/up/docs (1)")));
    assert_eq!(
        flow.step(InitEvent::Finished),
        InitAction::RecordMapping(s("docs-b1"), s("docs (1)"))
    );
    assert_eq!(flow.step(InitEvent::Finished), InitAction::CheckWithin(s("/up/docs (1)/x.md")));
    assert_eq!(flow.step(InitEvent::Within(true)), InitAction::CheckExists(s("/up/docs (1)/x.md")));
    assert_eq!(flow.step(InitEvent::Exists(false)), InitAction::CheckWithin(s("/up/docs (1)/x.md")));
    assert_eq!(flow.step(InitEvent::Within(true)), InitAction::CreateDir(s("/up/docs (1)")));
    assert_eq!(
        flow.step(InitEvent::Finished),
        InitAction::CheckWithin(s("/up/docs (1)/x.md.partial"))
    );
    match flow.step(InitEvent::Within(true)) {
        InitAction::WriteMetadata(m) => {
            assert_eq!(m.file_path, "/up/docs (1)/x.md");
            assert_eq!(m.original_filename, "docs/x.md");
            assert_eq!(m.file_size, 0);
        }
        other => panic!("unexpected {:?}", other),
    }
    assert_eq!(flow.step(InitEvent::Written(true)), InitAction::WriteEmptyFile(s("/up/docs (1)/x.md")));
    assert_eq!(flow.step(InitEvent::Written(true)), InitAction::DeleteMetadata(s("id2")));
    assert_eq!(flow.step(InitEvent::Finished), InitAction::Notify);
    assert_eq!(flow.step(InitEvent::Finished), InitAction::Respond(InitReply::Accepted));
}

#[test]
fn recorded_folder_mapping_is_reused() {
    let (mut flow, _) = InitFlow::new("/up", "docs/sub/x.md", "b1", "id3", 4, 1);
    assert_eq!(flow.step(InitEvent::Within(true)), InitAction::LookupMapping(s("docs-b1")));
    assert_eq!(
        flow.step(InitEvent::Mapping(Some(s("docs (2)")))),
        InitAction::CheckWithin(s("/up/docs (2)/sub/x.md"))
    );
    assert_eq!(flow.step(InitEvent::Within(false)), InitAction::Respond(InitReply::InvalidPath));
}

#[test]
fn path_outside_the_directory_is_refused_for_good() {
    let (mut flow, _) = InitFlow::new("/up", "a.txt", "b1", "id4", 4, 1);
    assert_eq!(flow.step(InitEvent::Within(false)), InitAction::Respond(InitReply::InvalidPath));
    assert_eq!(flow.step(InitEvent::Within(true)), InitAction::Respond(InitReply::InvalidPath));
}

#[test]
fn an_answer_of_another_kind_repeats_the_request() {
    let (mut flow, _) = InitFlow::new("/up", "a.txt", "b1", "id5", 4, 1);
    assert_eq!(flow.step(InitEvent::Exists(true)), InitAction::CheckWithin(s("/up/a.txt")));
    assert_eq!(flow.step(InitEvent::Finished), InitAction::CheckWithin(s("/up/a.txt")));
}

fn settle(flow: &mut InitFlow) {
    assert_eq!(flow.step(InitEvent::Within(true)), InitAction::CreateDir(s("/up")));
    assert_eq!(flow.step(InitEvent::Finished), InitAction::CheckExists(s("/up/a.txt")));
    assert_eq!(flow.step(InitEvent::Exists(false)), InitAction::CheckWithin(s("/up/a.txt")));
    assert_eq!(flow.step(InitEvent::Within(true)), InitAction::CreateDir(s("/up")));
    assert_eq!(flow.step(InitEvent::Finished), InitAction::CheckWithin(s("/up/a.txt.partial")));
}

#[test]
fn failed_metadata_write_fails_the_upload() {
    let (mut flow, _) = InitFlow::new("/up", "a.txt", "b1", "id6", 4, 1);
    settle(&mut flow);
    assert!(matches!(flow.step(InitEvent::Within(true)), InitAction::WriteMetadata(_)));
    assert_eq!(flow.step(InitEvent::Written(false)), InitAction::Respond(InitReply::MetadataFailed));
}

#[test]
fn failed_empty_file_cleans_up_and_fails() {
    let (mut flow, _) = InitFlow::new("/up", "a.txt", "b1", "id7", 0, 1);
    settle(&mut flow);
    assert_eq!(flow.step(InitEvent::Within(false)), InitAction::Respond(InitReply::InvalidPath));
    let (mut flow, _) = InitFlow::new("/up", "a.txt", "b1", "id7", 0, 1);
    settle(&mut flow);
    assert!(matches!(flow.step(InitEvent::Within(true)), InitAction::WriteMetadata(_)));
    assert_eq!(flow.step(InitEvent::Written(true)), InitAction::WriteEmptyFile(s("/up/a.txt")));
    assert_eq!(flow.step(InitEvent::Written(false)), InitAction::DeleteMetadata(s("id7")));
    assert_eq!(flow.step(InitEvent::Finished), InitAction::Respond(InitReply::EmptyFileFailed));
}
