use rustdrop::file_flows::{DeleteFlow, FileEvent, FileReply, FileRequest, ReadFlow, ReadKind, RenameFlow};

fn s(x: &str) -> String {
    x.to_string()
}

fn refused(status: u16, message: &str) -> FileRequest {
    FileRequest::Respond(FileReply::Refused(status, s(message)))
}

#[test]
fn rename_moves_within_the_directory() {
    let (mut f, req) = RenameFlow::new("/up", "docs%2Fa.txt", " b.txt ");
    assert_eq!(req, FileRequest::CheckWithin(s("/up/docs/a.txt"), false));
    assert_eq!(f.step(FileEvent::Within(true)), FileRequest::Stat(s("/up/docs/a.txt")));
    assert!(!f.undefined_on(&FileEvent::Stat(Some(false))));
    assert_eq!(f.step(FileEvent::Stat(Some(false))), FileRequest::CheckWithin(s("/up/docs/b.txt"), false));
    assert_eq!(f.step(FileEvent::Within(true)), FileRequest::CheckWithin(s("/up/docs/a.txt"), true));
    assert_eq!(f.step(FileEvent::Within(true)), FileRequest::CheckExists(s("/up/docs/b.txt")));
    assert_eq!(f.step(FileEvent::Exists(false)), FileRequest::Rename(s("/up/docs/a.txt"), s("/up/docs/b.txt")));
    assert_eq!(
        f.step(FileEvent::Done(true)),
        FileRequest::Respond(FileReply::Renamed(
            s("File renamed successfully"),
            s("a.txt"),
            s("b.txt"),
            s("docs/b.txt")
        ))
    );
}

#[test]
fn rename_of_a_directory_says_so() {
    let (mut f, _) = RenameFlow::new("/up", "old", "new");
    f.step(FileEvent::Within(true));
    assert_eq!(f.step(FileEvent::Stat(Some(true))), FileRequest::CheckWithin(s("/up/new"), false));
    f.step(FileEvent::Within(true));
    f.step(FileEvent::Within(true));
    f.step(FileEvent::Exists(false));
    match f.step(FileEvent::Done(true)) {
        FileRequest::Respond(FileReply::Renamed(message, old, new, path)) => {
            assert_eq!(message, "Directory renamed successfully");
            assert_eq!(old, "old");
            assert_eq!(new, "new");
            assert_eq!(path, "new");
        }
        other => panic!("unexpected {:?}", other),
    }
}

#[test]
fn rename_refusals() {
    let (_, req) = RenameFlow::new("/up", "a.txt", "   ");
    assert_eq!(req, refused(400, "New name is required"));

    let (mut f, _) = RenameFlow::new("/up", "a.txt", "b.txt");
    assert_eq!(f.step(FileEvent::Within(false)), refused(403, "Access denied"));

    let (mut f, _) = RenameFlow::new("/up", "a.txt", "b.txt");
    f.step(FileEvent::Within(true));
    assert_eq!(f.step(FileEvent::Stat(None)), refused(404, "File or directory not found"));

    let (mut f, _) = RenameFlow::new("/up", "a.txt", "b.txt");
    f.step(FileEvent::Within(true));
    f.step(FileEvent::Stat(Some(false)));
    assert_eq!(f.step(FileEvent::Within(false)), refused(403, "Invalid destination path"));

    let (mut f, _) = RenameFlow::new("/up", "a.txt", "b.txt");
    f.step(FileEvent::Within(true));
    f.step(FileEvent::Stat(Some(false)));
    f.step(FileEvent::Within(true));
    assert_eq!(f.step(FileEvent::Within(false)), refused(403, "Invalid source path"));

    let (mut f, _) = RenameFlow::new("/up", "a.txt", "b.txt");
    f.step(FileEvent::Within(true));
    f.step(FileEvent::Stat(Some(false)));
    f.step(FileEvent::Within(true));
    f.step(FileEvent::Within(true));
    assert_eq!(
        f.step(FileEvent::Exists(true)),
        refused(409, "A file or directory with that name already exists")
    );

    let (mut f, _) = RenameFlow::new("/up", "a.txt", "b.txt");
    f.step(FileEvent::Within(true));
    f.step(FileEvent::Stat(Some(false)));
    f.step(FileEvent::Within(true));
    f.step(FileEvent::Within(true));
    f.step(FileEvent::Exists(false));
    assert_eq!(f.step(FileEvent::Done(false)), refused(500, "Failed to rename item"));
    assert_eq!(f.step(FileEvent::Done(true)), refused(500, "Failed to rename item"));
}

#[test]
fn delete_removes_what_it_finds() {
    let (mut f, req) = DeleteFlow::new("/up", "docs");
    assert_eq!(req, FileRequest::CheckWithin(s("/up/docs"), false));
    assert_eq!(f.step(FileEvent::Within(true)), FileRequest::Stat(s("/up/docs")));
    assert_eq!(f.step(FileEvent::Stat(Some(true))), FileRequest::RemoveDir(s("/up/docs")));
    assert_eq!(
        f.step(FileEvent::Done(true)),
        FileRequest::Respond(FileReply::Deleted(s("Directory deleted successfully")))
    );

    let (mut f, _) = DeleteFlow::new("/up", "a%20b.txt");
    f.step(FileEvent::Within(true));
    assert_eq!(f.step(FileEvent::Stat(Some(false))), FileRequest::RemoveFile(s("/up/a b.txt")));
    assert_eq!(
        f.step(FileEvent::Done(true)),
        FileRequest::Respond(FileReply::Deleted(s("File deleted successfully")))
    );
}

#[test]
fn delete_refusals() {
    let (mut f, _) = DeleteFlow::new("/up", "../etc");
    assert_eq!(f.step(FileEvent::Within(false)), refused(403, "Access denied"));

    let (mut f, _) = DeleteFlow::new("/up", "a.txt");
    f.step(FileEvent::Within(true));
    assert_eq!(f.step(FileEvent::Stat(None)), refused(404, "File or directory not found"));

    let (mut f, _) = DeleteFlow::new("/up", "d");
    f.step(FileEvent::Within(true));
    f.step(FileEvent::Stat(Some(true)));
    assert_eq!(f.step(FileEvent::Done(false)), refused(500, "Failed to delete directory"));

    let (mut f, _) = DeleteFlow::new("/up", "a.txt");
    f.step(FileEvent::Within(true));
    f.step(FileEvent::Stat(Some(false)));
    assert_eq!(f.step(FileEvent::Done(false)), refused(500, "Failed to delete file"));
}

#[test]
fn reads_look_only_inside_the_directory() {
    let (mut f, req) = ReadFlow::new(ReadKind::Info, "/up", "docs%2Fa.txt");
    assert_eq!(req, FileRequest::CheckWithin(s("/up/docs/a.txt"), false));
    assert_eq!(f.step(FileEvent::Within(true)), FileRequest::Stat(s("/up/docs/a.txt")));
    assert_eq!(
        f.step(FileEvent::Stat(Some(false))),
        FileRequest::Respond(FileReply::Found(s("docs/a.txt"), s("/up/docs/a.txt")))
    );

    let (mut f, _) = ReadFlow::new(ReadKind::Info, "/up", "a.txt");
    f.step(FileEvent::Within(true));
    assert_eq!(f.step(FileEvent::Stat(None)), refused(404, "File not found"));

    let (mut f, _) = ReadFlow::new(ReadKind::Download, "/up", "a.txt");
    assert_eq!(f.step(FileEvent::Within(true)), FileRequest::Open(s("/up/a.txt")));
    assert_eq!(f.step(FileEvent::Done(false)), refused(404, "File not found"));

    let (mut f, _) = ReadFlow::new(ReadKind::Download, "/up", "a.txt");
    f.step(FileEvent::Within(true));
    assert_eq!(f.step(FileEvent::Done(true)), FileRequest::Respond(FileReply::Found(s("a.txt"), s("/up/a.txt"))));

    let (mut f, _) = ReadFlow::new(ReadKind::Download, "/up", "..%2Fetc%2Fpasswd");
    assert_eq!(f.step(FileEvent::Within(false)), refused(403, "Access denied"));
}
