use hat::connection::{
    authenticate, check_upload, conclude, file_header, greeting, next_action, parse_upload,
    Admission, LineAction, Progress, ReadOutcome, Report, Transfer, UploadError, CHUNK_SIZE,
    MAX_FILE_SIZE,
};

fn act(read: &str) -> LineAction {
    next_action(ReadOutcome::Line(read.to_owned()))
}

#[test]
fn connection_is_greeted() {
    assert_eq!(greeting(), "SYS authenticating");
}

#[test]
fn token_opens_the_door() {
    for supplied in ["ABC", "ABC\n", "ABC\r\n", "ABC\n\n"] {
        assert!(matches!(
            authenticate(supplied, "ABC"),
            Admission::Accept("SYS Welcome to the club, buddy!")
        ));
    }
    for supplied in ["", "\n", "abc\n", "ABCD\n", " ABC\n", "ABC \n"] {
        assert!(matches!(
            authenticate(supplied, "ABC"),
            Admission::Refuse("ERR invalid access token")
        ));
    }
}

#[test]
fn lines_are_passed_on() {
    assert!(matches!(act("MSG hello\r\n"), LineAction::Forward(line) if line == "MSG hello"));
    assert!(matches!(act("PUTX\n"), LineAction::Forward(line) if line == "PUTX"));
    assert!(matches!(act("PUT\n"), LineAction::Forward(line) if line == "PUT"));
    assert!(matches!(act(" \n"), LineAction::Forward(line) if line == " "));
}

#[test]
fn uploads_are_told_apart() {
    assert!(matches!(act("PUT a.txt 3\n"), LineAction::Upload(rest) if rest == "a.txt 3"));
    assert!(matches!(act("PUT \n"), LineAction::Upload(rest) if rest.is_empty()));
}

#[test]
fn empty_lines_are_skipped() {
    assert!(matches!(act("\n"), LineAction::Skip));
    assert!(matches!(act("\r\n\r\n"), LineAction::Skip));
}

#[test]
fn long_lines_are_refused() {
    let mut line = "a".repeat(4095);
    line.push('\n');
    assert!(matches!(act(&line), LineAction::Forward(_)));
    line.insert(0, 'a');
    assert!(matches!(act(&line), LineAction::Reply("ERR message is too long")));
    // The limit is one of bytes.
    let wide = "é".repeat(2049);
    assert!(matches!(act(&wide), LineAction::Reply("ERR message is too long")));
}

#[test]
fn reading_ends_with_the_connection() {
    assert!(matches!(next_action(ReadOutcome::Closed), LineAction::Stop));
    assert!(matches!(next_action(ReadOutcome::Failed), LineAction::Stop));
}

fn refused(rest: &str) -> UploadError {
    match parse_upload(rest) {
        Ok(_) => panic!("{rest:?} is understood"),
        Err(error) => error,
    }
}

#[test]
fn uploads_are_announced() {
    let request = parse_upload("notes.txt 12").ok().unwrap();
    assert_eq!((request.name.as_str(), request.size), ("notes.txt", 12));
    let request = parse_upload(" notes.txt  0").ok().unwrap();
    assert_eq!((request.name.as_str(), request.size), ("notes.txt", 0));
    let request = parse_upload(&format!("a {MAX_FILE_SIZE}")).ok().unwrap();
    assert_eq!(request.size, 16 * 1024 * 1024);
}

#[test]
fn wrong_uploads_are_refused() {
    assert_eq!(refused("notes.txt"), UploadError::Usage);
    assert_eq!(refused(""), UploadError::Usage);
    assert_eq!(refused("../x 1"), UploadError::Name);
    assert_eq!(refused("a b 1"), UploadError::Name);
    assert_eq!(refused("a x"), UploadError::Size);
    assert_eq!(refused("a "), UploadError::Size);
    assert_eq!(refused("a -1"), UploadError::Size);
    assert_eq!(refused("a 16777217"), UploadError::TooLarge);
    // The name is looked at first, then the size.
    assert_eq!(refused(".a x"), UploadError::Name);
    assert_eq!(UploadError::Usage.reply(), "ERR usage: PUT <name> <size>");
    assert_eq!(UploadError::Name.reply(), "ERR invalid file name");
    assert_eq!(UploadError::Size.reply(), "ERR invalid file size");
    assert_eq!(UploadError::TooLarge.reply(), "ERR file too large (max 16MB)");
}

#[test]
fn upload_must_be_whole() {
    assert_eq!(check_upload(5, 5), Ok(()));
    assert_eq!(check_upload(4, 5), Err("upload ended early"));
    assert_eq!(check_upload(0, 0), Ok(()));
}

#[test]
fn file_is_sent_whole() {
    assert_eq!(file_header("a.txt", 70000), "FILE a.txt 70000");
    let mut transfer = Transfer::new(2 * CHUNK_SIZE + 7);
    let mut wanted = Vec::new();
    while transfer.want() > 0 {
        let count = transfer.want();
        wanted.push(count);
        assert_eq!(transfer.advance(count), Ok(()));
    }
    assert_eq!(wanted, vec![65536, 65536, 7]);
    assert_eq!(Transfer::new(0).want(), 0);
}

#[test]
fn short_file_is_an_error() {
    let mut transfer = Transfer::new(10);
    assert_eq!(transfer.advance(4), Ok(()));
    assert_eq!(transfer.want(), 6);
    assert_eq!(transfer.advance(0), Err("file is shorter than expected"));
    assert_eq!(transfer.want(), 6);
}

#[test]
fn file_is_sent_whole_in_short_reads() {
    let mut transfer = Transfer::new(100_000);
    let mut total = 0;
    let mut count = 1;
    while transfer.want() > 0 {
        let read = count.min(transfer.want());
        assert_eq!(transfer.advance(read), Ok(()));
        total += read;
        count = count * 3 + 1;
    }
    assert_eq!(total, 100_000);
}

fn show(report: &Report) -> String {
    match report {
        Report::LineReceived(line) => format!("line {line}"),
        Report::FileUploaded { name, size } => format!("file {name} {size}"),
        Report::Disconnected => "over".to_owned(),
    }
}

/// What the server is told of a connection that was let in, and how that ends.
fn told(steps: Vec<(ReadOutcome, bool)>) -> (Vec<String>, Progress) {
    let mut reports = Vec::new();
    for (outcome, done) in steps {
        let (report, progress) = conclude(next_action(outcome), done);
        reports.extend(report.iter().map(show));
        if progress != Progress::Continue {
            return (reports, progress);
        }
    }
    (reports, Progress::Continue)
}

fn line(text: &str) -> ReadOutcome {
    ReadOutcome::Line(text.to_owned())
}

#[test]
fn reports_keep_their_order() {
    let steps = vec![
        (line("MSG one\n"), true),
        (line("\n"), true),
        (line("PUT a.txt 3\n"), true),
        (line(&"x".repeat(5000)), true),
        (line("MSG two\n"), true),
        (ReadOutcome::Closed, true),
        (line("MSG three\n"), true),
    ];
    assert_eq!(
        told(steps),
        (
            vec![
                "line MSG one".to_owned(),
                "file a.txt 3".to_owned(),
                "line MSG two".to_owned(),
                "over".to_owned(),
            ],
            Progress::End
        )
    );
    assert_eq!(told(vec![(ReadOutcome::Failed, true)]), (vec!["over".to_owned()], Progress::End));
    assert_eq!(
        told(vec![(line("LS\n"), true)]),
        (vec!["line LS".to_owned()], Progress::Continue)
    );
}

#[test]
fn failed_upload_is_the_end() {
    for (read, done) in [("PUT a.txt 3\n", false), ("PUT ../x 3\n", true), ("PUT a\n", false)] {
        let steps = vec![(line("LS\n"), true), (line(read), done), (line("LS\n"), true)];
        assert_eq!(
            told(steps),
            (vec!["line LS".to_owned(), "over".to_owned()], Progress::End),
            "{read:?}"
        );
    }
}

#[test]
fn reply_that_cannot_be_sent_fails() {
    let steps = vec![(line(&"x".repeat(5000)), false), (line("LS\n"), true)];
    assert_eq!(told(steps), (Vec::new(), Progress::Abort));
}
