//! One connection: the handshake, what becomes of each line, and the sending
//! and receiving of files.

use vstd::prelude::*;
#[allow(unused_imports)]
use vstd::utf8::encode_utf8;
use crate::names::sanitize_filename;
use crate::number::{parse_u64, to_decimal};
use crate::text::{concat4, rsplit_once, same, strip_prefix, trim_line_end};
#[allow(unused_imports)]
use crate::names::safe_filename;
#[allow(unused_imports)]
use crate::number::{decimal, parsed};
#[allow(unused_imports)]
use crate::text::{split_at_last, without_line_end};

verus! {

/// The most bytes that a line has.
pub const MAX_LINE_BYTES: usize = 4096;

/// The most bytes that an uploaded file has.
pub const MAX_FILE_SIZE: u64 = 16_777_216;

/// The most bytes of a file that are sent at once.
pub const CHUNK_SIZE: u64 = 65_536;

// ---------------------------------------------------------------------------
// The handshake

/// What a connection is told first.
pub fn greeting() -> (line: &'static str)
    ensures
        line@ == "SYS authenticating"@,
{
    "SYS authenticating"
}

/// What is done with a connection that has shown a token.
pub enum Admission {
    /// The line is sent, and the server is told of the connection.
    Accept(&'static str),
    /// The line is sent, and the connection is shut down.
    Refuse(&'static str),
}

/// Whether a connection that sends this line knows the token.
pub open spec fn knows_token(supplied: Seq<char>, token: Seq<char>) -> bool {
    without_line_end(supplied) == token
}

/// What is done with a connection whose first line is `supplied`.
pub fn authenticate(supplied: &str, token: &str) -> (admission: Admission)
    ensures
        match admission {
            Admission::Accept(line) => knows_token(supplied@, token@) && line@
                == "SYS Welcome to the club, buddy!"@,
            Admission::Refuse(line) => !knows_token(supplied@, token@) && line@
                == "ERR invalid access token"@,
        },
{
    if same(trim_line_end(supplied), token) {
        Admission::Accept("SYS Welcome to the club, buddy!")
    } else {
        Admission::Refuse("ERR invalid access token")
    }
}

// ---------------------------------------------------------------------------
// Lines

/// What reading a line from a connection gave.
pub enum ReadOutcome {
    /// The other end has closed the connection.
    Closed,
    /// A line, with the characters that end it.
    Line(String),
    /// Reading failed.
    Failed,
}

/// What is done next with a connection.
pub enum LineAction {
    /// No more is read: the connection is over.
    Stop,
    /// This line is sent.
    Reply(&'static str),
    /// Nothing.
    Skip,
    /// A file is received, as these words say.
    Upload(String),
    /// The server is told of this line.
    Forward(String),
}

/// The value of a [`LineAction`].
#[verifier::ext_equal]
pub enum LineActionModel {
    Stop,
    Reply(Seq<char>),
    Skip,
    Upload(Seq<char>),
    Forward(Seq<char>),
}

impl View for LineAction {
    type V = LineActionModel;

    open spec fn view(&self) -> LineActionModel {
        match self {
            LineAction::Stop => LineActionModel::Stop,
            LineAction::Reply(line) => LineActionModel::Reply(line@),
            LineAction::Skip => LineActionModel::Skip,
            LineAction::Upload(rest) => LineActionModel::Upload(rest@),
            LineAction::Forward(line) => LineActionModel::Forward(line@),
        }
    }
}

/// What is done with a line that was read.
pub open spec fn line_action(read: Seq<char>) -> LineActionModel {
    let line = without_line_end(read);
    if encode_utf8(read).len() > MAX_LINE_BYTES {
        LineActionModel::Reply("ERR message is too long"@)
    } else if line.len() == 0 {
        LineActionModel::Skip
    } else if "PUT "@.is_prefix_of(line) {
        LineActionModel::Upload(line.skip("PUT "@.len() as int))
    } else {
        LineActionModel::Forward(line)
    }
}

/// What is done with what was read.
pub open spec fn read_action(outcome: ReadOutcome) -> LineActionModel {
    match outcome {
        ReadOutcome::Closed => LineActionModel::Stop,
        ReadOutcome::Line(read) => line_action(read@),
        ReadOutcome::Failed => LineActionModel::Stop,
    }
}

/// What is done with what was read.
pub fn next_action(outcome: ReadOutcome) -> (action: LineAction)
    ensures
        action@ == read_action(outcome),
{
    match outcome {
        ReadOutcome::Closed => LineAction::Stop,
        ReadOutcome::Failed => LineAction::Stop,
        ReadOutcome::Line(read) => {
            if read.as_str().as_bytes().len() > MAX_LINE_BYTES {
                return LineAction::Reply("ERR message is too long");
            }
            let line: &str = trim_line_end(read.as_str());
            if line.is_empty() {
                return LineAction::Skip;
            }
            match strip_prefix(line, "PUT ") {
                Some(rest) => LineAction::Upload(rest.to_owned()),
                None => LineAction::Forward(line.to_owned()),
            }
        },
    }
}

// ---------------------------------------------------------------------------
// Receiving files

/// A file that a client announces.
pub struct UploadRequest {
    /// The name under which it is stored.
    pub name: String,
    pub size: u64,
}

/// Why an upload is refused.
#[derive(Clone, Copy, Debug, PartialEq, Eq, Structural)]
pub enum UploadError {
    Usage,
    Name,
    Size,
    TooLarge,
}

/// What the words behind `PUT` announce: a name, a space and a size.
pub open spec fn announced(rest: Seq<char>) -> Result<(Seq<char>, u64), UploadError> {
    match split_at_last(rest, ' ') {
        None => Err(UploadError::Usage),
        Some((name, size)) => if safe_filename(name) is None {
            Err(UploadError::Name)
        } else if parsed(size) is None {
            Err(UploadError::Size)
        } else if parsed(size)->0 > MAX_FILE_SIZE {
            Err(UploadError::TooLarge)
        } else {
            Ok((safe_filename(name)->0, parsed(size)->0))
        },
    }
}

/// What the words behind `PUT` announce.
pub fn parse_upload(rest: &str) -> (request: Result<UploadRequest, UploadError>)
    ensures
        match request {
            Ok(request) => announced(rest@) == Ok::<(Seq<char>, u64), UploadError>(
                (request.name@, request.size),
            ),
            Err(error) => announced(rest@) == Err::<(Seq<char>, u64), UploadError>(error),
        },
{
    let (name, size_text): (&str, &str) = match rsplit_once(rest, ' ') {
        Some((name, size_text)) => (name, size_text),
        None => {
            return Err(UploadError::Usage);
        },
    };
    let name: String = match sanitize_filename(name) {
        Some(name) => name,
        None => {
            return Err(UploadError::Name);
        },
    };
    let size: u64 = match parse_u64(size_text) {
        Some(size) => size,
        None => {
            return Err(UploadError::Size);
        },
    };
    if size > MAX_FILE_SIZE {
        return Err(UploadError::TooLarge);
    }
    Ok(UploadRequest { name, size })
}

impl UploadError {
    /// What the client is told.
    pub open spec fn line(self) -> Seq<char> {
        match self {
            UploadError::Usage => "ERR usage: PUT <name> <size>"@,
            UploadError::Name => "ERR invalid file name"@,
            UploadError::Size => "ERR invalid file size"@,
            UploadError::TooLarge => "ERR file too large (max 16MB)"@,
        }
    }

    /// What the client is told.
    pub fn reply(&self) -> (line: &'static str)
        ensures
            line@ == self.line(),
    {
        match self {
            UploadError::Usage => "ERR usage: PUT <name> <size>",
            UploadError::Name => "ERR invalid file name",
            UploadError::Size => "ERR invalid file size",
            UploadError::TooLarge => "ERR file too large (max 16MB)",
        }
    }
}

/// Whether a file has come whole, of which so many bytes came, or else what
/// went wrong.
pub fn check_upload(copied: u64, size: u64) -> (outcome: Result<(), &'static str>)
    ensures
        match outcome {
            Ok(()) => copied == size,
            Err(error) => copied != size && error@ == "upload ended early"@,
        },
{
    if copied == size {
        Ok(())
    } else {
        Err("upload ended early")
    }
}

// ---------------------------------------------------------------------------
// What the server is told

/// What the server is told of a connection that it knows of.
pub enum Report {
    LineReceived(String),
    FileUploaded { name: String, size: u64 },
    /// It is over.
    Disconnected,
}

/// What the server is told of a connection.
#[verifier::ext_equal]
pub enum ReportModel {
    /// It was let in.
    Connected,
    LineReceived(Seq<char>),
    FileUploaded { name: Seq<char>, size: u64 },
    /// It is over.
    Disconnected,
}

impl View for Report {
    type V = ReportModel;

    open spec fn view(&self) -> ReportModel {
        match self {
            Report::LineReceived(line) => ReportModel::LineReceived(line@),
            Report::FileUploaded { name, size } => ReportModel::FileUploaded {
                name: name@,
                size: *size,
            },
            Report::Disconnected => ReportModel::Disconnected,
        }
    }
}

/// How a connection goes on.
#[derive(Clone, Copy, Debug, PartialEq, Eq, Structural)]
pub enum Progress {
    /// The next line is read.
    Continue,
    /// It is over.
    End,
    /// It has failed, and nothing more is done with it.
    Abort,
}

/// What the server is told when an action was taken, and how the connection
/// goes on. For a reply, `done` says whether it was sent; for an upload,
/// whether the file came whole.
pub open spec fn concluded(action: LineActionModel, done: bool) -> (Option<ReportModel>, Progress) {
    match action {
        LineActionModel::Stop => (Some(ReportModel::Disconnected), Progress::End),
        LineActionModel::Skip => (None, Progress::Continue),
        LineActionModel::Reply(_) => (
            None,
            if done {
                Progress::Continue
            } else {
                Progress::Abort
            },
        ),
        LineActionModel::Upload(rest) => match announced(rest) {
            Ok((name, size)) if done => (
                Some(ReportModel::FileUploaded { name, size }),
                Progress::Continue,
            ),
            _ => (Some(ReportModel::Disconnected), Progress::End),
        },
        LineActionModel::Forward(line) => (
            Some(ReportModel::LineReceived(line)),
            Progress::Continue,
        ),
    }
}

/// What may be reported, as a value.
pub open spec fn report_model(report: Option<Report>) -> Option<ReportModel> {
    match report {
        Some(report) => Some(report@),
        None => None,
    }
}

/// What the server is told when an action was taken, and how the connection
/// goes on. For a reply, `done` says whether it was sent; for an upload,
/// whether the file came whole. An upload that is refused, or does not come
/// whole, is the end.
pub fn conclude(action: LineAction, done: bool) -> (conclusion: (Option<Report>, Progress))
    ensures
        (report_model(conclusion.0), conclusion.1) == concluded(action@, done),
{
    match action {
        LineAction::Stop => (Some(Report::Disconnected), Progress::End),
        LineAction::Skip => (None, Progress::Continue),
        LineAction::Reply(_) => {
            if done {
                (None, Progress::Continue)
            } else {
                (None, Progress::Abort)
            }
        },
        LineAction::Upload(rest) => match parse_upload(rest.as_str()) {
            Ok(request) => {
                if done {
                    (
                        Some(Report::FileUploaded { name: request.name, size: request.size }),
                        Progress::Continue,
                    )
                } else {
                    (Some(Report::Disconnected), Progress::End)
                }
            },
            Err(_) => (Some(Report::Disconnected), Progress::End),
        },
        LineAction::Forward(line) => (Some(Report::LineReceived(line)), Progress::Continue),
    }
}

// ---------------------------------------------------------------------------
// Sending files

/// The line that comes before a file.
pub open spec fn file_line(name: Seq<char>, size: u64) -> Seq<char> {
    "FILE "@ + name + " "@ + decimal(size as nat)
}

/// The line that comes before a file.
pub fn file_header(name: &str, size: u64) -> (line: String)
    ensures
        line@ == file_line(name@, size),
{
    concat4("FILE ", name, " ", to_decimal(size).as_str())
}

/// How many bytes of a file are sent next, of which so many are to be sent.
pub open spec fn next_chunk(remaining: u64) -> u64 {
    if remaining < CHUNK_SIZE {
        remaining
    } else {
        CHUNK_SIZE
    }
}

/// A file that is being sent.
pub struct Transfer {
    remaining: u64,
}

impl Transfer {
    /// How many bytes are still to be sent.
    pub closed spec fn view(&self) -> u64 {
        self.remaining
    }

    /// A file of this size, of which nothing was sent yet.
    pub fn new(size: u64) -> (transfer: Transfer)
        ensures
            transfer@ == size,
    {
        Transfer { remaining: size }
    }

    /// How many bytes to read next: none when the file is sent.
    pub fn want(&self) -> (count: usize)
        ensures
            count == next_chunk(self@),
    {
        if self.remaining < CHUNK_SIZE {
            self.remaining as usize
        } else {
            CHUNK_SIZE as usize
        }
    }

    /// Takes note that so many of the bytes that were wanted were read.
    /// Nothing read means that the file is shorter than it should be: an error.
    pub fn advance(&mut self, count: usize) -> (outcome: Result<(), &'static str>)
        requires
            count <= old(self)@,
        ensures
            final(self)@ == old(self)@ - count,
            match outcome {
                Ok(()) => count > 0,
                Err(error) => count == 0 && error@ == "file is shorter than expected"@,
            },
    {
        self.remaining = self.remaining - count as u64;
        if count == 0 {
            Err("file is shorter than expected")
        } else {
            Ok(())
        }
    }
}

// ---------------------------------------------------------------------------
// Laws

/// A connection is accepted only with the token itself, with or without the
/// end of a line behind it.
pub proof fn law_token_opens_the_door(token: Seq<char>)
    requires
        token.len() > 0,
        !crate::text::is_line_end(token.last()),
    ensures
        knows_token(token, token),
        knows_token(token + "\n"@, token),
        knows_token(token + "\r\n"@, token),
        forall|other: Seq<char>|
            other.len() > 0 && !crate::text::is_line_end(other.last()) && other
                != token ==> !#[trigger] knows_token(other + "\n"@, token),
{
    reveal_strlit("\n");
    reveal_strlit("\r\n");
    let cut = |c: char| crate::text::is_line_end(c);
    crate::text::lemma_trim_end_is(token, cut, token.len() as int);
    assert(token.take(token.len() as int) == token);
    crate::text::lemma_trim_end_is(token + "\n"@, cut, token.len() as int);
    assert((token + "\n"@).take(token.len() as int) =~= token);
    crate::text::lemma_trim_end_is(token + "\r\n"@, cut, token.len() as int);
    assert((token + "\r\n"@).take(token.len() as int) =~= token);
    assert forall|other: Seq<char>|
        other.len() > 0 && !crate::text::is_line_end(other.last()) && other
            != token implies !#[trigger] knows_token(other + "\n"@, token) by {
        crate::text::lemma_trim_end_is(other + "\n"@, cut, other.len() as int);
        assert((other + "\n"@).take(other.len() as int) =~= other);
    }
}

/// What was read once, and whether what was done with it went well.
pub struct Step {
    pub outcome: ReadOutcome,
    pub done: bool,
}

impl Step {
    /// What the server is told at this step, and how the connection goes on.
    pub open spec fn conclusion(self) -> (Option<ReportModel>, Progress) {
        concluded(read_action(self.outcome), self.done)
    }

    /// What the server is told at this step.
    pub open spec fn reports(self) -> Seq<ReportModel> {
        match self.conclusion().0 {
            Some(report) => seq![report],
            None => seq![],
        }
    }
}

/// The steps that are taken: up to the first at which the connection does not
/// go on, and that one.
pub open spec fn taken(steps: Seq<Step>) -> Seq<Step>
    decreases steps.len(),
{
    if steps.len() == 0 {
        seq![]
    } else if steps[0].conclusion().1 is Continue {
        seq![steps[0]] + taken(steps.drop_first())
    } else {
        seq![steps[0]]
    }
}

/// Whether the connection goes on after all of the steps.
pub open spec fn goes_on(steps: Seq<Step>) -> bool {
    forall|i: int| 0 <= i < steps.len() ==> (#[trigger] steps[i]).conclusion().1 is Continue
}

/// Whether the connection is over after the steps, and did not fail.
pub open spec fn is_over(steps: Seq<Step>) -> bool {
    taken(steps).len() > 0 && taken(steps).last().conclusion().1 is End
}

/// What the server is told step by step.
pub open spec fn step_reports(steps: Seq<Step>) -> Seq<ReportModel>
    decreases steps.len(),
{
    if steps.len() == 0 {
        seq![]
    } else {
        steps[0].reports() + step_reports(steps.drop_first())
    }
}

/// What the server is told of a connection that sends `supplied` first, and
/// then goes through steps.
pub open spec fn all_reports(supplied: Seq<char>, token: Seq<char>, steps: Seq<Step>) -> Seq<
    ReportModel,
> {
    if knows_token(supplied, token) {
        seq![ReportModel::Connected] + step_reports(taken(steps))
    } else {
        seq![]
    }
}

/// The steps that are taken go on, all but the last; and they are the first
/// ones.
proof fn lemma_taken(steps: Seq<Step>)
    ensures
        taken(steps).len() <= steps.len(),
        taken(steps) == steps.take(taken(steps).len() as int),
        forall|i: int|
            0 <= i < taken(steps).len() - 1 ==> (#[trigger] steps[i]).conclusion().1 is Continue,
        steps.len() > 0 ==> taken(steps).len() > 0,
        taken(steps).len() < steps.len() ==> !(taken(steps).last().conclusion().1 is Continue),
    decreases steps.len(),
{
    if steps.len() > 0 {
        let rest = steps.drop_first();
        lemma_taken(rest);
        if steps[0].conclusion().1 is Continue {
            let n = taken(steps).len() as int;
            assert(n == taken(rest).len() + 1);
            assert forall|i: int| 0 <= i < n - 1 implies (
            #[trigger] steps[i]).conclusion().1 is Continue by {
                if i > 0 {
                    assert(steps[i] == rest[i - 1]);
                }
            }
            assert(taken(steps) =~= steps.take(n));
            if taken(rest).len() > 0 {
                assert(taken(steps).last() == taken(rest).last());
            }
        } else {
            assert(taken(steps) =~= steps.take(1));
        }
    } else {
        assert(taken(steps) =~= steps.take(0));
    }
}

/// What is told in steps, one after the other.
proof fn lemma_step_reports(a: Seq<Step>, b: Seq<Step>)
    ensures
        step_reports(a + b) == step_reports(a) + step_reports(b),
    decreases a.len(),
{
    if a.len() == 0 {
        assert(a + b =~= b);
        assert(step_reports(a) + step_reports(b) =~= step_reports(b));
    } else {
        assert((a + b).drop_first() =~= a.drop_first() + b);
        lemma_step_reports(a.drop_first(), b);
        assert(a[0].reports() + (step_reports(a.drop_first()) + step_reports(b)) =~= (
        a[0].reports() + step_reports(a.drop_first())) + step_reports(b));
    }
}

/// Steps that go on tell of lines and uploads alone.
proof fn lemma_going_on(steps: Seq<Step>)
    requires
        goes_on(steps),
    ensures
        taken(steps) == steps,
        forall|i: int|
            0 <= i < step_reports(steps).len() ==> {
                ||| #[trigger] step_reports(steps)[i] is LineReceived
                ||| step_reports(steps)[i] is FileUploaded
            },
    decreases steps.len(),
{
    if steps.len() > 0 {
        let rest = steps.drop_first();
        assert forall|i: int| 0 <= i < rest.len() implies (
        #[trigger] rest[i]).conclusion().1 is Continue by {
            assert(rest[i] == steps[i + 1]);
        }
        lemma_going_on(rest);
        assert(steps[0].conclusion().1 is Continue);
        assert(taken(steps) =~= steps);
        assert forall|i: int| 0 <= i < step_reports(steps).len() implies {
            ||| #[trigger] step_reports(steps)[i] is LineReceived
            ||| step_reports(steps)[i] is FileUploaded
        } by {
            let n = steps[0].reports().len() as int;
            if i >= n {
                assert(step_reports(steps)[i] == step_reports(rest)[i - n]);
            }
        }
    } else {
        assert(taken(steps) =~= steps);
    }
}

/// The server is told first that a connection was let in, then of its lines and
/// uploads, and last that it is over: of the first once, of the last once if
/// the connection has ended and not at all before. Of one that does not know
/// the token it is told nothing. The server is taken to be there as long as the
/// connection is.
pub proof fn law_connection_is_reported_from_start_to_end(
    supplied: Seq<char>,
    token: Seq<char>,
    steps: Seq<Step>,
)
    ensures
        !knows_token(supplied, token) ==> all_reports(supplied, token, steps).len() == 0,
        knows_token(supplied, token) ==> {
            let reports = all_reports(supplied, token, steps);
            &&& reports.len() > 0
            &&& reports[0] == ReportModel::Connected
            &&& is_over(steps) ==> reports.len() > 1 && reports.last() == ReportModel::Disconnected
            &&& forall|i: int|
                0 < i < reports.len() - (if is_over(steps) {
                    1int
                } else {
                    0int
                }) ==> #[trigger] reports[i] is LineReceived || reports[i] is FileUploaded
        },
{
    if knows_token(supplied, token) {
        let reports = all_reports(supplied, token, steps);
        let path = taken(steps);
        lemma_taken(steps);
        if path.len() > 0 {
            let front = path.drop_last();
            let last = path.last();
            assert forall|i: int| 0 <= i < front.len() implies (
            #[trigger] front[i]).conclusion().1 is Continue by {
                assert(front[i] == steps[i]);
            }
            lemma_going_on(front);
            assert(path =~= front + seq![last]);
            lemma_step_reports(front, seq![last]);
            assert(seq![last].drop_first() =~= Seq::<Step>::empty());
            assert(step_reports(seq![last].drop_first()) =~= Seq::<ReportModel>::empty());
            assert(step_reports(seq![last]) =~= last.reports());
            assert(reports =~= seq![ReportModel::Connected] + step_reports(front)
                + last.reports());
            assert forall|i: int|
                0 < i < reports.len() - (if is_over(steps) {
                    1int
                } else {
                    0int
                }) implies #[trigger] reports[i] is LineReceived || reports[i] is FileUploaded by {
                if i <= step_reports(front).len() {
                    assert(reports[i] == step_reports(front)[i - 1]);
                } else {
                    assert(reports[i] == last.reports()[i - 1 - step_reports(front).len()]);
                }
            }
        }
    }
}

/// While a connection goes on, what the server is told of it comes in the order
/// in which it was sent: each step adds what it tells behind what was told.
pub proof fn law_reports_keep_their_order(
    supplied: Seq<char>,
    token: Seq<char>,
    steps: Seq<Step>,
    next: Step,
)
    requires
        knows_token(supplied, token),
        goes_on(steps),
    ensures
        all_reports(supplied, token, steps.push(next)) == all_reports(supplied, token, steps)
            + next.reports(),
        goes_on(steps.push(next)) == (next.conclusion().1 is Continue),
{
    lemma_going_on(steps);
    let more = steps.push(next);
    lemma_taken(more);
    let n = taken(more).len() as int;
    if n < more.len() {
        assert(taken(more).last() == steps[n - 1]);
        assert(steps[n - 1].conclusion().1 is Continue);
    }
    assert(taken(more) =~= more);
    assert(more =~= steps + seq![next]);
    lemma_step_reports(steps, seq![next]);
    assert(seq![next].drop_first() =~= Seq::<Step>::empty());
    assert(step_reports(seq![next].drop_first()) =~= Seq::<ReportModel>::empty());
    assert(step_reports(seq![next]) =~= next.reports());
    assert(all_reports(supplied, token, more) =~= all_reports(supplied, token, steps)
        + next.reports());
    assert(more[steps.len() as int] == next);
    assert(goes_on(more) == (next.conclusion().1 is Continue)) by {
        if next.conclusion().1 is Continue {
            assert forall|i: int| 0 <= i < more.len() implies (
            #[trigger] more[i]).conclusion().1 is Continue by {
                if i < steps.len() {
                    assert(more[i] == steps[i]);
                }
            }
        }
    }
}

/// An upload that is refused, or does not come whole, is the end of its
/// connection: the server is told that it is over, and nothing more, whatever
/// else the other end sends.
pub proof fn law_failed_upload_is_the_end(
    supplied: Seq<char>,
    token: Seq<char>,
    steps: Seq<Step>,
    upload: Step,
    more: Seq<Step>,
)
    requires
        knows_token(supplied, token),
        goes_on(steps),
        read_action(upload.outcome) matches LineActionModel::Upload(rest) && (!upload.done
            || announced(rest) is Err),
    ensures
        is_over(steps.push(upload) + more),
        all_reports(supplied, token, steps.push(upload) + more) == all_reports(
            supplied,
            token,
            steps,
        ).push(ReportModel::Disconnected),
{
    law_reports_keep_their_order(supplied, token, steps, upload);
    let start = steps.push(upload);
    let all = start + more;
    lemma_taken(start);
    lemma_taken(all);
    assert(start[steps.len() as int] == upload);
    assert(all[steps.len() as int] == upload);
    let n = taken(all).len() as int;
    if n < start.len() {
        assert(taken(all).last() == steps[n - 1]);
        assert(steps[n - 1].conclusion().1 is Continue);
    }
    assert(n == start.len()) by {
        if n > start.len() {
            assert(all[steps.len() as int].conclusion().1 is Continue);
        }
    }
    let m = taken(start).len() as int;
    if m < start.len() {
        assert(taken(start).last() == steps[m - 1]);
        assert(steps[m - 1].conclusion().1 is Continue);
    }
    assert(taken(all) =~= start);
    assert(taken(start) =~= start);
    assert(all_reports(supplied, token, steps) + upload.reports() =~= all_reports(
        supplied,
        token,
        steps,
    ).push(ReportModel::Disconnected));
}

/// A file that is announced by its name and its size is understood so.
pub proof fn law_announcement_is_understood(name: Seq<char>, size: u64)
    requires
        crate::names::filename_ok(name),
        size <= MAX_FILE_SIZE,
    ensures
        announced(name + " "@ + decimal(size as nat)) == Ok::<(Seq<char>, u64), UploadError>(
            (name, size),
        ),
{
    reveal_strlit(" ");
    let digits = decimal(size as nat);
    let rest = name + " "@ + digits;
    let i = name.len() as int;
    crate::number::lemma_decimal(size as nat);
    assert(rest[i] == ' ');
    assert forall|k: int| i < k < rest.len() implies #[trigger] rest[k] != ' ' by {
        assert(rest[k] == digits[k - i - 1]);
    }
    crate::text::lemma_find_last_is(rest, ' ', i);
    assert(rest.take(i) =~= name);
    assert(rest.skip(i + 1) =~= digits);
    crate::names::lemma_plain_is_trimmed(name);
    crate::number::law_number_is_read_back(size);
}

/// The sum of numbers.
pub open spec fn sum(numbers: Seq<usize>) -> nat
    decreases numbers.len(),
{
    if numbers.len() == 0 {
        0
    } else {
        sum(numbers.drop_last()) + numbers.last() as nat
    }
}

/// How many bytes of a file of a size are still to be sent, after so many were
/// read each time.
pub open spec fn left_after(size: u64, counts: Seq<usize>) -> int
    decreases counts.len(),
{
    if counts.len() == 0 {
        size as int
    } else {
        left_after(size, counts.drop_last()) - counts.last()
    }
}

/// Each time no more was read than was wanted.
pub open spec fn as_wanted(size: u64, counts: Seq<usize>) -> bool
    decreases counts.len(),
{
    counts.len() > 0 ==> {
        &&& as_wanted(size, counts.drop_last())
        &&& counts.last() <= next_chunk(left_after(size, counts.drop_last()) as u64)
    }
}

/// A file is sent whole, however little of what is wanted is read each time:
/// what was read is never more than the file, and when no more is wanted, it is
/// as much as the file, and not before.
pub proof fn law_file_is_sent_whole(size: u64, counts: Seq<usize>)
    requires
        as_wanted(size, counts),
    ensures
        0 <= left_after(size, counts) <= size,
        sum(counts) + left_after(size, counts) == size,
        next_chunk(left_after(size, counts) as u64) == 0 <==> sum(counts) == size,
    decreases counts.len(),
{
    if counts.len() > 0 {
        law_file_is_sent_whole(size, counts.drop_last());
    }
}

/// Who sends the token as its first line is let in, and nobody else, however
/// the line is ended.
pub proof fn law_only_the_token_lets_in(line: Seq<char>, end: Seq<char>, token: Seq<char>)
    requires
        forall|i: int| 0 <= i < end.len() ==> #[trigger] end[i] == '\n' || end[i] == '\r',
        line.len() > 0 ==> line.last() != '\n' && line.last() != '\r',
    ensures
        knows_token(line + end, token) <==> line == token,
{
    crate::text::law_line_end_is_taken_away(line, end);
}

/// What is done with a line, however it is ended: one that has more than 4096
/// bytes with its end is refused, an empty one is passed over, `PUT` and a space
/// begin an upload, and any other is passed on whole.
pub proof fn law_each_line_is_dealt_with(line: Seq<char>, end: Seq<char>)
    requires
        forall|i: int| 0 <= i < end.len() ==> #[trigger] end[i] == '\n' || end[i] == '\r',
        line.len() > 0 ==> line.last() != '\n' && line.last() != '\r',
    ensures
        line_action(line + end) == (if encode_utf8(line + end).len() > 4096 {
            LineActionModel::Reply("ERR message is too long"@)
        } else if line.len() == 0 {
            LineActionModel::Skip
        } else if line.len() >= 4 && line.take(4) == seq!['P', 'U', 'T', ' '] {
            LineActionModel::Upload(line.skip(4))
        } else {
            LineActionModel::Forward(line)
        }),
{
    crate::text::law_line_end_is_taken_away(line, end);
    reveal_strlit("PUT ");
    assert("PUT "@ =~= seq!['P', 'U', 'T', ' ']);
    if line.len() >= 4 {
        assert(line.subrange(0, 4) =~= line.take(4));
    }
}

/// A connection that is closed, or cannot be read, is over; from any other a
/// line is dealt with.
pub proof fn law_reading_ends_with_the_connection(read: String)
    ensures
        read_action(ReadOutcome::Closed) == LineActionModel::Stop,
        read_action(ReadOutcome::Failed) == LineActionModel::Stop,
        read_action(ReadOutcome::Line(read)) == line_action(read@),
{
}

/// An upload is announced by a name, a space and a size, of which the size
/// stands behind the last space. What is wrong is found in order: that there is
/// no space, that the name may not be had, that the size is no number, that it
/// is more than 16 MiB.
pub proof fn law_announcements_are_judged(name: Seq<char>, size: Seq<char>)
    requires
        !size.contains(' '),
    ensures
        announced(size) == Err::<(Seq<char>, u64), UploadError>(UploadError::Usage),
        announced(name + seq![' '] + size) == (match (safe_filename(name), parsed(size)) {
            (None, _) => Err::<(Seq<char>, u64), UploadError>(UploadError::Name),
            (Some(_), None) => Err(UploadError::Size),
            (Some(stored), Some(n)) => if n > 16_777_216 {
                Err(UploadError::TooLarge)
            } else {
                Ok((stored, n))
            },
        }),
{
    crate::text::law_text_is_split_at_the_last(name, ' ', size);
}

/// What is wrong with an upload is told so.
pub proof fn law_wrong_uploads_are_answered()
    ensures
        UploadError::Usage.line() == "ERR usage: PUT <name> <size>"@,
        UploadError::Name.line() == "ERR invalid file name"@,
        UploadError::Size.line() == "ERR invalid file size"@,
        UploadError::TooLarge.line() == "ERR file too large (max 16MB)"@,
{
}

/// What the server is told of each action: of a line, the line itself; of an
/// upload that came whole, the name and the size that were announced; of the
/// end, that it has come. A reply is not told of, and one that cannot be sent is
/// a failure.
pub proof fn law_actions_are_reported(
    line: Seq<char>,
    rest: Seq<char>,
    name: Seq<char>,
    size: u64,
    done: bool,
)
    ensures
        concluded(LineActionModel::Forward(line), done) == (
            Some(ReportModel::LineReceived(line)),
            Progress::Continue,
        ),
        announced(rest) == Ok::<(Seq<char>, u64), UploadError>((name, size)) ==> concluded(
            LineActionModel::Upload(rest),
            true,
        ) == (Some(ReportModel::FileUploaded { name, size }), Progress::Continue),
        !done || announced(rest) is Err ==> concluded(LineActionModel::Upload(rest), done) == (
            Some(ReportModel::Disconnected),
            Progress::End,
        ),
        concluded(LineActionModel::Stop, done) == (Some(ReportModel::Disconnected), Progress::End),
        concluded(LineActionModel::Skip, done) == (None::<ReportModel>, Progress::Continue),
        concluded(LineActionModel::Reply(line), true) == (None::<ReportModel>, Progress::Continue),
        concluded(LineActionModel::Reply(line), false) == (None::<ReportModel>, Progress::Abort),
{
}

/// The line before a file says its name and its size, which is read back from
/// what stands behind the last space.
pub proof fn law_file_is_announced_with_its_size(name: Seq<char>, size: u64)
    ensures
        file_line(name, size) == "FILE"@ + " "@ + name + " "@ + decimal(size as nat),
        split_at_last(file_line(name, size), ' ') matches Some((front, digits)) && front == "FILE"@
            + " "@ + name && parsed(digits) == Some(size),
{
    reveal_strlit("FILE");
    reveal_strlit("FILE ");
    reveal_strlit(" ");
    assert("FILE "@ =~= "FILE"@ + " "@);
    let digits = decimal(size as nat);
    let front = "FILE"@ + " "@ + name;
    assert(" "@ =~= seq![' ']);
    assert("FILE "@ + name =~= front);
    crate::number::lemma_decimal(size as nat);
    assert(!digits.contains(' ')) by {
        if digits.contains(' ') {
            let k = choose|k: int| 0 <= k < digits.len() && digits[k] == ' ';
            assert('0' <= digits[k] <= '9');
        }
    }
    crate::text::law_text_is_split_at_the_last(front, ' ', digits);
    crate::number::law_number_is_read_back(size);
}

/// As much of a file is wanted at once as is left, but no more than 64 KiB.
pub proof fn law_files_are_sent_in_chunks(left: u64)
    ensures
        next_chunk(left) <= left,
        next_chunk(left) <= 65_536,
        next_chunk(left) == left || next_chunk(left) == 65_536,
{
}

} // verus!
