//! Running the command line tools and judging what they gave.
use vstd::prelude::*;
use vstd::utf8::{decode_utf8, valid_utf8};

use crate::error::{error_text, text_result, unit_result, BackendError, ErrorView};
use crate::models::{PortDirection, RouteView};
use crate::text::{
    all_white, contains, has_tight_ends, law_trimmed, lower, lowered, occurs, trim, trimmed,
};

verus! {

/// How long a command may take, in milliseconds.
pub const COMMAND_TIMEOUT_MS: u64 = 5000;

/// How long to wait before a running command is looked at again, in
/// milliseconds.
pub const COMMAND_POLL_MS: u64 = 10;

/// A program and its arguments.
#[derive(Debug)]
pub struct CommandLine {
    pub program: &'static str,
    pub args: Vec<String>,
}

/// A [`CommandLine`] with its texts as sequences of characters.
pub struct CommandView {
    pub program: Seq<char>,
    pub args: Seq<Seq<char>>,
}

impl View for CommandLine {
    type V = CommandView;

    open spec fn view(&self) -> CommandView {
        CommandView { program: self.program@, args: self.args.deep_view() }
    }
}

/// The command that dumps the graph.
pub open spec fn dump_command_view() -> CommandView {
    CommandView { program: "pw-dump"@, args: seq![] }
}

/// The command that lists the ports of one direction with their ids.
pub open spec fn listing_command_view(direction: PortDirection) -> CommandView {
    CommandView {
        program: "pw-link"@,
        args: seq![
            "-I"@,
            match direction {
                PortDirection::Input => "-i"@,
                PortDirection::Output => "-o"@,
            },
        ],
    }
}

/// The command that creates a link.
pub open spec fn create_link_view(route: RouteView) -> CommandView {
    CommandView { program: "pw-link"@, args: seq!["-L"@, route.output_path, route.input_path] }
}

/// The command that removes a link.
pub open spec fn remove_link_view(route: RouteView) -> CommandView {
    CommandView { program: "pw-link"@, args: seq!["-d"@, route.output_path, route.input_path] }
}

/// The command that dumps the graph.
pub fn dump_command() -> (command: CommandLine)
    ensures
        command@ == dump_command_view(),
{
    let command = CommandLine { program: "pw-dump", args: Vec::new() };
    assert(command@.args =~= seq![]);
    command
}

/// The command that lists the ports of one direction with their ids.
pub fn listing_command(direction: PortDirection) -> (command: CommandLine)
    ensures
        command@ == listing_command_view(direction),
{
    let flag = match direction {
        PortDirection::Input => "-i",
        PortDirection::Output => "-o",
    };
    let command = CommandLine { program: "pw-link", args: vec!["-I".to_string(), flag.to_string()] };
    assert(command@.args =~= listing_command_view(direction).args);
    command
}

fn link_command(flag: &str, output_path: &str, input_path: &str) -> (command: CommandLine)
    ensures
        command@ == (CommandView {
            program: "pw-link"@,
            args: seq![flag@, output_path@, input_path@],
        }),
{
    let command = CommandLine {
        program: "pw-link",
        args: vec![flag.to_string(), output_path.to_string(), input_path.to_string()],
    };
    assert(command@.args =~= seq![flag@, output_path@, input_path@]);
    command
}

/// The command that links an output with an input.
pub fn create_link_command(output_path: &str, input_path: &str) -> (command: CommandLine)
    ensures
        command@ == create_link_view(
            RouteView { output_path: output_path@, input_path: input_path@ },
        ),
{
    link_command("-L", output_path, input_path)
}

/// The command that takes the link between an output and an input away.
pub fn remove_link_command(output_path: &str, input_path: &str) -> (command: CommandLine)
    ensures
        command@ == remove_link_view(
            RouteView { output_path: output_path@, input_path: input_path@ },
        ),
{
    link_command("-d", output_path, input_path)
}

/// What became of an attempt to create a link: a link that exists already is
/// as good as a new one.
pub open spec fn link_created(outcome: Result<Seq<char>, ErrorView>) -> Result<(), ErrorView> {
    match outcome {
        Ok(_) => Ok(()),
        Err(ErrorView::CommandFailed(program, stderr)) => if occurs(lowered(stderr), "exists"@) {
            Ok(())
        } else {
            Err(ErrorView::CommandFailed(program, stderr))
        },
        Err(error) => Err(error),
    }
}

/// Whether a complaint says that there is nothing to remove.
pub open spec fn says_absent(stderr: Seq<char>) -> bool {
    ||| occurs(lowered(stderr), "no such file"@)
    ||| occurs(lowered(stderr), "not found"@)
    ||| occurs(lowered(stderr), "does not exist"@)
}

/// What became of an attempt to remove a link: a link that is not there is as
/// good as a removed one.
pub open spec fn link_removed(outcome: Result<Seq<char>, ErrorView>) -> Result<(), ErrorView> {
    match outcome {
        Ok(_) => Ok(()),
        Err(ErrorView::CommandFailed(_, stderr)) => if says_absent(stderr) {
            Ok(())
        } else {
            Err(ErrorView::CommandFailed("pw-link"@, stderr))
        },
        Err(error) => Err(error),
    }
}

fn tells_present(stderr: &str) -> (yes: bool)
    ensures
        yes == occurs(lowered(stderr@), "exists"@),
{
    contains(lower(stderr).as_str(), "exists")
}

fn tells_absent(stderr: &str) -> (yes: bool)
    ensures
        yes == says_absent(stderr@),
{
    let lowered_text = lower(stderr);
    contains(lowered_text.as_str(), "no such file") || contains(lowered_text.as_str(), "not found")
        || contains(lowered_text.as_str(), "does not exist")
}

/// Judges what the command that creates a link gave.
pub fn create_link(outcome: Result<String, BackendError>) -> (result: Result<(), BackendError>)
    ensures
        unit_result(result) == link_created(text_result(outcome)),
{
    match outcome {
        Ok(_) => Ok(()),
        Err(BackendError::CommandFailed(program, stderr)) => {
            if tells_present(stderr.as_str()) {
                Ok(())
            } else {
                Err(BackendError::CommandFailed(program, stderr))
            }
        },
        Err(error) => Err(error),
    }
}

/// Judges what the command that removes a link gave.
pub fn remove_link(outcome: Result<String, BackendError>) -> (result: Result<(), BackendError>)
    ensures
        unit_result(result) == link_removed(text_result(outcome)),
{
    match outcome {
        Ok(_) => Ok(()),
        Err(BackendError::CommandFailed(_, stderr)) => {
            if tells_absent(stderr.as_str()) {
                Ok(())
            } else {
                Err(BackendError::CommandFailed("pw-link", stderr))
            }
        },
        Err(error) => Err(error),
    }
}

/// What there is to say of a link that could not be created.
pub fn creation_complaint(outcome: &Result<String, BackendError>) -> (complaint: Option<String>)
    ensures
        complaint.deep_view() == match link_created(text_result(*outcome)) {
            Ok(()) => None,
            Err(error) => Some(error_text(error)),
        },
{
    match outcome {
        Ok(_) => None,
        Err(BackendError::CommandFailed(program, stderr)) => {
            if tells_present(stderr.as_str()) {
                None
            } else {
                Some(failure_text(program, stderr.as_str()))
            }
        },
        Err(error) => Some(error.message()),
    }
}

/// What there is to say of a link that could not be removed.
pub fn removal_complaint(outcome: &Result<String, BackendError>) -> (complaint: Option<String>)
    ensures
        complaint.deep_view() == match link_removed(text_result(*outcome)) {
            Ok(()) => None,
            Err(error) => Some(error_text(error)),
        },
{
    match outcome {
        Ok(_) => None,
        Err(BackendError::CommandFailed(_, stderr)) => {
            if tells_absent(stderr.as_str()) {
                None
            } else {
                Some(failure_text("pw-link", stderr.as_str()))
            }
        },
        Err(error) => Some(error.message()),
    }
}

fn failure_text(program: &str, stderr: &str) -> (text: String)
    ensures
        text@ == error_text(ErrorView::CommandFailed(program@, stderr@)),
{
    let mut text = program.to_string();
    text.append(" failed: ");
    text.append(stderr);
    text
}

/// What a look at a command showed.
#[derive(Debug)]
pub enum ProcessPoll {
    Exited,
    Running,
    /// The state of the command could not be read.
    Failed(String),
}

/// What to do after a look at a command.
#[derive(Debug)]
pub enum PollStep {
    /// Take what the command wrote.
    Finish,
    /// Look again after so many milliseconds.
    Sleep(u64),
    /// Kill the command and give this error.
    GiveUp(BackendError),
}

/// A point in time `span` milliseconds after `now`, as far as the clock goes.
pub open spec fn later(now: u64, span: u64) -> u64 {
    if now + span <= u64::MAX {
        (now + span) as u64
    } else {
        u64::MAX
    }
}

/// Watches over one run of a command.
#[derive(Debug)]
pub struct Supervisor {
    program: &'static str,
    deadline: u64,
}

impl Supervisor {
    pub closed spec fn spec_program(&self) -> Seq<char> {
        self.program@
    }

    pub closed spec fn spec_deadline(&self) -> u64 {
        self.deadline
    }

    /// Starts to watch over `program`, at the time `now` in milliseconds.
    pub fn new(program: &'static str, now: u64) -> (supervisor: Supervisor)
        ensures
            supervisor.spec_program() == program@,
            supervisor.spec_deadline() == later(now, COMMAND_TIMEOUT_MS),
    {
        Supervisor { program, deadline: now.saturating_add(COMMAND_TIMEOUT_MS) }
    }

    /// Decides what follows a look at the command.
    pub fn poll(&self, poll: ProcessPoll, now: u64) -> (step: PollStep)
        ensures
            match poll {
                ProcessPoll::Exited => step is Finish,
                ProcessPoll::Running => if now >= self.spec_deadline() {
                    step matches PollStep::GiveUp(error) && error@ == ErrorView::Timeout(
                        self.spec_program(),
                    )
                } else {
                    step == PollStep::Sleep(COMMAND_POLL_MS)
                },
                ProcessPoll::Failed(reason) => {
                    step matches PollStep::GiveUp(error) && error@ == ErrorView::Io(
                        self.spec_program(),
                        reason@,
                    )
                },
            },
    {
        match poll {
            ProcessPoll::Exited => PollStep::Finish,
            ProcessPoll::Running => {
                if now >= self.deadline {
                    PollStep::GiveUp(BackendError::Timeout(self.program))
                } else {
                    PollStep::Sleep(COMMAND_POLL_MS)
                }
            },
            ProcessPoll::Failed(reason) => PollStep::GiveUp(BackendError::Io(self.program, reason)),
        }
    }
}

/// What the reader of a stream of a command brought.
#[derive(Debug)]
pub enum ReaderOutcome {
    Bytes(Vec<u8>),
    Failed(String),
    Panicked,
}

/// The bytes that a reader brought, or what to say when it failed.
pub open spec fn read_bytes(
    program: Seq<char>,
    stream_name: Seq<char>,
    outcome: ReaderOutcome,
) -> Result<Seq<u8>, ErrorView> {
    match outcome {
        ReaderOutcome::Bytes(bytes) => Ok(bytes@),
        ReaderOutcome::Failed(reason) => Err(
            ErrorView::InvalidOutput(
                program,
                "failed to read "@ + stream_name + ": "@ + reason@,
            ),
        ),
        ReaderOutcome::Panicked => Err(
            ErrorView::InvalidOutput(program, stream_name + " reader thread panicked"@),
        ),
    }
}

/// Takes the bytes of a reader.
pub fn join_reader(program: &'static str, stream_name: &str, outcome: ReaderOutcome) -> (result:
    Result<Vec<u8>, BackendError>)
    ensures
        match result {
            Ok(bytes) => read_bytes(program@, stream_name@, outcome) == Ok::<Seq<u8>, ErrorView>(
                bytes@,
            ),
            Err(error) => read_bytes(program@, stream_name@, outcome) == Err::<Seq<u8>, ErrorView>(
                error@,
            ),
        },
{
    match outcome {
        ReaderOutcome::Bytes(bytes) => Ok(bytes),
        ReaderOutcome::Failed(reason) => {
            let mut text = "failed to read ".to_string();
            text.append(stream_name);
            text.append(": ");
            text.append(reason.as_str());
            Err(BackendError::InvalidOutput(program, text))
        },
        ReaderOutcome::Panicked => {
            let mut text = stream_name.to_string();
            text.append(" reader thread panicked");
            Err(BackendError::InvalidOutput(program, text))
        },
    }
}

/// The error of a command whose stream could not be taken.
pub fn missing_pipe(program: &'static str, stream_name: &str) -> (error: BackendError)
    ensures
        error@ == ErrorView::InvalidOutput(program@, stream_name@ + " pipe was not captured"@),
{
    let mut text = stream_name.to_string();
    text.append(" pipe was not captured");
    BackendError::InvalidOutput(program, text)
}

/// How `String::from_utf8` words its refusal of some bytes.
pub uninterp spec fn utf8_refusal(bytes: Seq<u8>) -> Seq<char>;

/// `String::from_utf8`. It accepts valid UTF-8 and decodes it. The wording of
/// a refusal is a function of the bytes and is named, not spelled out.
#[verifier::external_body]
fn strict_text(bytes: Vec<u8>) -> (result: Result<String, String>)
    ensures
        match result {
            Ok(text) => valid_utf8(bytes@) && text@ == decode_utf8(bytes@),
            Err(reason) => !valid_utf8(bytes@) && reason@ == utf8_refusal(bytes@),
        },
{
    String::from_utf8(bytes).map_err(|err| err.to_string())
}

/// What `String::from_utf8_lossy` makes of some bytes.
pub uninterp spec fn utf8_lossy(bytes: Seq<u8>) -> Seq<char>;

/// `String::from_utf8_lossy`. It decodes valid UTF-8 as it is. What it makes of
/// other bytes is a function of them and is named, not spelled out.
#[verifier::external_body]
fn lossy_text(bytes: &Vec<u8>) -> (text: String)
    ensures
        text@ == utf8_lossy(bytes@),
        valid_utf8(bytes@) ==> text@ == decode_utf8(bytes@),
{
    String::from_utf8_lossy(bytes).to_string()
}

/// What is said of a command that failed: what it wrote to its error stream,
/// or how it ended where it wrote nothing.
pub open spec fn failure_view(program: Seq<char>, status: Seq<char>, stderr: Seq<char>) -> ErrorView {
    let complaint = trimmed(stderr);
    ErrorView::CommandFailed(
        program,
        if complaint.len() == 0 {
            "exit status "@ + status
        } else {
            complaint
        },
    )
}

/// The error of a command that failed.
pub fn command_failure(program: &'static str, status: &str, stderr: &str) -> (error: BackendError)
    ensures
        error@ == failure_view(program@, status@, stderr@),
{
    let complaint = trim(stderr);
    if complaint.as_str().is_empty() {
        let mut text = "exit status ".to_string();
        text.append(status);
        BackendError::CommandFailed(program, text)
    } else {
        BackendError::CommandFailed(program, complaint)
    }
}

/// The text that a command wrote, where it could be decoded.
pub fn command_text(program: &'static str, decoded: Result<String, String>) -> (result: Result<
    String,
    BackendError,
>)
    ensures
        text_result(result) == match decoded {
            Ok(text) => Ok::<Seq<char>, ErrorView>(text@),
            Err(reason) => Err(ErrorView::InvalidOutput(program@, reason@)),
        },
{
    match decoded {
        Ok(text) => Ok(text),
        Err(reason) => Err(BackendError::InvalidOutput(program, reason)),
    }
}

/// What a command that has ended gives.
pub open spec fn run_result(
    program: Seq<char>,
    success: bool,
    status: Seq<char>,
    stdout: ReaderOutcome,
    stderr: ReaderOutcome,
) -> Result<Seq<char>, ErrorView> {
    match (read_bytes(program, "stdout"@, stdout), read_bytes(program, "stderr"@, stderr)) {
        (Err(error), _) => Err(error),
        (Ok(_), Err(error)) => Err(error),
        (Ok(out), Ok(err)) => if !success {
            Err(failure_view(program, status, utf8_lossy(err)))
        } else if valid_utf8(out) {
            Ok(decode_utf8(out))
        } else {
            Err(ErrorView::InvalidOutput(program, utf8_refusal(out)))
        },
    }
}

/// The text of a command that has ended, or why there is none.
pub fn run_text(
    program: &'static str,
    success: bool,
    status: &str,
    stdout: ReaderOutcome,
    stderr: ReaderOutcome,
) -> (result: Result<String, BackendError>)
    ensures
        text_result(result) == run_result(program@, success, status@, stdout, stderr),
{
    match join_reader(program, "stdout", stdout) {
        Err(error) => Err(error),
        Ok(out) => match join_reader(program, "stderr", stderr) {
            Err(error) => Err(error),
            Ok(err) => {
                if !success {
                    Err(command_failure(program, status, lossy_text(&err).as_str()))
                } else {
                    command_text(program, strict_text(out))
                }
            },
        },
    }
}

/// The tools that read the graph and change its links, and how they are called.
pub proof fn law_tool_commands(route: RouteView)
    ensures
        dump_command_view().program == "pw-dump"@,
        dump_command_view().args == Seq::<Seq<char>>::empty(),
        listing_command_view(PortDirection::Output).program == "pw-link"@,
        listing_command_view(PortDirection::Output).args == seq!["-I"@, "-o"@],
        listing_command_view(PortDirection::Input).program == "pw-link"@,
        listing_command_view(PortDirection::Input).args == seq!["-I"@, "-i"@],
        create_link_view(route).program == "pw-link"@,
        create_link_view(route).args == seq!["-L"@, route.output_path, route.input_path],
        remove_link_view(route).program == "pw-link"@,
        remove_link_view(route).args == seq!["-d"@, route.output_path, route.input_path],
{
}

/// Which link a command creates or removes can be told from the command, and so
/// can whether it creates or removes it.
pub proof fn law_link_commands_differ(a: RouteView, b: RouteView)
    ensures
        create_link_view(a) == create_link_view(b) ==> a == b,
        remove_link_view(a) == remove_link_view(b) ==> a == b,
        create_link_view(a) != remove_link_view(b),
{
    reveal_strlit("-L");
    reveal_strlit("-d");
    assert("-L"@[1] != "-d"@[1]);
    assert(create_link_view(a).args[0] == "-L"@);
    assert(create_link_view(a).args[1] == a.output_path);
    assert(create_link_view(a).args[2] == a.input_path);
    assert(create_link_view(b).args[1] == b.output_path);
    assert(create_link_view(b).args[2] == b.input_path);
    assert(remove_link_view(b).args[0] == "-d"@);
    assert(remove_link_view(a).args[1] == a.output_path);
    assert(remove_link_view(a).args[2] == a.input_path);
    assert(remove_link_view(b).args[1] == b.output_path);
    assert(remove_link_view(b).args[2] == b.input_path);
}

/// A link counts as made where the command succeeds, whatever it writes, and
/// where it fails with a complaint that says in whatever case that the link
/// exists. Every other failure stays as it is.
pub proof fn law_made_links(text: Seq<char>, program: Seq<char>, stderr: Seq<char>, error: ErrorView)
    requires
        error !is CommandFailed,
    ensures
        link_created(Ok(text)) == Ok::<(), ErrorView>(()),
        occurs(lowered(stderr), "exists"@) ==> link_created(
            Err(ErrorView::CommandFailed(program, stderr)),
        ) == Ok::<(), ErrorView>(()),
        !occurs(lowered(stderr), "exists"@) ==> link_created(
            Err(ErrorView::CommandFailed(program, stderr)),
        ) == Err::<(), ErrorView>(ErrorView::CommandFailed(program, stderr)),
        link_created(Err(error)) == Err::<(), ErrorView>(error),
{
}

/// A link counts as removed where the command succeeds, whatever it writes, and
/// where it fails with a complaint that says in whatever case that there is no
/// such link. Every other failure stays one.
pub proof fn law_removed_links(
    text: Seq<char>,
    program: Seq<char>,
    stderr: Seq<char>,
    error: ErrorView,
)
    requires
        error !is CommandFailed,
    ensures
        link_removed(Ok(text)) == Ok::<(), ErrorView>(()),
        occurs(lowered(stderr), "no such file"@) || occurs(lowered(stderr), "not found"@) || occurs(
            lowered(stderr),
            "does not exist"@,
        ) ==> link_removed(Err(ErrorView::CommandFailed(program, stderr))) == Ok::<(), ErrorView>(
            (),
        ),
        !occurs(lowered(stderr), "no such file"@) && !occurs(lowered(stderr), "not found"@)
            && !occurs(lowered(stderr), "does not exist"@) ==> link_removed(
            Err(ErrorView::CommandFailed(program, stderr)),
        ) == Err::<(), ErrorView>(ErrorView::CommandFailed("pw-link"@, stderr)),
        link_removed(Err(error)) == Err::<(), ErrorView>(error),
{
}

/// A span of time ends where it should, or with the clock.
pub proof fn law_later(now: u64, span: u64)
    ensures
        now + span <= u64::MAX ==> later(now, span) == now + span,
        now + span > u64::MAX ==> later(now, span) == u64::MAX,
        later(now, span) >= now,
{
}

/// A command may take five seconds, and is looked at every hundredth of one.
pub proof fn law_command_times()
    ensures
        COMMAND_TIMEOUT_MS == 5 * 1000,
        COMMAND_POLL_MS * 100 == 1000,
{
}

/// A reader hands out all that it read, and one that failed says of what stream
/// and why.
pub proof fn law_read_streams(program: Seq<char>, stream: Seq<char>, bytes: Vec<u8>, reason: String)
    ensures
        read_bytes(program, stream, ReaderOutcome::Bytes(bytes)) == Ok::<Seq<u8>, ErrorView>(bytes@),
        read_bytes(program, stream, ReaderOutcome::Failed(reason)) == Err::<Seq<u8>, ErrorView>(
            ErrorView::InvalidOutput(program, "failed to read "@ + stream + ": "@ + reason@),
        ),
        read_bytes(program, stream, ReaderOutcome::Panicked) == Err::<Seq<u8>, ErrorView>(
            ErrorView::InvalidOutput(program, stream + " reader thread panicked"@),
        ),
{
}

/// A failed command is told with what it wrote, without the white space around
/// it, and where it wrote nothing but white space with how it ended.
pub proof fn law_failed_commands(
    program: Seq<char>,
    status: Seq<char>,
    front: Seq<char>,
    complaint: Seq<char>,
    back: Seq<char>,
)
    requires
        all_white(front),
        all_white(back),
    ensures
        complaint.len() > 0 && has_tight_ends(complaint) ==> failure_view(
            program,
            status,
            front + complaint + back,
        ) == ErrorView::CommandFailed(program, complaint),
        failure_view(program, status, front) == ErrorView::CommandFailed(
            program,
            "exit status "@ + status,
        ),
{
    if complaint.len() > 0 && has_tight_ends(complaint) {
        law_trimmed(front, complaint, back);
    }
    let none = Seq::<char>::empty();
    law_trimmed(front, none, none);
    assert(front + none + none =~= front);
}

/// A command that succeeded gives the text that it wrote, and one that failed the
/// error, whatever it wrote besides its complaint.
pub proof fn law_ended_commands(
    program: Seq<char>,
    status: Seq<char>,
    out: Vec<u8>,
    err: Vec<u8>,
    stream: ReaderOutcome,
)
    ensures
        valid_utf8(out@) ==> run_result(
            program,
            true,
            status,
            ReaderOutcome::Bytes(out),
            ReaderOutcome::Bytes(err),
        ) == Ok::<Seq<char>, ErrorView>(decode_utf8(out@)),
        !valid_utf8(out@) ==> run_result(
            program,
            true,
            status,
            ReaderOutcome::Bytes(out),
            ReaderOutcome::Bytes(err),
        ) == Err::<Seq<char>, ErrorView>(ErrorView::InvalidOutput(program, utf8_refusal(out@))),
        run_result(
            program,
            false,
            status,
            ReaderOutcome::Bytes(out),
            ReaderOutcome::Bytes(err),
        ) == Err::<Seq<char>, ErrorView>(failure_view(program, status, utf8_lossy(err@))),
        read_bytes(program, "stdout"@, stream) matches Err(error) ==> forall|success: bool|
            #[trigger] run_result(program, success, status, stream, ReaderOutcome::Bytes(err))
                == Err::<Seq<char>, ErrorView>(error),
        read_bytes(program, "stderr"@, stream) matches Err(error) ==> forall|success: bool|
            #[trigger] run_result(program, success, status, ReaderOutcome::Bytes(out), stream)
                == Err::<Seq<char>, ErrorView>(error),
{
}

/// A stream that could not be taken is told by its name.
pub proof fn law_missing_pipes(program: &'static str, stream: &str, error: BackendError)
    requires
        call_ensures(missing_pipe, (program, stream), error),
    ensures
        error@ == ErrorView::InvalidOutput(program@, stream@ + " pipe was not captured"@),
{
}

/// A command is waited for as long as it runs and its time is not over. Then it is
/// given up, and so it is where its state cannot be read.
pub proof fn law_watching(
    supervisor: Supervisor,
    program: &'static str,
    start: u64,
    poll: ProcessPoll,
    now: u64,
    step: PollStep,
)
    requires
        call_ensures(Supervisor::new, (program, start), supervisor),
        call_ensures(Supervisor::poll, (&supervisor, poll, now), step),
        start + 5000 <= u64::MAX,
    ensures
        poll is Exited ==> step is Finish,
        poll is Running && now < start + 5000 ==> step == PollStep::Sleep(10),
        poll is Running && now >= start + 5000 ==> step is GiveUp && step->GiveUp_0@
            == ErrorView::Timeout(program@),
        poll matches ProcessPoll::Failed(reason) ==> step is GiveUp && step->GiveUp_0@
            == ErrorView::Io(program@, reason@),
{
}

/// A text that was decoded is what the command gave, and a refusal is told.
pub proof fn law_command_texts(
    program: &'static str,
    text: String,
    reason: String,
    result: Result<String, BackendError>,
)
    ensures
        call_ensures(command_text, (program, Ok::<String, String>(text)), result) ==> result is Ok
            && result->Ok_0@ == text@,
        call_ensures(command_text, (program, Err::<String, String>(reason)), result) ==> result
            is Err && result->Err_0@ == ErrorView::InvalidOutput(program@, reason@),
{
}

/// There is something to say of a link exactly when it does not count as made, or
/// as removed, and this is the error in its words.
pub proof fn law_link_complaints(
    outcome: Result<String, BackendError>,
    creation: Option<String>,
    removal: Option<String>,
)
    requires
        call_ensures(creation_complaint, (&outcome,), creation),
        call_ensures(removal_complaint, (&outcome,), removal),
    ensures
        creation is None <==> link_created(text_result(outcome)) is Ok,
        removal is None <==> link_removed(text_result(outcome)) is Ok,
        link_created(text_result(outcome)) matches Err(error) ==> creation is Some
            && creation->Some_0@ == error_text(error),
        link_removed(text_result(outcome)) matches Err(error) ==> removal is Some
            && removal->Some_0@ == error_text(error),
{
}

} // verus!
