use patchcord::cmd::{
    command_failure, command_text, create_link, create_link_command, creation_complaint, dump_command, join_reader,
    listing_command, missing_pipe, removal_complaint, remove_link, remove_link_command, run_text, PollStep,
    ProcessPoll, ReaderOutcome, Supervisor, COMMAND_POLL_MS, COMMAND_TIMEOUT_MS,
};
use patchcord::error::BackendError;
use patchcord::models::PortDirection;

fn failed(stderr: &str) -> Result<String, BackendError> {
    Err(BackendError::CommandFailed("pw-link", stderr.to_string()))
}

fn bytes(text: &str) -> ReaderOutcome {
    ReaderOutcome::Bytes(text.as_bytes().to_vec())
}

fn complaint<T>(result: Result<T, BackendError>) -> String {
    match result {
        Ok(_) => panic!("no error"),
        Err(error) => error.message(),
    }
}

#[test]
fn commands_are_spelled_out() {
    assert_eq!(dump_command().program, "pw-dump");
    assert!(dump_command().args.is_empty());
    assert_eq!(listing_command(PortDirection::Input).args, vec!["-I", "-i"]);
    assert_eq!(listing_command(PortDirection::Output).args, vec!["-I", "-o"]);
    assert_eq!(listing_command(PortDirection::Output).program, "pw-link");
    assert_eq!(create_link_command("a", "b").args, vec!["-L", "a", "b"]);
    assert_eq!(remove_link_command("a", "b").args, vec!["-d", "a", "b"]);
    assert_eq!(remove_link_command("a", "b").program, "pw-link");
}

#[test]
fn existing_links_are_as_good_as_new_ones() {
    assert!(create_link(Ok("".to_string())).is_ok());
    assert!(create_link(failed("failed to link ports: File exists")).is_ok());
    assert!(create_link(failed("FILE EXISTS")).is_ok());
    assert_eq!(complaint(create_link(failed("No such port"))), "pw-link failed: No such port");
    assert!(matches!(
        create_link(Err(BackendError::Timeout("pw-link"))),
        Err(BackendError::Timeout("pw-link"))
    ));
}

#[test]
fn missing_links_are_as_good_as_removed_ones() {
    assert!(remove_link(Ok("x".to_string())).is_ok());
    assert!(remove_link(failed("No such file or directory")).is_ok());
    assert!(remove_link(failed("Link NOT FOUND")).is_ok());
    assert!(remove_link(failed("it does not exist")).is_ok());
    assert_eq!(complaint(remove_link(failed("busy"))), "pw-link failed: busy");
    assert!(matches!(
        remove_link(Err(BackendError::Unsupported)),
        Err(BackendError::Unsupported)
    ));
}

#[test]
fn commands_are_polled_until_their_deadline() {
    let supervisor = Supervisor::new("pactl", 1000);
    let deadline = 1000 + COMMAND_TIMEOUT_MS;
    assert!(matches!(supervisor.poll(ProcessPoll::Exited, 1001), PollStep::Finish));
    assert!(matches!(supervisor.poll(ProcessPoll::Exited, deadline + 1), PollStep::Finish));
    assert!(matches!(
        supervisor.poll(ProcessPoll::Running, deadline - 1),
        PollStep::Sleep(COMMAND_POLL_MS)
    ));
    match supervisor.poll(ProcessPoll::Running, deadline) {
        PollStep::GiveUp(error) => assert_eq!(error.message(), "timed out waiting for pactl"),
        other => panic!("{other:?}"),
    }
    match supervisor.poll(ProcessPoll::Failed("gone".to_string()), 1001) {
        PollStep::GiveUp(error) => assert_eq!(error.message(), "failed to run pactl: gone"),
        other => panic!("{other:?}"),
    }
}

#[test]
fn clock_does_not_overflow() {
    let supervisor = Supervisor::new("pactl", u64::MAX - 1);
    assert!(matches!(supervisor.poll(ProcessPoll::Running, u64::MAX - 1), PollStep::Sleep(_)));
    assert!(matches!(supervisor.poll(ProcessPoll::Running, u64::MAX), PollStep::GiveUp(_)));
}

#[test]
fn readers_are_joined() {
    assert_eq!(join_reader("pactl", "stdout", bytes("abc")).unwrap(), b"abc".to_vec());
    assert_eq!(
        complaint(join_reader("pactl", "stdout", ReaderOutcome::Failed("eof".to_string()))),
        "invalid output from pactl: failed to read stdout: eof"
    );
    assert_eq!(
        complaint(join_reader("pactl", "stderr", ReaderOutcome::Panicked)),
        "invalid output from pactl: stderr reader thread panicked"
    );
    assert_eq!(
        missing_pipe("pactl", "stdout").message(),
        "invalid output from pactl: stdout pipe was not captured"
    );
}

#[test]
fn successful_commands_give_their_text() {
    let text = run_text("pactl", true, "exit status: 0", bytes("Grüße\n"), bytes("noise"));
    assert_eq!(text.unwrap(), "Grüße\n");
}

#[test]
fn text_must_be_utf8() {
    let raw = vec![b'a', 0xff];
    let expected = String::from_utf8(raw.clone()).unwrap_err().to_string();
    let result = run_text("pactl", true, "0", ReaderOutcome::Bytes(raw), bytes(""));
    assert_eq!(complaint(result), format!("invalid output from pactl: {expected}"));
}

#[test]
fn failed_commands_tell_why() {
    let result = run_text("pw-link", false, "exit status: 1", bytes("out"), bytes(" oops \n"));
    assert_eq!(complaint(result), "pw-link failed: oops");
    let result = run_text("pw-link", false, "signal: 9", bytes("out"), bytes(" \n"));
    assert_eq!(complaint(result), "pw-link failed: exit status signal: 9");
    let raw = ReaderOutcome::Bytes(vec![0xff, b'!']);
    let result = run_text("pw-link", false, "1", bytes(""), raw);
    assert_eq!(complaint(result), "pw-link failed: \u{fffd}!");
}

#[test]
fn broken_readers_come_before_the_exit_status() {
    let result = run_text("pactl", false, "1", ReaderOutcome::Panicked, ReaderOutcome::Panicked);
    assert_eq!(complaint(result), "invalid output from pactl: stdout reader thread panicked");
    let result = run_text("pactl", true, "0", bytes(""), ReaderOutcome::Panicked);
    assert_eq!(complaint(result), "invalid output from pactl: stderr reader thread panicked");
}

#[test]
fn outcomes_are_worded() {
    assert_eq!(command_failure("p", "1", "x").message(), "p failed: x");
    assert_eq!(command_text("p", Ok("t".to_string())).unwrap(), "t");
    assert_eq!(complaint(command_text("p", Err("r".to_string()))), "invalid output from p: r");
}

#[test]
fn errors_are_worded() {
    assert_eq!(
        BackendError::Unsupported.message(),
        "PipeWire was not detected as the active audio server"
    );
    assert_eq!(BackendError::Timeout("x").message(), "timed out waiting for x");
    assert_eq!(BackendError::Io("p", "s".to_string()).message(), "failed to run p: s");
    assert_eq!(BackendError::CommandFailed("p", "s".to_string()).message(), "p failed: s");
    assert_eq!(
        BackendError::InvalidOutput("p", "r".to_string()).message(),
        "invalid output from p: r"
    );
    assert_eq!(
        BackendError::Json("Error".to_string()).message(),
        "failed to parse PipeWire state: Error"
    );
    assert_eq!(BackendError::Message("m".to_string()).message(), "m");
}

#[test]
fn complaints_are_about_failures_only() {
    assert_eq!(creation_complaint(&Ok("".to_string())), None);
    assert_eq!(creation_complaint(&failed("File exists")), None);
    assert_eq!(creation_complaint(&failed("busy")).as_deref(), Some("pw-link failed: busy"));
    assert_eq!(removal_complaint(&Ok("".to_string())), None);
    assert_eq!(removal_complaint(&failed("not found")), None);
    let other = Err(BackendError::CommandFailed("pactl", "busy".to_string()));
    assert_eq!(removal_complaint(&other).as_deref(), Some("pw-link failed: busy"));
    assert_eq!(creation_complaint(&other).as_deref(), Some("pactl failed: busy"));
    let timeout = Err(BackendError::Timeout("x"));
    assert_eq!(removal_complaint(&timeout).as_deref(), Some("timed out waiting for x"));
}
