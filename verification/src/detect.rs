//! Finding out whether PipeWire is the active audio server.
use vstd::prelude::*;

use crate::cmd::{CommandLine, CommandView};
use crate::error::{text_result, unit_result, BackendError, ErrorView};
use crate::logger::Level;
use crate::messages::{Message, MessageView};
use crate::text::{
    contains, lines, lines_of, lower, lowered, occurs, strip_prefix, trim, trimmed,
};

verus! {

/// The command that tells about the audio server.
pub open spec fn info_command_view() -> CommandView {
    CommandView { program: "pactl"@, args: seq!["info"@] }
}

/// The command that tells about the audio server.
pub fn info_command() -> (command: CommandLine)
    ensures
        command@ == info_command_view(),
{
    let command = CommandLine { program: "pactl", args: vec!["info".to_string()] };
    assert(command@.args =~= seq!["info"@]);
    command
}

/// What the first line that names the server says.
pub open spec fn server_name(lines: Seq<Seq<char>>) -> Option<Seq<char>>
    decreases lines.len(),
{
    if lines.len() == 0 {
        None
    } else if "Server Name:"@.is_prefix_of(lines[0]) {
        Some(trimmed(lines[0].skip("Server Name:"@.len() as int)))
    } else {
        server_name(lines.drop_first())
    }
}

/// Whether the server that is told about is PipeWire.
pub open spec fn detected(info: Result<Seq<char>, ErrorView>) -> Result<bool, ErrorView> {
    match info {
        Err(error) => Err(error),
        Ok(text) => match server_name(lines_of(text)) {
            None => Err(ErrorView::InvalidOutput("pactl"@, "missing `Server Name:` line"@)),
            Some(name) => Ok(occurs(lowered(name), "pipewire"@)),
        },
    }
}

fn find_server_name(lines: &Vec<String>) -> (name: Option<String>)
    ensures
        name.deep_view() == server_name(lines.deep_view()),
{
    let ghost all = lines.deep_view();
    let mut i: usize = 0;
    assert(all.skip(0) =~= all);
    while i < lines.len()
        invariant
            i <= lines.len(),
            all == lines.deep_view(),
            server_name(all) == server_name(all.skip(i as int)),
        decreases lines.len() - i,
    {
        assert(all.skip(i as int)[0] == lines@[i as int]@);
        if let Some(rest) = strip_prefix(lines[i].as_str(), "Server Name:") {
            return Some(trim(rest.as_str()));
        }
        assert(all.skip(i as int).drop_first() =~= all.skip(i + 1));
        i += 1;
    }
    None
}

/// What there is to log of the command that tells about the audio server.
pub open spec fn server_message_view(info: Result<Seq<char>, ErrorView>) -> Option<MessageView> {
    match info {
        Err(_) => None,
        Ok(text) => match server_name(lines_of(text)) {
            None => None,
            Some(name) => Some(
                MessageView {
                    level: Level::Trace,
                    text: "[patchbay] pulse server: "@ + lowered(name),
                },
            ),
        },
    }
}

/// What there is to log of the command that tells about the audio server.
pub fn server_message(info: &Result<String, BackendError>) -> (message: Option<Message>)
    ensures
        message.deep_view() == server_message_view(text_result(*info)),
{
    match info {
        Err(_) => None,
        Ok(text) => match find_server_name(&lines(text.as_str())) {
            None => None,
            Some(name) => {
                let mut text = "[patchbay] pulse server: ".to_string();
                text.append(lower(name.as_str()).as_str());
                Some(Message { level: Level::Trace, text })
            },
        },
    }
}

/// Judges what the command that tells about the audio server gave.
pub fn detect_pipewire(info: Result<String, BackendError>) -> (result: Result<bool, BackendError>)
    ensures
        match result {
            Ok(found) => detected(text_result(info)) == Ok::<bool, ErrorView>(found),
            Err(error) => detected(text_result(info)) == Err::<bool, ErrorView>(error@),
        },
{
    match info {
        Err(error) => Err(error),
        Ok(text) => match find_server_name(&lines(text.as_str())) {
            None => Err(
                BackendError::InvalidOutput("pactl", "missing `Server Name:` line".to_string()),
            ),
            Some(name) => Ok(contains(lower(name.as_str()).as_str(), "pipewire")),
        },
    }
}

/// Whether PipeWire is there. A detection that failed counts as a no.
pub fn has_pipewire(detection: &Result<bool, BackendError>) -> (yes: bool)
    ensures
        yes == (*detection == Ok::<bool, BackendError>(true)),
{
    match detection {
        Ok(found) => *found,
        Err(_) => false,
    }
}

/// Refuses to go on without PipeWire.
pub fn ensure_pipewire(available: bool) -> (result: Result<(), BackendError>)
    ensures
        unit_result(result) == if available {
            Ok::<(), ErrorView>(())
        } else {
            Err(ErrorView::Unsupported)
        },
{
    if available {
        Ok(())
    } else {
        Err(BackendError::Unsupported)
    }
}

/// The server is named by the first line that starts with `Server Name:`, with
/// what follows there, whatever other lines say.
pub proof fn law_first_server_line_counts(lines: Seq<Seq<char>>, i: int)
    requires
        0 <= i < lines.len(),
        "Server Name:"@.is_prefix_of(lines[i]),
        forall|j: int| 0 <= j < i ==> !"Server Name:"@.is_prefix_of(#[trigger] lines[j]),
    ensures
        server_name(lines) == Some(trimmed(lines[i].skip("Server Name:"@.len() as int))),
    decreases i,
{
    if i > 0 {
        let rest = lines.drop_first();
        assert(rest[i - 1] == lines[i]);
        assert forall|j: int| 0 <= j < i - 1 implies !"Server Name:"@.is_prefix_of(
            #[trigger] rest[j],
        ) by {
            assert(rest[j] == lines[j + 1]);
        }
        assert(!"Server Name:"@.is_prefix_of(lines[0]));
        law_first_server_line_counts(rest, i - 1);
    }
}

/// The server has no name only where no line starts with `Server Name:`.
pub proof fn law_nameless_server(lines: Seq<Seq<char>>)
    ensures
        server_name(lines) is None <==> forall|i: int|
            0 <= i < lines.len() ==> !"Server Name:"@.is_prefix_of(#[trigger] lines[i]),
    decreases lines.len(),
{
    if lines.len() > 0 {
        let rest = lines.drop_first();
        law_nameless_server(rest);
        if "Server Name:"@.is_prefix_of(lines[0]) {
        } else {
            if server_name(rest) is None {
                assert forall|i: int| 0 <= i < lines.len() implies !"Server Name:"@.is_prefix_of(
                    #[trigger] lines[i],
                ) by {
                    if i > 0 {
                        assert(rest[i - 1] == lines[i]);
                    }
                }
            } else {
                let i = choose|i: int|
                    0 <= i < rest.len() && "Server Name:"@.is_prefix_of(#[trigger] rest[i]);
                assert("Server Name:"@.is_prefix_of(lines[i + 1]));
            }
        }
    }
}

/// PipeWire is found exactly when the name of the server has its name in it, in
/// whatever case.
pub proof fn law_pipewire_is_found_by_name(text: Seq<char>, i: int, name: Seq<char>)
    requires
        0 <= i < lines_of(text).len(),
        lines_of(text)[i] == "Server Name:"@ + name,
        forall|j: int|
            0 <= j < i ==> !"Server Name:"@.is_prefix_of(#[trigger] lines_of(text)[j]),
    ensures
        detected(Ok(text)) == Ok::<bool, ErrorView>(occurs(lowered(trimmed(name)), "pipewire"@)),
{
    let lines = lines_of(text);
    let head = "Server Name:"@;
    assert(head.is_prefix_of(lines[i])) by {
        assert(lines[i].subrange(0, head.len() as int) =~= head);
    }
    assert(lines[i].skip(head.len() as int) =~= name);
    law_first_server_line_counts(lines, i);
}

/// A server that could not be asked, or that tells no name, is an error.
pub proof fn law_failed_detection(error: ErrorView, text: Seq<char>)
    ensures
        detected(Err(error)) == Err::<bool, ErrorView>(error),
        (forall|i: int|
            0 <= i < lines_of(text).len() ==> !"Server Name:"@.is_prefix_of(
                #[trigger] lines_of(text)[i],
            )) ==> detected(Ok(text)) == Err::<bool, ErrorView>(
            ErrorView::InvalidOutput("pactl"@, "missing `Server Name:` line"@),
        ),
{
    law_nameless_server(lines_of(text));
}

/// The server is asked for with one command, and a name that it tells is logged
/// in lower case.
pub proof fn law_server_is_asked(text: Seq<char>, i: int, name: Seq<char>, error: ErrorView)
    ensures
        info_command_view().program == "pactl"@,
        info_command_view().args == seq!["info"@],
        server_message_view(Err(error)) is None,
        0 <= i < lines_of(text).len() && lines_of(text)[i] == "Server Name:"@ + name && (forall|
            j: int,
        |
            0 <= j < i ==> !"Server Name:"@.is_prefix_of(#[trigger] lines_of(text)[j]))
            ==> server_message_view(Ok(text)) == Some(
            MessageView {
                level: Level::Trace,
                text: "[patchbay] pulse server: "@ + lowered(trimmed(name)),
            },
        ),
        (forall|j: int|
            0 <= j < lines_of(text).len() ==> !"Server Name:"@.is_prefix_of(
                #[trigger] lines_of(text)[j],
            )) ==> server_message_view(Ok(text)) is None,
{
    let lines = lines_of(text);
    let head = "Server Name:"@;
    law_nameless_server(lines);
    if 0 <= i < lines.len() && lines[i] == head + name && (forall|j: int|
        0 <= j < i ==> !head.is_prefix_of(#[trigger] lines[j])) {
        assert(head.is_prefix_of(lines[i])) by {
            assert(lines[i].subrange(0, head.len() as int) =~= head);
        }
        assert(lines[i].skip(head.len() as int) =~= name);
        law_first_server_line_counts(lines, i);
    }
}

/// PipeWire is there only where it was found, and without it nothing is done.
pub proof fn law_pipewire_is_needed(
    found: bool,
    error: BackendError,
    yes: bool,
    result: Result<(), BackendError>,
)
    ensures
        call_ensures(has_pipewire, (&Ok::<bool, BackendError>(found),), yes) ==> yes == found,
        call_ensures(has_pipewire, (&Err::<bool, BackendError>(error),), yes) ==> !yes,
        call_ensures(ensure_pipewire, (true,), result) ==> result is Ok,
        call_ensures(ensure_pipewire, (false,), result) ==> result is Err && result->Err_0@
            is Unsupported,
{
}

} // verus!
