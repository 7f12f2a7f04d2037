//! The modules of the audio server that make up the virtual sink and the
//! virtual microphone.
use vstd::prelude::*;

use crate::cmd::{CommandLine, CommandView};
use crate::error::{BackendError, ErrorView};
use crate::text::{
    all_white, chars_of, decimal, is_digit, law_decimal_is_injective, law_number_reads_back,
    law_trimmed, lemma_decimal, number_of, number_refusal, number_text, parse_number, trim, trimmed,
};

verus! {

pub open spec fn escaped_char(c: char) -> Seq<char> {
    if c == '\\' || c == '"' {
        seq!['\\', c]
    } else {
        seq![c]
    }
}

/// `value` with a backslash before each quote and each backslash.
pub open spec fn escaped(value: Seq<char>) -> Seq<char>
    decreases value.len(),
{
    if value.len() == 0 {
        seq![]
    } else {
        escaped(value.drop_last()) + escaped_char(value.last())
    }
}

/// `value` as one quoted word of a module argument.
pub open spec fn quoted(value: Seq<char>) -> Seq<char> {
    seq!['"'] + escaped(value) + seq!['"']
}

/// Quotes `value` for a module argument.
pub fn quote_module_value(value: &str) -> (result: String)
    ensures
        result@ == quoted(value@),
{
    let chars = chars_of(value);
    let mut result = String::new();
    result.push('"');
    let mut i: usize = 0;
    assert(result@ =~= seq!['"'] + escaped(chars@.take(0)));
    while i < chars.len()
        invariant
            i <= chars.len(),
            result@ == seq!['"'] + escaped(chars@.take(i as int)),
        decreases chars.len() - i,
    {
        let c = chars[i];
        let ghost before = result@;
        assert(chars@.take(i + 1).drop_last() =~= chars@.take(i as int));
        if c == '\\' || c == '"' {
            result.push('\\');
        }
        result.push(c);
        assert(result@ =~= before + escaped_char(c));
        assert(seq!['"'] + (escaped(chars@.take(i as int)) + escaped_char(c)) =~= before
            + escaped_char(c));
        i += 1;
    }
    assert(chars@.take(i as int) =~= chars@);
    result.push('"');
    assert(result@ =~= quoted(chars@));
    result
}

/// Reads an escaped text back.
pub open spec fn unescaped(s: Seq<char>) -> Seq<char>
    decreases s.len(),
{
    if s.len() == 0 {
        seq![]
    } else if s[0] == '\\' && s.len() > 1 {
        seq![s[1]] + unescaped(s.skip(2))
    } else {
        seq![s[0]] + unescaped(s.drop_first())
    }
}

/// A quoted value reads back as the value.
pub proof fn law_quoting_reads_back(value: Seq<char>)
    ensures
        quoted(value).len() >= 2,
        quoted(value)[0] == '"',
        quoted(value).last() == '"',
        unescaped(quoted(value).subrange(1, quoted(value).len() - 1)) == value,
{
    let inner = quoted(value).subrange(1, quoted(value).len() - 1);
    assert(inner =~= escaped(value));
    lemma_unescaped(value, seq![]);
    assert(escaped(value) + Seq::<char>::empty() =~= escaped(value));
    assert(value + unescaped(seq![]) =~= value);
}

proof fn lemma_unescaped(value: Seq<char>, rest: Seq<char>)
    ensures
        unescaped(escaped(value) + rest) == value + unescaped(rest),
    decreases value.len(),
{
    if value.len() == 0 {
        assert(escaped(value) + rest =~= rest);
        assert(value + unescaped(rest) =~= unescaped(rest));
    } else {
        let front = value.drop_last();
        let c = value.last();
        let tail = escaped_char(c) + rest;
        assert(escaped(value) + rest =~= escaped(front) + tail);
        lemma_unescaped(front, tail);
        if c == '\\' || c == '"' {
            assert(tail.skip(2) =~= rest);
        } else {
            assert(tail.drop_first() =~= rest);
        }
        assert(unescaped(tail) == seq![c] + unescaped(rest));
        assert(front + (seq![c] + unescaped(rest)) =~= value + unescaped(rest));
    }
}

/// The name of a thing of this process: a prefix, the process id and a number
/// that no other thing of the process has.
pub open spec fn unique_name(prefix: Seq<char>, process_id: u32, unique: u64) -> Seq<char> {
    prefix + "-"@ + decimal(process_id as nat) + "-"@ + decimal(unique as nat)
}

/// Builds the name of a thing of this process.
pub fn make_unique_name(prefix: &str, process_id: u32, unique: u64) -> (name: String)
    ensures
        name@ == unique_name(prefix@, process_id, unique),
{
    let mut name = prefix.to_string();
    name.append("-");
    name.append(number_text(process_id as u64).as_str());
    name.append("-");
    name.append(number_text(unique).as_str());
    name
}

/// Under one prefix and in one process, different numbers give different names.
pub proof fn law_names_are_unique(prefix: Seq<char>, process_id: u32, a: u64, b: u64)
    requires
        a != b,
    ensures
        unique_name(prefix, process_id, a) != unique_name(prefix, process_id, b),
{
    let head = prefix + "-"@ + decimal(process_id as nat) + "-"@;
    let n = head.len() as int;
    let x = unique_name(prefix, process_id, a);
    let y = unique_name(prefix, process_id, b);
    assert(x.skip(n) =~= decimal(a as nat));
    assert(y.skip(n) =~= decimal(b as nat));
    law_decimal_is_injective(a as nat, b as nat);
}

/// The name of the source that carries what is played to a sink.
pub open spec fn monitor_of(sink_name: Seq<char>) -> Seq<char> {
    sink_name + ".monitor"@
}

/// The command that makes a stereo sink that plays to nowhere.
pub open spec fn load_sink_view(sink_name: Seq<char>, description: Seq<char>) -> CommandView {
    CommandView {
        program: "pactl"@,
        args: seq![
            "load-module"@,
            "module-null-sink"@,
            "sink_name="@ + sink_name,
            "channels=2"@,
            "channel_map=front-left,front-right"@,
            "sink_properties=device.description="@ + quoted(description) + " node.description="@
                + quoted(description) + " node.name="@ + quoted(sink_name),
        ],
    }
}

/// The command that makes a microphone of the monitor of a sink.
pub open spec fn load_mic_view(
    sink_name: Seq<char>,
    mic_name: Seq<char>,
    description: Seq<char>,
) -> CommandView {
    CommandView {
        program: "pactl"@,
        args: seq![
            "load-module"@,
            "module-remap-source"@,
            "master="@ + monitor_of(sink_name),
            "source_name="@ + mic_name,
            "source_properties=device.description="@ + quoted(description) + " node.description="@
                + quoted(description) + " node.name="@ + quoted(mic_name),
        ],
    }
}

/// The command that takes a module away.
pub open spec fn unload_view(module_id: u32) -> CommandView {
    CommandView { program: "pactl"@, args: seq!["unload-module"@, decimal(module_id as nat)] }
}

/// The name of the source that carries what is played to `sink_name`.
pub fn monitor_name(sink_name: &str) -> (name: String)
    ensures
        name@ == monitor_of(sink_name@),
{
    let mut name = sink_name.to_string();
    name.append(".monitor");
    name
}

fn properties_argument(head: &str, description: &str, name: &str) -> (argument: String)
    ensures
        argument@ == head@ + quoted(description@) + " node.description="@ + quoted(description@)
            + " node.name="@ + quoted(name@),
{
    let mut argument = head.to_string();
    argument.append(quote_module_value(description).as_str());
    argument.append(" node.description=");
    argument.append(quote_module_value(description).as_str());
    argument.append(" node.name=");
    argument.append(quote_module_value(name).as_str());
    argument
}

/// The command that makes the virtual sink.
pub fn load_sink_command(sink_name: &str, description: &str) -> (command: CommandLine)
    ensures
        command@ == load_sink_view(sink_name@, description@),
{
    let mut name_argument = "sink_name=".to_string();
    name_argument.append(sink_name);
    let command = CommandLine {
        program: "pactl",
        args: vec![
            "load-module".to_string(),
            "module-null-sink".to_string(),
            name_argument,
            "channels=2".to_string(),
            "channel_map=front-left,front-right".to_string(),
            properties_argument("sink_properties=device.description=", description, sink_name),
        ],
    };
    assert(command@.args =~= load_sink_view(sink_name@, description@).args);
    command
}

/// The command that makes the virtual microphone.
pub fn load_mic_command(sink_name: &str, mic_name: &str, description: &str) -> (command:
    CommandLine)
    ensures
        command@ == load_mic_view(sink_name@, mic_name@, description@),
{
    let mut master_argument = "master=".to_string();
    master_argument.append(monitor_name(sink_name).as_str());
    let mut name_argument = "source_name=".to_string();
    name_argument.append(mic_name);
    let command = CommandLine {
        program: "pactl",
        args: vec![
            "load-module".to_string(),
            "module-remap-source".to_string(),
            master_argument,
            name_argument,
            properties_argument("source_properties=device.description=", description, mic_name),
        ],
    };
    assert(command@.args =~= load_mic_view(sink_name@, mic_name@, description@).args);
    command
}

/// The command that takes a module away.
pub fn unload_command(module_id: u32) -> (command: CommandLine)
    ensures
        command@ == unload_view(module_id),
{
    let command = CommandLine {
        program: "pactl",
        args: vec!["unload-module".to_string(), number_text(module_id as u64)],
    };
    assert(command@.args =~= unload_view(module_id).args);
    command
}

/// The id of a module, from what was made of the text that tells it.
pub fn accept_module_id(parsed: Result<u32, String>) -> (result: Result<u32, BackendError>)
    ensures
        match parsed {
            Ok(id) => result == Ok::<u32, BackendError>(id),
            Err(reason) => result matches Err(error) && error@ == ErrorView::InvalidOutput(
                "pactl"@,
                "failed to parse module id: "@ + reason@,
            ),
        },
{
    match parsed {
        Ok(id) => Ok(id),
        Err(reason) => {
            let mut text = "failed to parse module id: ".to_string();
            text.append(reason.as_str());
            Err(BackendError::InvalidOutput("pactl", text))
        },
    }
}

/// The module id that a text tells.
pub open spec fn module_id_of(text: Seq<char>) -> Result<u32, ErrorView> {
    match number_of(trimmed(text)) {
        Some(id) => Ok(id),
        None => Err(
            ErrorView::InvalidOutput(
                "pactl"@,
                "failed to parse module id: "@ + number_refusal(trimmed(text)),
            ),
        ),
    }
}

/// Reads the module id that the audio server answers a load with.
pub fn parse_module_id(text: &str) -> (result: Result<u32, BackendError>)
    ensures
        match result {
            Ok(id) => module_id_of(text@) == Ok::<u32, ErrorView>(id),
            Err(error) => module_id_of(text@) == Err::<u32, ErrorView>(error@),
        },
{
    accept_module_id(parse_number(trim(text).as_str()))
}

/// A character is escaped exactly when it is a backslash or a quote, and every
/// other one stands for itself.
pub proof fn law_escaping(value: Seq<char>, c: char)
    ensures
        escaped(seq![]) == Seq::<char>::empty(),
        c == '\\' || c == '"' ==> escaped(value.push(c)) == escaped(value) + seq!['\\', c],
        c != '\\' && c != '"' ==> escaped(value.push(c)) == escaped(value).push(c),
        quoted(value) == seq!['"'] + escaped(value) + seq!['"'],
{
    assert(value.push(c).drop_last() =~= value);
    if c != '\\' && c != '"' {
        assert(escaped(value) + seq![c] =~= escaped(value).push(c));
    }
}

/// The name of a thing of a process, and the name of the monitor of a sink.
pub proof fn law_made_up_names(prefix: Seq<char>, process_id: u32, unique: u64)
    ensures
        unique_name(prefix, process_id, unique) == prefix + "-"@ + decimal(process_id as nat) + "-"@
            + decimal(unique as nat),
        monitor_of(prefix) == prefix + ".monitor"@,
{
}

/// The command that makes the sink: a stereo sink with the name and the
/// description, both quoted where they stand among other properties.
pub proof fn law_sink_command(sink_name: Seq<char>, description: Seq<char>)
    ensures
        ({
            let command = load_sink_view(sink_name, description);
            let told = quoted(description);
            &&& command.program == "pactl"@
            &&& command.args.len() == 6
            &&& command.args[0] == "load-module"@
            &&& command.args[1] == "module-null-sink"@
            &&& command.args[2] == "sink_name="@ + sink_name
            &&& command.args[3] == "channels=2"@
            &&& command.args[4] == "channel_map=front-left,front-right"@
            &&& command.args[5] == "sink_properties=device.description="@ + told
                + " node.description="@ + told + " node.name="@ + quoted(sink_name)
        }),
{
}

/// The command that makes the microphone: it takes up what the monitor of the
/// sink carries, under the name and the description.
pub proof fn law_microphone_command(
    sink_name: Seq<char>,
    mic_name: Seq<char>,
    description: Seq<char>,
)
    ensures
        ({
            let command = load_mic_view(sink_name, mic_name, description);
            let told = quoted(description);
            &&& command.program == "pactl"@
            &&& command.args.len() == 5
            &&& command.args[0] == "load-module"@
            &&& command.args[1] == "module-remap-source"@
            &&& command.args[2] == "master="@ + (sink_name + ".monitor"@)
            &&& command.args[3] == "source_name="@ + mic_name
            &&& command.args[4] == "source_properties=device.description="@ + told
                + " node.description="@ + told + " node.name="@ + quoted(mic_name)
        }),
{
}

/// The command that takes a module away names it, so that commands for different
/// modules differ.
pub proof fn law_unload_command(a: u32, b: u32)
    ensures
        unload_view(a).program == "pactl"@,
        unload_view(a).args == seq!["unload-module"@, decimal(a as nat)],
        unload_view(a) == unload_view(b) ==> a == b,
{
    assert(unload_view(a).args[1] == decimal(a as nat));
    assert(unload_view(b).args[1] == decimal(b as nat));
    if a != b {
        law_decimal_is_injective(a as nat, b as nat);
    }
}

/// A module id is read whatever white space stands around it, and a text that
/// holds anything else is refused.
pub proof fn law_module_ids(front: Seq<char>, id: u32, back: Seq<char>, text: Seq<char>)
    requires
        all_white(front),
        all_white(back),
    ensures
        module_id_of(front + decimal(id as nat) + back) == Ok::<u32, ErrorView>(id),
        number_of(trimmed(text)) is None ==> module_id_of(text) == Err::<u32, ErrorView>(
            ErrorView::InvalidOutput(
                "pactl"@,
                "failed to parse module id: "@ + number_refusal(trimmed(text)),
            ),
        ),
{
    let digits = decimal(id as nat);
    lemma_decimal(id as nat);
    assert(is_digit(digits[0]));
    assert(is_digit(digits[digits.len() - 1]));
    law_trimmed(front, digits, back);
    law_number_reads_back(id);
}

/// An id that was read is the id of the module, and a refusal is told.
pub proof fn law_accepted_module_ids(id: u32, reason: String, result: Result<u32, BackendError>)
    ensures
        call_ensures(accept_module_id, (Ok::<u32, String>(id),), result) ==> result is Ok
            && result->Ok_0 == id,
        call_ensures(accept_module_id, (Err::<u32, String>(reason),), result) ==> result is Err
            && result->Err_0@ == ErrorView::InvalidOutput(
            "pactl"@,
            "failed to parse module id: "@ + reason@,
        ),
{
}

} // verus!
