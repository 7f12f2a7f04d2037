use patchcord::error::BackendError;
use patchcord::modules::{
    accept_module_id, load_mic_command, load_sink_command, make_unique_name, monitor_name,
    parse_module_id, quote_module_value, unload_command,
};

#[test]
fn test_quote_module_value() {
    // Standard string
    assert_eq!(quote_module_value("GoofCord Share"), "\"GoofCord Share\"");

    // String with quotes (should be escaped)
    assert_eq!(quote_module_value("My \"App\""), "\"My \\\"App\\\"\"");

    // String with slashes
    assert_eq!(quote_module_value("C:\\App"), "\"C:\\\\App\"");
}

#[test]
fn quote_module_value_escapes_quotes_and_backslashes() {
    assert_eq!(quote_module_value(r#"a"b\c"#), r#""a\"b\\c""#);
}

fn unquote(quoted: &str) -> String {
    let inner = &quoted[1..quoted.len() - 1];
    let mut text = String::new();
    let mut chars = inner.chars();
    while let Some(c) = chars.next() {
        if c == '\\' {
            text.push(chars.next().unwrap());
        } else {
            text.push(c);
        }
    }
    text
}

#[test]
fn quoting_reads_back() {
    for value in ["", "plain", "\\", "\"", "\\\"\\", "ü\"ß\\"] {
        assert_eq!(unquote(&quote_module_value(value)), value);
    }
}

#[test]
fn names_hold_the_process_and_a_number() {
    assert_eq!(make_unique_name("audio-share", 7890, 1), "audio-share-7890-1");
    assert_eq!(
        make_unique_name("p", u32::MAX, u64::MAX),
        "p-4294967295-18446744073709551615"
    );
}

#[test]
fn names_are_unique() {
    assert_ne!(make_unique_name("p", 1, 2), make_unique_name("p", 1, 3));
    assert_ne!(make_unique_name("p", 1, 1), make_unique_name("p", 1, 11));
}

#[test]
fn monitors_are_named_after_their_sink() {
    assert_eq!(monitor_name("audio-share-7890-1"), "audio-share-7890-1.monitor");
}

#[test]
fn sink_is_loaded_as_a_null_sink() {
    let command = load_sink_command("sink-1", "My \"Share\"");
    assert_eq!(command.program, "pactl");
    assert_eq!(
        command.args,
        vec![
            "load-module",
            "module-null-sink",
            "sink_name=sink-1",
            "channels=2",
            "channel_map=front-left,front-right",
            "sink_properties=device.description=\"My \\\"Share\\\"\" \
             node.description=\"My \\\"Share\\\"\" node.name=\"sink-1\"",
        ]
    );
}

#[test]
fn mic_is_loaded_on_the_monitor() {
    let command = load_mic_command("sink-1", "mic-1", "Mic");
    assert_eq!(command.program, "pactl");
    assert_eq!(
        command.args,
        vec![
            "load-module",
            "module-remap-source",
            "master=sink-1.monitor",
            "source_name=mic-1",
            "source_properties=device.description=\"Mic\" node.description=\"Mic\" \
             node.name=\"mic-1\"",
        ]
    );
}

#[test]
fn modules_are_unloaded_by_id() {
    let command = unload_command(536870913);
    assert_eq!(command.program, "pactl");
    assert_eq!(command.args, vec!["unload-module", "536870913"]);
}

#[test]
fn module_ids_are_read() {
    assert!(matches!(parse_module_id("42\n"), Ok(42)));
    assert!(matches!(parse_module_id("  +7 "), Ok(7)));
    assert!(matches!(parse_module_id("4294967295"), Ok(u32::MAX)));
}

#[test]
fn bad_module_ids_are_refused() {
    for text in ["", "x", "-1", "4294967296", "1 2"] {
        match parse_module_id(text) {
            Err(BackendError::InvalidOutput(program, reason)) => {
                assert_eq!(program, "pactl");
                let expected = text.trim().parse::<u32>().unwrap_err().to_string();
                assert_eq!(reason, format!("failed to parse module id: {expected}"));
            }
            other => panic!("{other:?}"),
        }
    }
}

#[test]
fn parsed_module_ids_are_judged() {
    assert!(matches!(accept_module_id(Ok(3)), Ok(3)));
    match accept_module_id(Err("no digits".to_string())) {
        Err(error) => assert_eq!(
            error.message(),
            "invalid output from pactl: failed to parse module id: no digits"
        ),
        Ok(_) => panic!("an id was made up"),
    }
}
