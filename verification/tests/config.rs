use patchcord::config::{mic_config, parse_args, ParsedArgs, PatchbayConfig};

fn parse(args: &[&str]) -> ParsedArgs {
    parse_args(&args.iter().map(|arg| arg.to_string()).collect())
}

#[test]
fn nothing_set_gives_the_defaults() {
    let parsed = parse(&[]);
    assert_eq!(parsed.config, PatchbayConfig::default());
    assert_eq!(parsed.config.sink_prefix, "patchcord-screen-share");
    assert_eq!(parsed.config.sink_description, "GoofCord Screen Share");
    assert!(!parsed.config.virtual_mic);
    assert_eq!(parsed.config.virtual_mic_name, None);
    assert_eq!(parsed.config.virtual_mic_description, None);
    assert!(!parsed.help);
    assert!(parsed.ignored.is_empty());
}

#[test]
fn options_are_read() {
    let parsed = parse(&[
        "--sink-prefix", "audio-share",
        "--sink-description", "Virtual Audio Share",
        "--virtual-mic",
        "--virtual-mic-name", "mic",
        "--virtual-mic-description", "Mic",
    ]);
    assert_eq!(parsed.config.sink_prefix, "audio-share");
    assert_eq!(parsed.config.sink_description, "Virtual Audio Share");
    assert!(parsed.config.virtual_mic);
    assert_eq!(parsed.config.virtual_mic_name.as_deref(), Some("mic"));
    assert_eq!(parsed.config.virtual_mic_description.as_deref(), Some("Mic"));
}

#[test]
fn last_option_wins() {
    let parsed = parse(&["--sink-prefix", "a", "--sink-prefix", "b"]);
    assert_eq!(parsed.config.sink_prefix, "b");
}

#[test]
fn option_values_are_taken_as_they_are() {
    let parsed = parse(&["--sink-prefix", "--help"]);
    assert_eq!(parsed.config.sink_prefix, "--help");
    assert!(!parsed.help);
}

#[test]
fn missing_values_set_nothing() {
    let parsed = parse(&["--virtual-mic", "--sink-description"]);
    assert!(parsed.config.virtual_mic);
    assert_eq!(parsed.config.sink_description, "GoofCord Screen Share");
}

#[test]
fn unknown_arguments_are_ignored() {
    let parsed = parse(&["x", "--virtual-mic", "--what"]);
    assert!(parsed.config.virtual_mic);
    assert_eq!(parsed.ignored, vec!["x", "--what"]);
}

#[test]
fn help_ends_the_reading() {
    for flag in ["-h", "--help"] {
        let parsed = parse(&["x", flag, "--virtual-mic", "y"]);
        assert!(parsed.help);
        assert!(!parsed.config.virtual_mic);
        assert_eq!(parsed.ignored, vec!["x"]);
    }
}

#[test]
fn microphone_is_named_after_the_sink() {
    let parsed = parse(&[
        "--sink-prefix", "audio-share",
        "--sink-description", "Virtual Audio Share",
        "--virtual-mic",
    ]);
    let mic = mic_config(&parsed.config, 7890, 1).unwrap();
    assert_eq!(mic.name, "audio-share-mic-7890-1");
    assert_eq!(mic.description, "Virtual Audio Share (Virtual Mic)");
}

#[test]
fn microphone_has_its_own_names() {
    let parsed = parse(&[
        "--virtual-mic", "--virtual-mic-name", "m", "--virtual-mic-description", "d",
    ]);
    let mic = mic_config(&parsed.config, 1, 2).unwrap();
    assert_eq!(mic.name, "m");
    assert_eq!(mic.description, "d");
    assert!(mic_config(&PatchbayConfig::default(), 1, 2).is_none());
}
