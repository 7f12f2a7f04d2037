use patchcord::detect::{
    detect_pipewire, ensure_pipewire, has_pipewire, info_command, server_message,
};
use patchcord::error::BackendError;
use patchcord::logger::Level;

fn detect(info: &str) -> Result<bool, BackendError> {
    detect_pipewire(Ok(info.to_string()))
}

#[test]
fn server_is_asked_for() {
    assert_eq!(info_command().program, "pactl");
    assert_eq!(info_command().args, vec!["info"]);
}

#[test]
fn pipewire_is_found_by_the_server_name() {
    let info = "Server String: x\nServer Name: PulseAudio (on PipeWire 1.0.5)\nOther: y\n";
    assert!(matches!(detect(info), Ok(true)));
    assert!(matches!(detect("Server Name: pulseaudio\n"), Ok(false)));
    assert!(matches!(detect("Server Name: a\nServer Name: PipeWire\n"), Ok(false)));
    assert!(matches!(detect("Server Name:PIPEWIRE"), Ok(true)));
}

#[test]
fn server_name_is_needed() {
    for info in ["", "Other: PipeWire\n", " Server Name: PipeWire\n"] {
        match detect(info) {
            Err(error) => assert_eq!(
                error.message(),
                "invalid output from pactl: missing `Server Name:` line"
            ),
            Ok(found) => panic!("{found}"),
        }
    }
}

#[test]
fn failed_detection_counts_as_absent() {
    let failed = detect_pipewire(Err(BackendError::Timeout("pactl")));
    assert!(matches!(failed, Err(BackendError::Timeout("pactl"))));
    assert!(!has_pipewire(&failed));
    assert!(has_pipewire(&Ok(true)));
    assert!(!has_pipewire(&Ok(false)));
}

#[test]
fn pipewire_is_required() {
    assert!(ensure_pipewire(true).is_ok());
    assert!(matches!(ensure_pipewire(false), Err(BackendError::Unsupported)));
}

#[test]
fn server_is_logged() {
    let message = server_message(&Ok("Server Name:  PulseAudio (on PipeWire)\n".to_string())).unwrap();
    assert_eq!(message.level, Level::Trace);
    assert_eq!(message.text, "[patchbay] pulse server: pulseaudio (on pipewire)");
    assert!(server_message(&Ok("".to_string())).is_none());
    assert!(server_message(&Err(BackendError::Timeout("pactl"))).is_none());
}
