use patchcord::logger::{debug, error, info, init_logging, log_directory, trace, warn, Level};

#[test]
fn lines_bear_their_level() {
    let logger = init_logging(true);
    assert_eq!(error(&logger, "a").as_deref(), Some("[ERROR] a"));
    assert_eq!(warn(&logger, "b").as_deref(), Some("[WARN] b"));
    assert_eq!(info(&logger, "c").as_deref(), Some("[INFO] c"));
    assert_eq!(debug(&logger, "d").as_deref(), Some("[DEBUG] d"));
    assert_eq!(trace(&logger, "").as_deref(), Some("[TRACE] "));
    assert!(logger.writes_file());
}

#[test]
fn debug_and_trace_are_quiet_by_default() {
    let logger = init_logging(false);
    assert_eq!(error(&logger, "a").as_deref(), Some("[ERROR] a"));
    assert_eq!(warn(&logger, "b").as_deref(), Some("[WARN] b"));
    assert_eq!(info(&logger, "c").as_deref(), Some("[INFO] c"));
    assert_eq!(debug(&logger, "d"), None);
    assert_eq!(trace(&logger, "e"), None);
    assert!(!logger.should_log(Level::Debug));
    assert!(logger.should_log(Level::Info));
    assert!(!logger.writes_file());
}

#[test]
fn log_is_kept_with_the_state() {
    let directory = log_directory("/tmp", Some("/home/u"), Some("/state"));
    assert_eq!(directory.base, "/state");
    assert_eq!(directory.below, vec!["patchcord"]);

    let directory = log_directory("/tmp", Some("/home/u"), None);
    assert_eq!(directory.base, "/home/u");
    assert_eq!(directory.below, vec![".local", "state", "patchcord"]);

    let directory = log_directory("/tmp", None, Some("/state"));
    assert_eq!(directory.base, "/state");
    assert_eq!(directory.below, vec!["patchcord"]);

    let directory = log_directory("/tmp", None, None);
    assert_eq!(directory.base, "/tmp");
    assert_eq!(directory.below, vec!["patchcord"]);
}
