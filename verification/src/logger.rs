//! Which messages are logged, and how.
use vstd::prelude::*;

verus! {

/// How much a message matters.
#[derive(Debug, Clone, Copy, PartialEq, Eq, Structural)]
pub enum Level {
    Error,
    Warn,
    Info,
    Debug,
    Trace,
}

/// The word for a level.
pub open spec fn level_word(level: Level) -> Seq<char> {
    match level {
        Level::Error => "ERROR"@,
        Level::Warn => "WARN"@,
        Level::Info => "INFO"@,
        Level::Debug => "DEBUG"@,
        Level::Trace => "TRACE"@,
    }
}

impl Level {
    /// The word for the level.
    pub fn as_str(self) -> (word: &'static str)
        ensures
            word@ == level_word(self),
    {
        match self {
            Level::Error => "ERROR",
            Level::Warn => "WARN",
            Level::Info => "INFO",
            Level::Debug => "DEBUG",
            Level::Trace => "TRACE",
        }
    }
}

/// Decides what is logged.
#[derive(Debug)]
pub struct Logger {
    trace_enabled: bool,
}

impl View for Logger {
    type V = bool;

    /// Whether debug and trace messages are logged too.
    closed spec fn view(&self) -> bool {
        self.trace_enabled
    }
}

/// Whether messages of a level are logged.
pub open spec fn is_logged(level: Level, trace_enabled: bool) -> bool {
    trace_enabled || !(level is Debug || level is Trace)
}

/// The line that is logged for a message.
pub open spec fn line_for(level: Level, trace_enabled: bool, message: Seq<char>) -> Option<
    Seq<char>,
> {
    if is_logged(level, trace_enabled) {
        Some("["@ + level_word(level) + "] "@ + message)
    } else {
        None
    }
}

/// A logger. With `trace_requested` it logs debug and trace messages too.
pub fn init_logging(trace_requested: bool) -> (logger: Logger)
    ensures
        logger@ == trace_requested,
{
    Logger { trace_enabled: trace_requested }
}

impl Logger {
    /// Whether messages of a level are logged.
    pub fn should_log(&self, level: Level) -> (yes: bool)
        ensures
            yes == is_logged(level, self@),
    {
        match level {
            Level::Error | Level::Warn | Level::Info => true,
            Level::Debug | Level::Trace => self.trace_enabled,
        }
    }

    /// Whether the lines go to a file too.
    pub fn writes_file(&self) -> (yes: bool)
        ensures
            yes == self@,
    {
        self.trace_enabled
    }

    /// The line to log for a message.
    pub fn line(&self, level: Level, message: &str) -> (line: Option<String>)
        ensures
            line.deep_view() == line_for(level, self@, message@),
    {
        if !self.should_log(level) {
            return None;
        }
        let mut line = "[".to_string();
        line.append(level.as_str());
        line.append("] ");
        line.append(message);
        Some(line)
    }
}

/// The line to log for an error.
pub fn error(logger: &Logger, message: &str) -> (line: Option<String>)
    ensures
        line.deep_view() == line_for(Level::Error, logger@, message@),
{
    logger.line(Level::Error, message)
}

/// The line to log for a warning.
pub fn warn(logger: &Logger, message: &str) -> (line: Option<String>)
    ensures
        line.deep_view() == line_for(Level::Warn, logger@, message@),
{
    logger.line(Level::Warn, message)
}

/// The line to log for a piece of information.
pub fn info(logger: &Logger, message: &str) -> (line: Option<String>)
    ensures
        line.deep_view() == line_for(Level::Info, logger@, message@),
{
    logger.line(Level::Info, message)
}

/// The line to log for a debug message.
pub fn debug(logger: &Logger, message: &str) -> (line: Option<String>)
    ensures
        line.deep_view() == line_for(Level::Debug, logger@, message@),
{
    logger.line(Level::Debug, message)
}

/// The line to log for a trace message.
pub fn trace(logger: &Logger, message: &str) -> (line: Option<String>)
    ensures
        line.deep_view() == line_for(Level::Trace, logger@, message@),
{
    logger.line(Level::Trace, message)
}

/// Where the log file is kept: a directory to start from, and the names of the
/// directories below it.
pub struct LogDirectory<P> {
    pub base: P,
    pub below: Vec<&'static str>,
}

/// The directory of the log file: that for the state of programs, or else its
/// usual place in the home directory, or else the directory for temporary
/// files.
pub fn log_directory<P>(temp: P, home: Option<P>, state_home: Option<P>) -> (directory: LogDirectory<
    P,
>)
    ensures
        directory.base == match (state_home, home) {
            (Some(state_home), _) => state_home,
            (None, Some(home)) => home,
            (None, None) => temp,
        },
        directory.below.deep_view() == if state_home is None && home is Some {
            seq![".local"@, "state"@, "patchcord"@]
        } else {
            seq!["patchcord"@]
        },
{
    if let Some(base) = state_home {
        let below: Vec<&'static str> = vec!["patchcord"];
        assert(below.deep_view() =~= seq!["patchcord"@]);
        LogDirectory { base, below }
    } else if let Some(base) = home {
        let below: Vec<&'static str> = vec![".local", "state", "patchcord"];
        assert(below.deep_view() =~= seq![".local"@, "state"@, "patchcord"@]);
        LogDirectory { base, below }
    } else {
        let below: Vec<&'static str> = vec!["patchcord"];
        assert(below.deep_view() =~= seq!["patchcord"@]);
        LogDirectory { base: temp, below }
    }
}

/// Errors, warnings and information are always logged; what else is logged does
/// not depend on the message.
pub proof fn law_what_is_logged(level: Level, trace_enabled: bool, message: Seq<char>)
    ensures
        level is Error || level is Warn || level is Info ==> line_for(
            level,
            trace_enabled,
            message,
        ) is Some,
        level is Debug || level is Trace ==> (line_for(level, trace_enabled, message) is Some
            <==> trace_enabled),
{
}

/// A logged line has the word for its level in brackets before the message.
pub proof fn law_logged_lines(message: Seq<char>)
    ensures
        line_for(Level::Error, false, message) == Some("["@ + "ERROR"@ + "] "@ + message),
        line_for(Level::Warn, false, message) == Some("["@ + "WARN"@ + "] "@ + message),
        line_for(Level::Info, false, message) == Some("["@ + "INFO"@ + "] "@ + message),
        line_for(Level::Debug, true, message) == Some("["@ + "DEBUG"@ + "] "@ + message),
        line_for(Level::Trace, true, message) == Some("["@ + "TRACE"@ + "] "@ + message),
{
}

/// To ask for more to be logged changes no line that is logged anyway.
pub proof fn law_tracing_only_adds(level: Level, message: Seq<char>)
    ensures
        line_for(level, false, message) is Some ==> line_for(level, true, message) == line_for(
            level,
            false,
            message,
        ),
        line_for(level, true, message) is Some,
{
}

/// The log is kept in the directory for the state of programs, or else at its usual
/// place below the home directory, or else among the temporary files.
pub proof fn law_place_of_the_log<P>(
    temp: P,
    home: P,
    state_home: P,
    other: Option<P>,
    kept: LogDirectory<P>,
)
    ensures
        call_ensures(log_directory::<P>, (temp, other, Some(state_home)), kept) ==> kept.base
            == state_home && kept.below.deep_view() == seq!["patchcord"@],
        call_ensures(log_directory::<P>, (temp, Some(home), None::<P>), kept) ==> kept.base == home
            && kept.below.deep_view() == seq![".local"@, "state"@, "patchcord"@],
        call_ensures(log_directory::<P>, (temp, None::<P>, None::<P>), kept) ==> kept.base == temp
            && kept.below.deep_view() == seq!["patchcord"@],
{
}

/// A logger writes its lines to a file exactly when it was asked to trace.
pub proof fn law_log_file(asked: bool, logger: Logger, yes: bool)
    requires
        call_ensures(init_logging, (asked,), logger),
        call_ensures(Logger::writes_file, (&logger,), yes),
    ensures
        yes == asked,
        logger@ == asked,
{
}

} // verus!
