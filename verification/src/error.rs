//! What can go wrong while the audio graph is read or changed.
use vstd::prelude::*;

verus! {

/// A failure, with the program that it concerns where there is one.
#[derive(Debug)]
pub enum BackendError {
    /// PipeWire is not the active audio server.
    Unsupported,
    /// Something did not happen in time.
    Timeout(&'static str),
    /// A program could not be run.
    Io(&'static str, String),
    /// A program ended with a failure; the text is what it wrote about it.
    CommandFailed(&'static str, String),
    /// A program wrote something that cannot be used.
    InvalidOutput(&'static str, String),
    /// The dump of the graph could not be read.
    Json(String),
    /// Anything else, in words.
    Message(String),
}

/// A [`BackendError`] with its texts as sequences of characters.
pub enum ErrorView {
    Unsupported,
    Timeout(Seq<char>),
    Io(Seq<char>, Seq<char>),
    CommandFailed(Seq<char>, Seq<char>),
    InvalidOutput(Seq<char>, Seq<char>),
    Json(Seq<char>),
    Message(Seq<char>),
}

impl View for BackendError {
    type V = ErrorView;

    open spec fn view(&self) -> ErrorView {
        match self {
            BackendError::Unsupported => ErrorView::Unsupported,
            BackendError::Timeout(thing) => ErrorView::Timeout(thing@),
            BackendError::Io(program, source) => ErrorView::Io(program@, source@),
            BackendError::CommandFailed(program, stderr) => ErrorView::CommandFailed(
                program@,
                stderr@,
            ),
            BackendError::InvalidOutput(program, reason) => ErrorView::InvalidOutput(
                program@,
                reason@,
            ),
            BackendError::Json(reason) => ErrorView::Json(reason@),
            BackendError::Message(message) => ErrorView::Message(message@),
        }
    }
}

/// The wording of an error.
pub open spec fn error_text(error: ErrorView) -> Seq<char> {
    match error {
        ErrorView::Unsupported => "PipeWire was not detected as the active audio server"@,
        ErrorView::Timeout(thing) => "timed out waiting for "@ + thing,
        ErrorView::Io(program, source) => "failed to run "@ + program + ": "@ + source,
        ErrorView::CommandFailed(program, stderr) => program + " failed: "@ + stderr,
        ErrorView::InvalidOutput(program, reason) => "invalid output from "@ + program + ": "@
            + reason,
        ErrorView::Json(reason) => "failed to parse PipeWire state: "@ + reason,
        ErrorView::Message(message) => message,
    }
}

/// What a command gave: its text, or the error.
pub open spec fn text_result(result: Result<String, BackendError>) -> Result<Seq<char>, ErrorView> {
    match result {
        Ok(text) => Ok(text@),
        Err(error) => Err(error@),
    }
}

/// A result that carries nothing on success.
pub open spec fn unit_result(result: Result<(), BackendError>) -> Result<(), ErrorView> {
    match result {
        Ok(()) => Ok(()),
        Err(error) => Err(error@),
    }
}

impl BackendError {
    /// The error in words.
    pub fn message(&self) -> (text: String)
        ensures
            text@ == error_text(self@),
    {
        match self {
            BackendError::Unsupported => "PipeWire was not detected as the active audio server".to_string(),
            BackendError::Timeout(thing) => {
                let mut text = "timed out waiting for ".to_string();
                text.append(thing);
                text
            },
            BackendError::Io(program, source) => {
                let mut text = "failed to run ".to_string();
                text.append(program);
                text.append(": ");
                text.append(source.as_str());
                text
            },
            BackendError::CommandFailed(program, stderr) => {
                let mut text = (*program).to_string();
                text.append(" failed: ");
                text.append(stderr.as_str());
                text
            },
            BackendError::InvalidOutput(program, reason) => {
                let mut text = "invalid output from ".to_string();
                text.append(program);
                text.append(": ");
                text.append(reason.as_str());
                text
            },
            BackendError::Json(reason) => {
                let mut text = "failed to parse PipeWire state: ".to_string();
                text.append(reason.as_str());
                text
            },
            BackendError::Message(message) => message.clone(),
        }
    }
}

/// The wording of each error, with all that it tells.
pub proof fn law_wordings(thing: Seq<char>, text: Seq<char>)
    ensures
        error_text(ErrorView::Unsupported)
            == "PipeWire was not detected as the active audio server"@,
        error_text(ErrorView::Timeout(thing)) == "timed out waiting for "@ + thing,
        error_text(ErrorView::Io(thing, text)) == "failed to run "@ + thing + ": "@ + text,
        error_text(ErrorView::CommandFailed(thing, text)) == thing + " failed: "@ + text,
        error_text(ErrorView::InvalidOutput(thing, text)) == "invalid output from "@ + thing + ": "@
            + text,
        error_text(ErrorView::Json(text)) == "failed to parse PipeWire state: "@ + text,
        error_text(ErrorView::Message(text)) == text,
{
}

} // verus!
