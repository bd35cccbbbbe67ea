//! What the client makes of the frames it reads: what to print, where, and
//! whether to read on.

use vstd::prelude::*;
use vstd::string::StringExecFns;
use crate::codec::format::parse_response;
use crate::codec::{decode_response, DecodeError};
use crate::executor::PONG;
use crate::protocol::{BridgeCommand, BridgeResponse, ResponseView};
use crate::text::{join, same_text};

verus! {

/// Where the client prints.
#[derive(Debug, Clone, Copy, PartialEq, Eq, Structural)]
pub enum Sink {
    Stdout,
    Stderr,
}

/// Text to print, exactly as given: a line break is part of the text where
/// one is due.
#[derive(Debug, PartialEq, Eq)]
pub struct Print {
    pub sink: Sink,
    pub text: String,
}

/// Mathematical model of a [`Print`].
pub struct PrintView {
    pub sink: Sink,
    pub text: Seq<char>,
}

impl View for Print {
    type V = PrintView;

    open spec fn view(&self) -> PrintView {
        PrintView { sink: self.sink, text: self.text@ }
    }
}

/// What the client does with one frame of a streamed reply.
#[derive(Debug, PartialEq, Eq)]
pub struct StreamStep {
    /// What to print, if anything.
    pub print: Option<Print>,
    /// Whether to read the next frame.
    pub proceed: bool,
}

/// Mathematical model of a [`StreamStep`].
pub struct StreamStepView {
    pub print: Option<PrintView>,
    pub proceed: bool,
}

impl View for StreamStep {
    type V = StreamStepView;

    open spec fn view(&self) -> StreamStepView {
        StreamStepView {
            print: match self.print {
                Some(print) => Some(print@),
                None => None,
            },
            proceed: self.proceed,
        }
    }
}

/// The line break.
pub const LINE_BREAK: &'static str = "\n";

/// What is printed when the server is alive.
pub const ALIVE: &'static str = "Pong! Server is alive.\n";

/// What is printed when the server closed the connection without a response.
pub const NO_RESPONSE: &'static str = "Server did not provide a response.\n";

/// What precedes an error that the server reported.
pub const REMOTE_ERROR: &'static str = "Remote Error: ";

/// What is printed for a response that no single reply holds.
pub const UNEXPECTED_SINGLE: &'static str =
    "Received unexpected response type for single command.\n";

/// What is printed for a response that no streamed reply holds.
pub const UNEXPECTED_STREAM: &'static str = "Received unexpected response type during stream.\n";

/// The report of an error that the server sent.
pub open spec fn remote_error(message: Seq<char>) -> PrintView {
    PrintView { sink: Sink::Stderr, text: REMOTE_ERROR@ + message + LINE_BREAK@ }
}

/// What the client prints for the response to a command that is answered once.
pub open spec fn single_print(response: ResponseView) -> Option<PrintView> {
    match response {
        ResponseView::Success(text) => if text == PONG@ {
            Some(PrintView { sink: Sink::Stdout, text: ALIVE@ })
        } else if text.len() > 0 {
            Some(PrintView { sink: Sink::Stdout, text })
        } else {
            None
        },
        ResponseView::Error(message) => Some(remote_error(message)),
        _ => Some(PrintView { sink: Sink::Stderr, text: UNEXPECTED_SINGLE@ }),
    }
}

/// What the client does with one response of a streamed reply.
pub open spec fn stream_step(response: ResponseView) -> StreamStepView {
    match response {
        ResponseView::StreamChunk(line) => StreamStepView {
            print: Some(PrintView { sink: Sink::Stdout, text: line + LINE_BREAK@ }),
            proceed: true,
        },
        ResponseView::StreamEnd => StreamStepView { print: None, proceed: false },
        ResponseView::Error(message) => StreamStepView {
            print: Some(remote_error(message)),
            proceed: false,
        },
        ResponseView::Success(_) => StreamStepView {
            print: Some(PrintView { sink: Sink::Stderr, text: UNEXPECTED_STREAM@ }),
            proceed: true,
        },
    }
}

/// What the client does after trying to read the one frame of a single
/// reply. `None` stands for a connection that closed before a length prefix
/// arrived; an empty payload is passed over in silence.
pub open spec fn single_outcome(frame: Option<Seq<u8>>) -> Result<Option<PrintView>, DecodeError> {
    match frame {
        None => Ok(Some(PrintView { sink: Sink::Stderr, text: NO_RESPONSE@ })),
        Some(payload) => if payload.len() == 0 {
            Ok(None)
        } else {
            match parse_response(payload) {
                Err(e) => Err(e),
                Ok(response) => Ok(single_print(response)),
            }
        },
    }
}

/// What the client does after trying to read the next frame of a streamed
/// reply. `None` stands for a connection that closed before a length prefix
/// arrived, which ends the reply quietly.
pub open spec fn stream_outcome(frame: Option<Seq<u8>>) -> Result<StreamStepView, DecodeError> {
    match frame {
        None => Ok(StreamStepView { print: None, proceed: false }),
        Some(payload) => match parse_response(payload) {
            Err(e) => Err(e),
            Ok(response) => Ok(stream_step(response)),
        },
    }
}

/// Whether the reply to `command` is streamed: the client then reads frames
/// until the reply is ended, and else reads one frame.
pub fn expects_stream(command: &BridgeCommand) -> (streamed: bool)
    ensures
        streamed == (command@ is Stream),
{
    match command {
        BridgeCommand::Stream { .. } => true,
        _ => false,
    }
}

/// The report of an error that the server sent.
fn report_remote_error(message: &str) -> (print: Print)
    ensures
        print@ == remote_error(message@),
{
    let mut text = join(REMOTE_ERROR, message);
    text.append(LINE_BREAK);
    Print { sink: Sink::Stderr, text }
}

/// Text for the error stream.
fn complain(text: &str) -> (print: Print)
    ensures
        print@ == (PrintView { sink: Sink::Stderr, text: text@ }),
{
    Print { sink: Sink::Stderr, text: String::from_str(text) }
}

/// What to print for the response to a command that is answered once.
pub fn print_single(response: BridgeResponse) -> (print: Option<Print>)
    ensures
        match print {
            Some(p) => single_print(response@) == Some(p@),
            None => single_print(response@) == None::<PrintView>,
        },
{
    match response {
        BridgeResponse::Success(text) => {
            if same_text(text.as_str(), PONG) {
                Some(Print { sink: Sink::Stdout, text: String::from_str(ALIVE) })
            } else if !text.as_str().is_empty() {
                Some(Print { sink: Sink::Stdout, text })
            } else {
                None
            }
        },
        BridgeResponse::Error(message) => Some(report_remote_error(message.as_str())),
        _ => Some(complain(UNEXPECTED_SINGLE)),
    }
}

/// What to do with one response of a streamed reply.
pub fn step_stream(response: BridgeResponse) -> (step: StreamStep)
    ensures
        step@ == stream_step(response@),
{
    match response {
        BridgeResponse::StreamChunk(line) => {
            let mut text = line;
            text.append(LINE_BREAK);
            StreamStep { print: Some(Print { sink: Sink::Stdout, text }), proceed: true }
        },
        BridgeResponse::StreamEnd => StreamStep { print: None, proceed: false },
        BridgeResponse::Error(message) => StreamStep {
            print: Some(report_remote_error(message.as_str())),
            proceed: false,
        },
        BridgeResponse::Success(_) => StreamStep {
            print: Some(complain(UNEXPECTED_STREAM)),
            proceed: true,
        },
    }
}

/// Decides what to print after trying to read the one frame of a single
/// reply: pass the payload of the frame, or `None` when the connection closed
/// before a length prefix arrived. A payload that is no response is an error.
pub fn handle_single_response(frame: Option<&[u8]>) -> (r: Result<Option<Print>, DecodeError>)
    ensures
        match r {
            Ok(Some(p)) => single_outcome(frame_view(frame)) == Ok::<
                Option<PrintView>,
                DecodeError,
            >(Some(p@)),
            Ok(None) => single_outcome(frame_view(frame)) == Ok::<Option<PrintView>, DecodeError>(
                None,
            ),
            Err(e) => single_outcome(frame_view(frame)) == Err::<Option<PrintView>, DecodeError>(
                e,
            ),
        },
{
    match frame {
        None => Ok(Some(complain(NO_RESPONSE))),
        Some(payload) => {
            if payload.len() == 0 {
                Ok(None)
            } else {
                match decode_response(payload) {
                    Err(e) => Err(e),
                    Ok(response) => Ok(print_single(response)),
                }
            }
        },
    }
}

/// Decides what to print, and whether to read on, after trying to read the
/// next frame of a streamed reply: pass the payload of the frame, or `None`
/// when the connection closed before a length prefix arrived. A payload that
/// is no response is an error.
pub fn handle_stream_response(frame: Option<&[u8]>) -> (r: Result<StreamStep, DecodeError>)
    ensures
        match r {
            Ok(step) => stream_outcome(frame_view(frame)) == Ok::<StreamStepView, DecodeError>(
                step@,
            ),
            Err(e) => stream_outcome(frame_view(frame)) == Err::<StreamStepView, DecodeError>(e),
        },
{
    match frame {
        None => Ok(StreamStep { print: None, proceed: false }),
        Some(payload) => match decode_response(payload) {
            Err(e) => Err(e),
            Ok(response) => Ok(step_stream(response)),
        },
    }
}

/// The bytes of a payload that was read, if one was.
pub open spec fn frame_view(frame: Option<&[u8]>) -> Option<Seq<u8>> {
    match frame {
        Some(payload) => Some(payload@),
        None => None,
    }
}

} // verus!
