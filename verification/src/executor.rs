//! What the server does with a command that is answered by one response:
//! which commands run a program, which are refused, and which response
//! reports the outcome.

use vstd::prelude::*;
use vstd::string::StringExecFns;
use vstd::utf8::{
    decode_utf8, encode_utf8, encode_utf8_decode_utf8, encode_utf8_valid_utf8, valid_utf8,
};
use crate::protocol::{BridgeCommand, BridgeResponse, CommandView, ResponseView};
use crate::text::{join, same_text};

verus! {

/// The reply to a liveness check.
pub const PONG: &'static str = "Pong!";

/// The log reader whose invocations are restricted.
pub const RESTRICTED_PROGRAM: &'static str = "logcat";

/// The flag that clears the log and exits.
pub const CLEAR_FLAG: &'static str = "-c";

/// The flag that flushes the log to the caller and exits.
pub const FLUSH_FLAG: &'static str = "-d";

/// The refusal of a restricted invocation, with the way to go instead.
pub const POLICY_REFUSAL: &'static str =
    "logcat is restricted on exec: only 'logcat -c' and 'logcat -d' are allowed; use the stream command to follow the log";

/// The refusal of a command that this server does not carry out.
pub const UNSUPPORTED: &'static str = "Command not supported or feature disabled on server";

/// What precedes the system's message when a tap could not be written.
pub const TAP_FAILED: &'static str = "Tap Failed: ";

/// What precedes the system's message when a swipe could not be written.
pub const SWIPE_FAILED: &'static str = "Swipe Failed: ";

/// The invocations of the restricted log reader that end by themselves:
/// exactly one argument, the clear flag or the flush flag.
pub open spec fn restricted_args_permitted(args: Seq<Seq<char>>) -> bool {
    args.len() == 1 && (args[0] == CLEAR_FLAG@ || args[0] == FLUSH_FLAG@)
}

/// Whether running `program` with `args` to completion is refused: the log
/// reader would follow a live log and never answer.
pub open spec fn policy_rejects(program: Seq<char>, args: Seq<Seq<char>>) -> bool {
    program == RESTRICTED_PROGRAM@ && !restricted_args_permitted(args)
}

/// A gesture to synthesize on the touch device.
#[derive(Debug, Clone, Copy, PartialEq, Eq, Structural)]
pub enum Gesture {
    Tap { x: i32, y: i32 },
    Swipe { x1: i32, y1: i32, x2: i32, y2: i32, duration_ms: u64 },
}

/// What to do for a command that is answered by one response.
#[derive(Debug, PartialEq, Eq)]
pub enum Dispatch {
    /// Answer at once; nothing is run.
    Reply(BridgeResponse),
    /// Run the program to completion and report its outcome.
    Run { program: String, args: Vec<String> },
    /// Write the gesture to the touch device and report the outcome.
    Touch(Gesture),
}

/// Mathematical model of a [`Dispatch`].
pub enum DispatchView {
    Reply(ResponseView),
    Run { program: Seq<char>, args: Seq<Seq<char>> },
    Touch(Gesture),
}

impl View for Dispatch {
    type V = DispatchView;

    open spec fn view(&self) -> DispatchView {
        match *self {
            Dispatch::Reply(response) => DispatchView::Reply(response@),
            Dispatch::Run { program, args } => DispatchView::Run {
                program: program@,
                args: args.deep_view(),
            },
            Dispatch::Touch(gesture) => DispatchView::Touch(gesture),
        }
    }
}

/// What is done for `command` on a server with or without direct input.
pub open spec fn dispatch_of(command: CommandView, direct_input: bool) -> DispatchView {
    match command {
        CommandView::Exec { program, args } => if policy_rejects(program, args) {
            DispatchView::Reply(ResponseView::Error(POLICY_REFUSAL@))
        } else {
            DispatchView::Run { program, args }
        },
        CommandView::Ping => DispatchView::Reply(ResponseView::Success(PONG@)),
        CommandView::DirectTap { x, y } => if direct_input {
            DispatchView::Touch(Gesture::Tap { x, y })
        } else {
            DispatchView::Reply(ResponseView::Error(UNSUPPORTED@))
        },
        CommandView::DirectSwipe { x1, y1, x2, y2, duration_ms } => if direct_input {
            DispatchView::Touch(Gesture::Swipe { x1, y1, x2, y2, duration_ms })
        } else {
            DispatchView::Reply(ResponseView::Error(UNSUPPORTED@))
        },
        CommandView::Stream { .. } => DispatchView::Reply(
            ResponseView::Error(UNSUPPORTED@),
        ),
    }
}

/// The response to a program that ran to completion: its output when it
/// succeeded, else its diagnostics.
pub open spec fn exit_response_of(
    success: bool,
    stdout: Seq<char>,
    stderr: Seq<char>,
) -> ResponseView {
    if success {
        ResponseView::Success(stdout)
    } else {
        ResponseView::Error(stderr)
    }
}

/// The response to a gesture: empty success, or the system's message behind
/// the prefix of the gesture.
pub open spec fn touch_response_of(gesture: Gesture, failure: Option<Seq<char>>) -> ResponseView {
    match failure {
        None => ResponseView::Success(Seq::empty()),
        Some(message) => match gesture {
            Gesture::Tap { .. } => ResponseView::Error(TAP_FAILED@ + message),
            Gesture::Swipe { .. } => ResponseView::Error(SWIPE_FAILED@ + message),
        },
    }
}

/// The text that `String::from_utf8_lossy` makes of bytes: valid UTF-8 is
/// decoded, and each invalid sequence becomes the replacement character.
pub uninterp spec fn lossy_text(bytes: Seq<u8>) -> Seq<char>;

/// The output of a program as text: the text that the bytes encode where
/// they are UTF-8, and else that text with every invalid sequence replaced.
pub open spec fn output_text(bytes: Seq<u8>) -> Seq<char> {
    if valid_utf8(bytes) {
        decode_utf8(bytes)
    } else {
        lossy_text(bytes)
    }
}

/// `String::from_utf8_lossy`: the bytes as text, invalid sequences replaced.
/// Valid UTF-8 comes out as the text it encodes.
#[verifier::external_body]
fn text_lossy(bytes: &[u8]) -> (text: String)
    ensures
        text@ == lossy_text(bytes@),
        valid_utf8(bytes@) ==> text@ == decode_utf8(bytes@),
{
    String::from_utf8_lossy(bytes).into_owned()
}

/// Whether running `program` with `args` to completion is refused.
pub fn exec_refused(program: &str, args: &Vec<String>) -> (refused: bool)
    ensures
        refused == policy_rejects(program@, args.deep_view()),
{
    if !same_text(program, RESTRICTED_PROGRAM) {
        return false;
    }
    if args.len() != 1 {
        return true;
    }
    let only = args[0].as_str();
    assert(args.deep_view()[0] == only@);
    !(same_text(only, CLEAR_FLAG) || same_text(only, FLUSH_FLAG))
}

/// Decides what to do for a command that is answered by one response.
/// `direct_input` tells whether this server writes to the touch device.
pub fn execute_request(command: BridgeCommand, direct_input: bool) -> (dispatch: Dispatch)
    ensures
        dispatch@ == dispatch_of(command@, direct_input),
{
    match command {
        BridgeCommand::Exec { program, args } => {
            if exec_refused(program.as_str(), &args) {
                Dispatch::Reply(BridgeResponse::Error(String::from_str(POLICY_REFUSAL)))
            } else {
                Dispatch::Run { program, args }
            }
        },
        BridgeCommand::Ping => Dispatch::Reply(BridgeResponse::Success(String::from_str(PONG))),
        BridgeCommand::DirectTap { x, y } => {
            if direct_input {
                Dispatch::Touch(Gesture::Tap { x, y })
            } else {
                Dispatch::Reply(unsupported())
            }
        },
        BridgeCommand::DirectSwipe { x1, y1, x2, y2, duration_ms } => {
            if direct_input {
                Dispatch::Touch(Gesture::Swipe { x1, y1, x2, y2, duration_ms })
            } else {
                Dispatch::Reply(unsupported())
            }
        },
        BridgeCommand::Stream { .. } => Dispatch::Reply(unsupported()),
    }
}

/// The refusal of a command that this server does not carry out.
fn unsupported() -> (response: BridgeResponse)
    ensures
        response@ == ResponseView::Error(UNSUPPORTED@),
{
    BridgeResponse::Error(String::from_str(UNSUPPORTED))
}

/// The response to a program that ran to completion, from its output as text.
pub fn exit_response(success: bool, stdout: String, stderr: String) -> (response: BridgeResponse)
    ensures
        response@ == exit_response_of(success, stdout@, stderr@),
{
    if success {
        BridgeResponse::Success(stdout)
    } else {
        BridgeResponse::Error(stderr)
    }
}

/// The response to a program that ran to completion, from its raw output:
/// the bytes are read as text, and bytes that are no UTF-8 are replaced.
pub fn exec_response(success: bool, stdout: &[u8], stderr: &[u8]) -> (response: BridgeResponse)
    ensures
        response@ == exit_response_of(success, output_text(stdout@), output_text(stderr@)),
{
    if success {
        exit_response(true, text_lossy(stdout), String::new())
    } else {
        exit_response(false, String::new(), text_lossy(stderr))
    }
}

/// The response to a program that could not be started.
pub fn spawn_failure_response(message: String) -> (response: BridgeResponse)
    ensures
        response@ == ResponseView::Error(message@),
{
    BridgeResponse::Error(message)
}

/// The response to a gesture, from the system's message if writing it failed.
pub fn touch_response(gesture: Gesture, failure: Option<String>) -> (response: BridgeResponse)
    ensures
        response@ == touch_response_of(
            gesture,
            match failure {
                Some(message) => Some(message@),
                None => None,
            },
        ),
{
    match failure {
        None => BridgeResponse::Success(String::new()),
        Some(message) => match gesture {
            Gesture::Tap { .. } => BridgeResponse::Error(join(TAP_FAILED, message.as_str())),
            Gesture::Swipe { .. } => BridgeResponse::Error(
                join(SWIPE_FAILED, message.as_str()),
            ),
        },
    }
}

/// A liveness check is answered with the same greeting on every server, and
/// nothing is run for it.
pub proof fn lemma_ping_is_answered(direct_input: bool)
    ensures
        dispatch_of(CommandView::Ping, direct_input) == DispatchView::Reply(
            ResponseView::Success(PONG@),
        ),
{
}

/// The restricted log reader is refused before anything is run, unless it is
/// given exactly one argument and that is a permitted flag.
pub proof fn lemma_restricted_program_policy(args: Seq<Seq<char>>, direct_input: bool)
    ensures
        args.len() != 1 ==> dispatch_of(
            CommandView::Exec { program: RESTRICTED_PROGRAM@, args },
            direct_input,
        ) == DispatchView::Reply(ResponseView::Error(POLICY_REFUSAL@)),
        args.len() == 1 && args[0] != CLEAR_FLAG@ && args[0] != FLUSH_FLAG@ ==> dispatch_of(
            CommandView::Exec { program: RESTRICTED_PROGRAM@, args },
            direct_input,
        ) == DispatchView::Reply(ResponseView::Error(POLICY_REFUSAL@)),
        args.len() == 1 && (args[0] == CLEAR_FLAG@ || args[0] == FLUSH_FLAG@) ==> dispatch_of(
            CommandView::Exec { program: RESTRICTED_PROGRAM@, args },
            direct_input,
        ) == (DispatchView::Run { program: RESTRICTED_PROGRAM@, args }),
{
}

/// Any other program is run with whatever arguments it is given.
pub proof fn lemma_other_programs_run(program: Seq<char>, args: Seq<Seq<char>>, direct_input: bool)
    requires
        program != RESTRICTED_PROGRAM@,
    ensures
        dispatch_of(CommandView::Exec { program, args }, direct_input) == (DispatchView::Run {
            program,
            args,
        }),
{
}

/// Without direct input no gesture reaches the device: both gesture commands
/// are refused with the same description.
pub proof fn lemma_gestures_need_direct_input(command: CommandView)
    requires
        command is DirectTap || command is DirectSwipe,
    ensures
        dispatch_of(command, false) == DispatchView::Reply(
            ResponseView::Error(UNSUPPORTED@),
        ),
        dispatch_of(command, true) is Touch,
{
}

/// A program that exits with success is answered with the text it wrote to
/// its standard output; one that exits otherwise, with the text it wrote to
/// its standard error.
pub proof fn lemma_exit_reports_output(success: bool, stdout: Seq<char>, stderr: Seq<char>)
    ensures
        exit_response_of(
            success,
            output_text(encode_utf8(stdout)),
            output_text(encode_utf8(stderr)),
        ) == if success {
            ResponseView::Success(stdout)
        } else {
            ResponseView::Error(stderr)
        },
{
    encode_utf8_valid_utf8(stdout);
    encode_utf8_valid_utf8(stderr);
    encode_utf8_decode_utf8(stdout);
    encode_utf8_decode_utf8(stderr);
}

} // verus!
