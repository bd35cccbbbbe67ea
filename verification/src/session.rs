//! The server's handling of one connection, as a state machine.
//!
//! A session starts in `AwaitRequest`. The driver that owns the socket, the
//! child process and the touch device reports what happened as events; the
//! session answers each event with the responses to send, in order, and with
//! the next thing for the driver to do.
//!
//! ```text
//! AwaitRequest -> Dispatching -> Completed
//!              -> Completed
//!              -> Streaming -> StreamRelaying -> StreamDone
//!                           -> StreamDone
//! ```

pub mod laws;

use vstd::prelude::*;
use crate::codec::format::parse_command;
use crate::codec::{decode_command, error_text, DecodeError};
use crate::executor::{
    dispatch_of, exec_response, execute_request, exit_response_of, output_text,
    spawn_failure_response, touch_response, touch_response_of, Dispatch, DispatchView, Gesture,
};
use crate::protocol::{BridgeCommand, BridgeResponse, CommandView, ResponseView};
use crate::text::join;

verus! {

/// One of the two output streams of a child process.
#[derive(Debug, Clone, Copy, PartialEq, Eq, Structural)]
pub enum Source {
    Stdout,
    Stderr,
}

/// What a session in `Dispatching` is waiting for.
#[derive(Debug, Clone, Copy, PartialEq, Eq, Structural)]
pub enum Pending {
    /// A program that runs to completion.
    Run,
    /// A gesture that is written to the touch device.
    Touch(Gesture),
}

/// Where a session stands.
#[derive(Debug, Clone, Copy, PartialEq, Eq, Structural)]
pub enum SessionState {
    /// Nothing was read yet.
    AwaitRequest,
    /// A command that is answered by one response is being carried out.
    Dispatching(Pending),
    /// A streamed program is being started.
    Streaming,
    /// The child runs; each flag tells whether the relay of that output is
    /// still at work. With both relays finished, the session waits for the
    /// child to exit.
    StreamRelaying { stdout_live: bool, stderr_live: bool },
    /// The session is over; at most one response was sent.
    Completed,
    /// The session is over; the streamed reply was ended.
    StreamDone,
}

/// What the driver reports to the session.
#[derive(Debug, PartialEq, Eq)]
pub enum SessionEvent {
    /// The bytes of the first read; no bytes when the peer closed without
    /// sending.
    Request(Vec<u8>),
    /// The first read failed.
    ReadFailed,
    /// The program ran to completion, with this status and output.
    Exited { success: bool, stdout: Vec<u8>, stderr: Vec<u8> },
    /// The program could not be started; the system's message.
    SpawnFailed(String),
    /// The streamed program runs, with both outputs captured.
    Spawned,
    /// The gesture was written to the device.
    Touched,
    /// The gesture could not be written; the system's message.
    TouchFailed(String),
    /// The child wrote a line to one of its outputs.
    Line(Source, String),
    /// One of the child's outputs ended, or could not be read further.
    Closed(Source),
    /// A chunk of the named output could not be sent: the peer is gone.
    SendFailed(Source),
    /// The child has exited.
    ChildExited,
}

/// What the driver is to do next.
#[derive(Debug, PartialEq, Eq)]
pub enum Order {
    /// Report the next event.
    Wait,
    /// Run the program to completion, then report `Exited` or `SpawnFailed`.
    Run { program: String, args: Vec<String> },
    /// Write the gesture, then report `Touched` or `TouchFailed`.
    Touch(Gesture),
    /// Start the program with both outputs captured, then report `Spawned` or
    /// `SpawnFailed`, and after that each line and each end of an output.
    Spawn { program: String, args: Vec<String> },
    /// Wait for the child to exit, then report `ChildExited`.
    AwaitExit,
    /// Close the connection.
    Close,
}

/// The answer of a session to one event.
#[derive(Debug, PartialEq, Eq)]
pub struct Step {
    /// The responses to send, in this order, each in a frame of its own.
    pub replies: Vec<BridgeResponse>,
    /// What to do after sending them.
    pub order: Order,
}

/// Mathematical model of a [`SessionEvent`].
pub enum EventView {
    Request(Seq<u8>),
    ReadFailed,
    Exited { success: bool, stdout: Seq<u8>, stderr: Seq<u8> },
    SpawnFailed(Seq<char>),
    Spawned,
    Touched,
    TouchFailed(Seq<char>),
    Line(Source, Seq<char>),
    Closed(Source),
    SendFailed(Source),
    ChildExited,
}

/// Mathematical model of an [`Order`].
pub enum OrderView {
    Wait,
    Run { program: Seq<char>, args: Seq<Seq<char>> },
    Touch(Gesture),
    Spawn { program: Seq<char>, args: Seq<Seq<char>> },
    AwaitExit,
    Close,
}

/// Mathematical model of a [`Step`], together with the state it leads to.
pub struct Transition {
    pub state: SessionState,
    pub replies: Seq<ResponseView>,
    pub order: OrderView,
}

impl View for SessionEvent {
    type V = EventView;

    open spec fn view(&self) -> EventView {
        match *self {
            SessionEvent::Request(bytes) => EventView::Request(bytes@),
            SessionEvent::ReadFailed => EventView::ReadFailed,
            SessionEvent::Exited { success, stdout, stderr } => EventView::Exited {
                success,
                stdout: stdout@,
                stderr: stderr@,
            },
            SessionEvent::SpawnFailed(message) => EventView::SpawnFailed(message@),
            SessionEvent::Spawned => EventView::Spawned,
            SessionEvent::Touched => EventView::Touched,
            SessionEvent::TouchFailed(message) => EventView::TouchFailed(message@),
            SessionEvent::Line(source, line) => EventView::Line(source, line@),
            SessionEvent::Closed(source) => EventView::Closed(source),
            SessionEvent::SendFailed(source) => EventView::SendFailed(source),
            SessionEvent::ChildExited => EventView::ChildExited,
        }
    }
}

impl View for Order {
    type V = OrderView;

    open spec fn view(&self) -> OrderView {
        match *self {
            Order::Wait => OrderView::Wait,
            Order::Run { program, args } => OrderView::Run {
                program: program@,
                args: args.deep_view(),
            },
            Order::Touch(gesture) => OrderView::Touch(gesture),
            Order::Spawn { program, args } => OrderView::Spawn {
                program: program@,
                args: args.deep_view(),
            },
            Order::AwaitExit => OrderView::AwaitExit,
            Order::Close => OrderView::Close,
        }
    }
}

/// What precedes the description of a request that could not be decoded.
pub const INVALID_PAYLOAD: &'static str = "Invalid Payload: ";

/// What marks a chunk as a line of the child's standard error.
pub const STDERR_MARK: &'static str = "[STDERR] ";

/// The chunk that relays one line of a source.
pub open spec fn chunk_of(source: Source, line: Seq<char>) -> ResponseView {
    match source {
        Source::Stdout => ResponseView::StreamChunk(line),
        Source::Stderr => ResponseView::StreamChunk(STDERR_MARK@ + line),
    }
}

/// Whether a session in this state takes no further part in anything.
pub open spec fn is_over(state: SessionState) -> bool {
    state == SessionState::Completed || state == SessionState::StreamDone
}

/// The answer to an event that means nothing in the state it arrives in.
pub open spec fn stay(state: SessionState) -> Transition {
    Transition {
        state,
        replies: Seq::empty(),
        order: if is_over(state) {
            OrderView::Close
        } else {
            OrderView::Wait
        },
    }
}

/// The end of a session with one response.
pub open spec fn complete_with(response: ResponseView) -> Transition {
    Transition { state: SessionState::Completed, replies: seq![response], order: OrderView::Close }
}

/// The answer to a command that was read.
pub open spec fn on_command(command: CommandView, direct_input: bool) -> Transition {
    match command {
        CommandView::Stream { program, args } => Transition {
            state: SessionState::Streaming,
            replies: Seq::empty(),
            order: OrderView::Spawn { program, args },
        },
        _ => match dispatch_of(command, direct_input) {
            DispatchView::Reply(response) => complete_with(response),
            DispatchView::Run { program, args } => Transition {
                state: SessionState::Dispatching(Pending::Run),
                replies: Seq::empty(),
                order: OrderView::Run { program, args },
            },
            DispatchView::Touch(gesture) => Transition {
                state: SessionState::Dispatching(Pending::Touch(gesture)),
                replies: Seq::empty(),
                order: OrderView::Touch(gesture),
            },
        },
    }
}

/// The answer to the first read: nothing for no bytes, a description for
/// bytes that are no command, and else the answer to the command.
pub open spec fn on_request(bytes: Seq<u8>, direct_input: bool) -> Transition {
    if bytes.len() == 0 {
        Transition {
            state: SessionState::Completed,
            replies: Seq::empty(),
            order: OrderView::Close,
        }
    } else {
        match parse_command(bytes) {
            Err(e) => complete_with(ResponseView::Error(INVALID_PAYLOAD@ + error_text(e))),
            Ok(command) => on_command(command, direct_input),
        }
    }
}

/// The answer to the outcome of a command that is answered by one response.
pub open spec fn on_outcome(pending: Pending, event: EventView) -> Transition {
    match (pending, event) {
        (Pending::Run, EventView::Exited { success, stdout, stderr }) => complete_with(
            exit_response_of(success, output_text(stdout), output_text(stderr)),
        ),
        (Pending::Run, EventView::SpawnFailed(message)) => complete_with(
            ResponseView::Error(message),
        ),
        (Pending::Touch(gesture), EventView::Touched) => complete_with(
            touch_response_of(gesture, None),
        ),
        (Pending::Touch(gesture), EventView::TouchFailed(message)) => complete_with(
            touch_response_of(gesture, Some(message)),
        ),
        _ => stay(SessionState::Dispatching(pending)),
    }
}

/// The answer to the outcome of starting a streamed program.
pub open spec fn on_spawn(event: EventView) -> Transition {
    match event {
        EventView::Spawned => Transition {
            state: SessionState::StreamRelaying { stdout_live: true, stderr_live: true },
            replies: Seq::empty(),
            order: OrderView::Wait,
        },
        EventView::SpawnFailed(message) => Transition {
            state: SessionState::StreamDone,
            replies: seq![ResponseView::Error(message), ResponseView::StreamEnd],
            order: OrderView::Close,
        },
        _ => stay(SessionState::Streaming),
    }
}

/// Whether the relay of `source` is at work.
pub open spec fn live(stdout_live: bool, stderr_live: bool, source: Source) -> bool {
    match source {
        Source::Stdout => stdout_live,
        Source::Stderr => stderr_live,
    }
}

/// The relaying state after the relay of `source` has finished.
pub open spec fn relay_finished(
    stdout_live: bool,
    stderr_live: bool,
    source: Source,
) -> Transition {
    let out = stdout_live && source != Source::Stdout;
    let err = stderr_live && source != Source::Stderr;
    Transition {
        state: SessionState::StreamRelaying { stdout_live: out, stderr_live: err },
        replies: Seq::empty(),
        order: if !out && !err {
            OrderView::AwaitExit
        } else {
            OrderView::Wait
        },
    }
}

/// The answer to an event while the child's output is relayed.
pub open spec fn on_relay(stdout_live: bool, stderr_live: bool, event: EventView) -> Transition {
    let here = SessionState::StreamRelaying { stdout_live, stderr_live };
    match event {
        EventView::Line(source, line) => if live(stdout_live, stderr_live, source) {
            Transition {
                state: here,
                replies: seq![chunk_of(source, line)],
                order: OrderView::Wait,
            }
        } else {
            stay(here)
        },
        EventView::Closed(source) => relay_finished(stdout_live, stderr_live, source),
        EventView::SendFailed(source) => relay_finished(stdout_live, stderr_live, source),
        EventView::ChildExited => if !stdout_live && !stderr_live {
            Transition {
                state: SessionState::StreamDone,
                replies: seq![ResponseView::StreamEnd],
                order: OrderView::Close,
            }
        } else {
            stay(here)
        },
        _ => stay(here),
    }
}

/// The answer to an event of a streamed reply: while the program is being
/// started, and while its output is relayed.
pub open spec fn on_stream(state: SessionState, event: EventView) -> Transition {
    match state {
        SessionState::Streaming => on_spawn(event),
        SessionState::StreamRelaying { stdout_live, stderr_live } => on_relay(
            stdout_live,
            stderr_live,
            event,
        ),
        _ => stay(state),
    }
}

/// The answer of a session in `state` to `event`.
pub open spec fn next(state: SessionState, direct_input: bool, event: EventView) -> Transition {
    match state {
        SessionState::AwaitRequest => match event {
            EventView::Request(bytes) => on_request(bytes, direct_input),
            EventView::ReadFailed => Transition {
                state: SessionState::Completed,
                replies: Seq::empty(),
                order: OrderView::Close,
            },
            _ => stay(state),
        },
        SessionState::Dispatching(pending) => on_outcome(pending, event),
        _ => on_stream(state, event),
    }
}

/// The handling of one connection.
pub struct Session {
    state: SessionState,
    direct_input: bool,
}

impl Session {
    /// Where the session stands.
    pub closed spec fn state_of(&self) -> SessionState {
        self.state
    }

    /// Whether the server of this session writes to the touch device.
    pub closed spec fn has_direct_input(&self) -> bool {
        self.direct_input
    }

    /// A session that has read nothing yet.
    pub fn new(direct_input: bool) -> (session: Session)
        ensures
            session.state_of() == SessionState::AwaitRequest,
            session.has_direct_input() == direct_input,
    {
        Session { state: SessionState::AwaitRequest, direct_input }
    }

    /// Where the session stands.
    pub fn state(&self) -> (state: SessionState)
        ensures
            state == self.state_of(),
    {
        self.state
    }

    /// Whether the session is over.
    pub fn is_finished(&self) -> (over: bool)
        ensures
            over == is_over(self.state_of()),
    {
        match self.state {
            SessionState::Completed => true,
            SessionState::StreamDone => true,
            _ => false,
        }
    }

    /// Takes an event: the responses to send and what to do next.
    pub fn handle(&mut self, event: SessionEvent) -> (step: Step)
        ensures
            final(self).has_direct_input() == old(self).has_direct_input(),
            final(self).state_of() == next(
                old(self).state_of(),
                old(self).has_direct_input(),
                event@,
            ).state,
            step.replies.deep_view() == next(
                old(self).state_of(),
                old(self).has_direct_input(),
                event@,
            ).replies,
            step.order@ == next(old(self).state_of(), old(self).has_direct_input(), event@).order,
    {
        let state = self.state;
        let (after, step) = match state {
            SessionState::AwaitRequest => match event {
                SessionEvent::Request(bytes) => handle_client(bytes.as_slice(), self.direct_input),
                SessionEvent::ReadFailed => (SessionState::Completed, silent(Order::Close)),
                _ => (state, idle(state)),
            },
            SessionState::Dispatching(pending) => match conclude(pending, event) {
                Some(response) => (SessionState::Completed, single(response, Order::Close)),
                None => (state, idle(state)),
            },
            _ => handle_stream_request(state, event),
        };
        self.state = after;
        step
    }
}

/// A step without responses.
fn silent(order: Order) -> (step: Step)
    ensures
        step.replies.deep_view() == Seq::<ResponseView>::empty(),
        step.order == order,
{
    let replies: Vec<BridgeResponse> = Vec::new();
    assert(replies.deep_view() =~= Seq::<ResponseView>::empty());
    Step { replies, order }
}

/// A step with one response.
fn single(response: BridgeResponse, order: Order) -> (step: Step)
    ensures
        step.replies.deep_view() == seq![response@],
        step.order == order,
{
    let mut replies: Vec<BridgeResponse> = Vec::new();
    replies.push(response);
    assert(replies.deep_view() =~= seq![response@]);
    Step { replies, order }
}

/// The step for an event that means nothing in `state`.
fn idle(state: SessionState) -> (step: Step)
    ensures
        step.replies.deep_view() == stay(state).replies,
        step.order@ == stay(state).order,
{
    match state {
        SessionState::Completed => silent(Order::Close),
        SessionState::StreamDone => silent(Order::Close),
        _ => silent(Order::Wait),
    }
}

/// Whether the relay of `source` is at work.
fn is_live(stdout_live: bool, stderr_live: bool, source: Source) -> (at_work: bool)
    ensures
        at_work == live(stdout_live, stderr_live, source),
{
    match source {
        Source::Stdout => stdout_live,
        Source::Stderr => stderr_live,
    }
}

/// The chunk that relays one line of a source.
pub fn relay_line(source: Source, line: String) -> (chunk: BridgeResponse)
    ensures
        chunk@ == chunk_of(source, line@),
{
    match source {
        Source::Stdout => BridgeResponse::StreamChunk(line),
        Source::Stderr => BridgeResponse::StreamChunk(join(STDERR_MARK, line.as_str())),
    }
}

/// The state and the order after the relay of `source` has finished.
fn finish_relay(stdout_live: bool, stderr_live: bool, source: Source) -> (r: (SessionState, Order))
    ensures
        r.0 == relay_finished(stdout_live, stderr_live, source).state,
        r.1@ == relay_finished(stdout_live, stderr_live, source).order,
{
    let (out, err) = match source {
        Source::Stdout => (false, stderr_live),
        Source::Stderr => (stdout_live, false),
    };
    let order = if !out && !err {
        Order::AwaitExit
    } else {
        Order::Wait
    };
    (SessionState::StreamRelaying { stdout_live: out, stderr_live: err }, order)
}

/// The response to a request that could not be decoded.
pub fn invalid_payload(error: DecodeError) -> (response: BridgeResponse)
    ensures
        response@ == ResponseView::Error(INVALID_PAYLOAD@ + error_text(error)),
{
    let described = error.message();
    BridgeResponse::Error(join(INVALID_PAYLOAD, described.as_str()))
}

/// Decodes the first read of a connection and decides how its session goes
/// on: the state it enters, the responses to send and what to do next.
pub fn handle_client(bytes: &[u8], direct_input: bool) -> (r: (SessionState, Step))
    ensures
        r.0 == on_request(bytes@, direct_input).state,
        r.1.replies.deep_view() == on_request(bytes@, direct_input).replies,
        r.1.order@ == on_request(bytes@, direct_input).order,
{
    if bytes.len() == 0 {
        return (SessionState::Completed, silent(Order::Close));
    }
    match decode_command(bytes) {
        Err(e) => (SessionState::Completed, single(invalid_payload(e), Order::Close)),
        Ok(BridgeCommand::Stream { program, args }) => (
            SessionState::Streaming,
            silent(Order::Spawn { program, args }),
        ),
        Ok(command) => match execute_request(command, direct_input) {
            Dispatch::Reply(response) => (SessionState::Completed, single(response, Order::Close)),
            Dispatch::Run { program, args } => (
                SessionState::Dispatching(Pending::Run),
                silent(Order::Run { program, args }),
            ),
            Dispatch::Touch(gesture) => (
                SessionState::Dispatching(Pending::Touch(gesture)),
                silent(Order::Touch(gesture)),
            ),
        },
    }
}

/// Takes an event of a streamed reply: the state the session enters, the
/// responses to send and what to do next. A program that cannot be started
/// is reported and the reply ended; each line of a relay at work becomes a
/// chunk; a relay whose output ended or whose chunk could not be sent is
/// finished; and when both are finished and the child has exited, the reply
/// is ended.
pub fn handle_stream_request(state: SessionState, event: SessionEvent) -> (r: (SessionState, Step))
    ensures
        r.0 == on_stream(state, event@).state,
        r.1.replies.deep_view() == on_stream(state, event@).replies,
        r.1.order@ == on_stream(state, event@).order,
{
    match state {
        SessionState::Streaming => match event {
            SessionEvent::Spawned => (
                SessionState::StreamRelaying { stdout_live: true, stderr_live: true },
                silent(Order::Wait),
            ),
            SessionEvent::SpawnFailed(message) => {
                let mut replies: Vec<BridgeResponse> = Vec::new();
                replies.push(spawn_failure_response(message));
                replies.push(BridgeResponse::StreamEnd);
                assert(replies.deep_view() =~= seq![
                    ResponseView::Error(message@),
                    ResponseView::StreamEnd,
                ]);
                (SessionState::StreamDone, Step { replies, order: Order::Close })
            },
            _ => (state, idle(state)),
        },
        SessionState::StreamRelaying { stdout_live, stderr_live } => match event {
            SessionEvent::Line(source, line) => {
                if is_live(stdout_live, stderr_live, source) {
                    (state, single(relay_line(source, line), Order::Wait))
                } else {
                    (state, idle(state))
                }
            },
            SessionEvent::Closed(source) => {
                let (after, order) = finish_relay(stdout_live, stderr_live, source);
                (after, silent(order))
            },
            SessionEvent::SendFailed(source) => {
                let (after, order) = finish_relay(stdout_live, stderr_live, source);
                (after, silent(order))
            },
            SessionEvent::ChildExited => {
                if !stdout_live && !stderr_live {
                    (SessionState::StreamDone, single(BridgeResponse::StreamEnd, Order::Close))
                } else {
                    (state, idle(state))
                }
            },
            _ => (state, idle(state)),
        },
        _ => (state, idle(state)),
    }
}

/// The response that ends a session in `Dispatching`, if `event` is the
/// outcome it waits for.
fn conclude(pending: Pending, event: SessionEvent) -> (response: Option<BridgeResponse>)
    ensures
        match response {
            Some(r) => on_outcome(pending, event@) == complete_with(r@),
            None => on_outcome(pending, event@) == stay(SessionState::Dispatching(pending)),
        },
{
    match pending {
        Pending::Run => match event {
            SessionEvent::Exited { success, stdout, stderr } => Some(
                exec_response(success, stdout.as_slice(), stderr.as_slice()),
            ),
            SessionEvent::SpawnFailed(message) => Some(spawn_failure_response(message)),
            _ => None,
        },
        Pending::Touch(gesture) => match event {
            SessionEvent::Touched => Some(touch_response(gesture, None)),
            SessionEvent::TouchFailed(message) => Some(touch_response(gesture, Some(message))),
            _ => None,
        },
    }
}

} // verus!
