//! The command and response vocabulary exchanged between client and server.

use vstd::prelude::*;

verus! {

/// A request sent by the client.
#[derive(Debug, PartialEq, Eq)]
pub enum BridgeCommand {
    /// Run a program to completion and report its captured output.
    Exec { program: String, args: Vec<String> },
    /// Run a program and relay its output line by line while it runs.
    Stream { program: String, args: Vec<String> },
    /// Liveness check without side effect.
    Ping,
    /// Synthesize a tap at a screen position.
    DirectTap { x: i32, y: i32 },
    /// Synthesize a swipe between two screen positions.
    DirectSwipe { x1: i32, y1: i32, x2: i32, y2: i32, duration_ms: u64 },
}

/// A reply sent by the server.
#[derive(Debug, PartialEq, Eq)]
pub enum BridgeResponse {
    /// Captured standard output of a completed command, or empty text for a
    /// command that only has a side effect.
    Success(String),
    /// Human-readable description of a failure.
    Error(String),
    /// One line of output from a running child process.
    StreamChunk(String),
    /// Terminal marker of a streamed reply.
    StreamEnd,
}

/// Mathematical model of a [`BridgeCommand`].
pub enum CommandView {
    Exec { program: Seq<char>, args: Seq<Seq<char>> },
    Stream { program: Seq<char>, args: Seq<Seq<char>> },
    Ping,
    DirectTap { x: i32, y: i32 },
    DirectSwipe { x1: i32, y1: i32, x2: i32, y2: i32, duration_ms: u64 },
}

/// Mathematical model of a [`BridgeResponse`].
pub enum ResponseView {
    Success(Seq<char>),
    Error(Seq<char>),
    StreamChunk(Seq<char>),
    StreamEnd,
}

impl View for BridgeCommand {
    type V = CommandView;

    open spec fn view(&self) -> CommandView {
        match *self {
            BridgeCommand::Exec { program, args } => CommandView::Exec {
                program: program@,
                args: args.deep_view(),
            },
            BridgeCommand::Stream { program, args } => CommandView::Stream {
                program: program@,
                args: args.deep_view(),
            },
            BridgeCommand::Ping => CommandView::Ping,
            BridgeCommand::DirectTap { x, y } => CommandView::DirectTap { x, y },
            BridgeCommand::DirectSwipe { x1, y1, x2, y2, duration_ms } => CommandView::DirectSwipe {
                x1,
                y1,
                x2,
                y2,
                duration_ms,
            },
        }
    }
}

impl View for BridgeResponse {
    type V = ResponseView;

    open spec fn view(&self) -> ResponseView {
        match *self {
            BridgeResponse::Success(text) => ResponseView::Success(text@),
            BridgeResponse::Error(text) => ResponseView::Error(text@),
            BridgeResponse::StreamChunk(text) => ResponseView::StreamChunk(text@),
            BridgeResponse::StreamEnd => ResponseView::StreamEnd,
        }
    }
}

impl DeepView for BridgeResponse {
    type V = ResponseView;

    open spec fn deep_view(&self) -> ResponseView {
        self@
    }
}

/// A copy of a list of texts.
fn clone_texts(items: &Vec<String>) -> (copy: Vec<String>)
    ensures
        copy.deep_view() == items.deep_view(),
{
    let mut copy: Vec<String> = Vec::new();
    let mut i: usize = 0;
    while i < items.len()
        invariant
            i <= items.len(),
            copy.len() == i,
            forall|j: int| 0 <= j < i ==> copy@[j]@ == items@[j]@,
        decreases items.len() - i,
    {
        copy.push(items[i].clone());
        i = i + 1;
    }
    assert(copy.deep_view() =~= items.deep_view());
    copy
}

impl Clone for BridgeCommand {
    fn clone(&self) -> (copy: Self)
        ensures
            copy@ == self@,
    {
        match self {
            BridgeCommand::Exec { program, args } => BridgeCommand::Exec {
                program: program.clone(),
                args: clone_texts(args),
            },
            BridgeCommand::Stream { program, args } => BridgeCommand::Stream {
                program: program.clone(),
                args: clone_texts(args),
            },
            BridgeCommand::Ping => BridgeCommand::Ping,
            BridgeCommand::DirectTap { x, y } => BridgeCommand::DirectTap { x: *x, y: *y },
            BridgeCommand::DirectSwipe { x1, y1, x2, y2, duration_ms } => {
                BridgeCommand::DirectSwipe {
                    x1: *x1,
                    y1: *y1,
                    x2: *x2,
                    y2: *y2,
                    duration_ms: *duration_ms,
                }
            },
        }
    }
}

impl Clone for BridgeResponse {
    fn clone(&self) -> (copy: Self)
        ensures
            copy@ == self@,
    {
        match self {
            BridgeResponse::Success(text) => BridgeResponse::Success(text.clone()),
            BridgeResponse::Error(text) => BridgeResponse::Error(text.clone()),
            BridgeResponse::StreamChunk(text) => BridgeResponse::StreamChunk(text.clone()),
            BridgeResponse::StreamEnd => BridgeResponse::StreamEnd,
        }
    }
}

} // verus!
