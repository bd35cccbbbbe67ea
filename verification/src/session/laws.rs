//! What holds of every session, whatever the driver reports and in whatever
//! order.

use vstd::prelude::*;
use crate::codec::format::{
    command_bytes, command_fits, TAG_DIRECT_SWIPE, TAG_DIRECT_TAP, TAG_EXEC, TAG_PING, TAG_STREAM,
};
use crate::codec::laws::lemma_command_round_trip;
use crate::executor::{policy_rejects, POLICY_REFUSAL, PONG, RESTRICTED_PROGRAM};
use crate::packing::lemma_le_bytes_len;
use crate::protocol::{CommandView, ResponseView};
use crate::session::{
    chunk_of, complete_with, is_over, next, on_command, EventView, OrderView, Pending,
    SessionState, Source,
};

verus! {

/// The state reached and the responses sent, in order, after a session in
/// `state` took `events` one by one.
pub open spec fn run(state: SessionState, direct_input: bool, events: Seq<EventView>) -> (
    SessionState,
    Seq<ResponseView>,
)
    decreases events.len(),
{
    if events.len() == 0 {
        (state, Seq::empty())
    } else {
        let (before, sent) = run(state, direct_input, events.drop_last());
        let step = next(before, direct_input, events.last());
        (step.state, sent + step.replies)
    }
}

/// Whether every response is a chunk of a streamed reply.
pub open spec fn all_chunks(sent: Seq<ResponseView>) -> bool {
    forall|i: int| 0 <= i < sent.len() ==> #[trigger] sent[i] is StreamChunk
}

/// What a session may have sent by the time it stands in `state`:
/// nothing before it has answered; one `Success` or `Error`, or nothing, when
/// it is `Completed`; chunks only while it relays; and when it is
/// `StreamDone`, either chunks and then one `StreamEnd`, or one `Error` and
/// then one `StreamEnd`.
pub open spec fn well_shaped(state: SessionState, sent: Seq<ResponseView>) -> bool {
    match state {
        SessionState::AwaitRequest => sent.len() == 0,
        SessionState::Dispatching(_) => sent.len() == 0,
        SessionState::Streaming => sent.len() == 0,
        SessionState::StreamRelaying { .. } => all_chunks(sent),
        SessionState::Completed => sent.len() == 0 || (sent.len() == 1 && (sent[0] is Success
            || sent[0] is Error)),
        SessionState::StreamDone => {
            &&& sent.len() >= 1
            &&& sent.last() == ResponseView::StreamEnd
            &&& all_chunks(sent.drop_last()) || (sent.len() == 2 && sent[0] is Error)
        },
    }
}

/// One event keeps what was sent in shape.
pub proof fn lemma_step_keeps_shape(
    state: SessionState,
    direct_input: bool,
    event: EventView,
    sent: Seq<ResponseView>,
)
    requires
        well_shaped(state, sent),
    ensures
        well_shaped(
            next(state, direct_input, event).state,
            sent + next(state, direct_input, event).replies,
        ),
{
    let step = next(state, direct_input, event);
    let after = sent + step.replies;
    if step.replies.len() == 0 {
        assert(after =~= sent);
    } else {
        match state {
            SessionState::StreamRelaying { .. } => {
                if step.state == SessionState::StreamDone {
                    assert(after.drop_last() =~= sent);
                }
            },
            _ => {
                assert(after =~= step.replies);
                if step.state == SessionState::StreamDone {
                    assert(after.len() == 2);
                }
            },
        }
    }
}

/// Whatever happens on a connection, the responses sent on it have the shape
/// of one reply: a session never sends a second single response, never a
/// chunk outside a streamed reply, and nothing behind a `StreamEnd`.
pub proof fn lemma_session_shape(direct_input: bool, events: Seq<EventView>)
    ensures
        well_shaped(
            run(SessionState::AwaitRequest, direct_input, events).0,
            run(SessionState::AwaitRequest, direct_input, events).1,
        ),
    decreases events.len(),
{
    if events.len() > 0 {
        lemma_session_shape(direct_input, events.drop_last());
        let (before, sent) = run(SessionState::AwaitRequest, direct_input, events.drop_last());
        lemma_step_keeps_shape(before, direct_input, events.last(), sent);
    }
}

/// A session that is over stays as it is and sends nothing more.
pub proof fn lemma_over_is_final(state: SessionState, direct_input: bool, events: Seq<EventView>)
    requires
        is_over(state),
    ensures
        run(state, direct_input, events) == (state, Seq::<ResponseView>::empty()),
    decreases events.len(),
{
    if events.len() > 0 {
        lemma_over_is_final(state, direct_input, events.drop_last());
        assert(Seq::<ResponseView>::empty() + Seq::<ResponseView>::empty() =~= Seq::<
            ResponseView,
        >::empty());
    }
}

/// A session that read a request answers it: once it is `Completed`, exactly
/// one response was sent, and no event brings it back to waiting for a
/// request.
pub proof fn lemma_request_is_answered(direct_input: bool, events: Seq<EventView>)
    requires
        events.len() >= 1,
        events[0] is Request,
        events[0]->Request_0.len() > 0,
    ensures
        run(SessionState::AwaitRequest, direct_input, events).0 != SessionState::AwaitRequest,
        run(SessionState::AwaitRequest, direct_input, events).0 == SessionState::Completed ==> run(
            SessionState::AwaitRequest,
            direct_input,
            events,
        ).1.len() == 1,
    decreases events.len(),
{
    let start = SessionState::AwaitRequest;
    let front = events.drop_last();
    lemma_session_shape(direct_input, front);
    if events.len() == 1 {
        assert(front.len() == 0);
        let step = next(start, direct_input, events[0]);
        assert(Seq::<ResponseView>::empty() + step.replies =~= step.replies);
    } else {
        assert(front[0] == events[0]);
        lemma_request_is_answered(direct_input, front);
        let (before, sent) = run(start, direct_input, front);
        let step = next(before, direct_input, events.last());
        if step.replies.len() == 0 {
            assert(sent + step.replies =~= sent);
        }
    }
}

/// A connection that the peer closed without a request, or that could not be
/// read, gets no response at all.
pub proof fn lemma_no_request_no_response(direct_input: bool, events: Seq<EventView>)
    requires
        events.len() >= 1,
        events[0] == EventView::ReadFailed || events[0] == EventView::Request(Seq::empty()),
    ensures
        run(SessionState::AwaitRequest, direct_input, events) == (
            SessionState::Completed,
            Seq::<ResponseView>::empty(),
        ),
    decreases events.len(),
{
    let front = events.drop_last();
    let none = Seq::<ResponseView>::empty();
    assert(none + none =~= none);
    if events.len() == 1 {
        assert(run(SessionState::AwaitRequest, direct_input, front).1 == none);
    } else {
        assert(front[0] == events[0]);
        lemma_no_request_no_response(direct_input, front);
    }
}

/// Whether `source` has ended among `events`.
pub open spec fn ended(events: Seq<EventView>, source: Source) -> bool
    decreases events.len(),
{
    if events.len() == 0 {
        false
    } else {
        events.last() == EventView::Closed(source) || ended(events.drop_last(), source)
    }
}

/// The lines that the child wrote to `source`, in order, as `events` report them.
pub open spec fn lines_of(events: Seq<EventView>, source: Source) -> Seq<Seq<char>>
    decreases events.len(),
{
    if events.len() == 0 {
        Seq::empty()
    } else {
        match events.last() {
            EventView::Line(from, line) => if from == source {
                lines_of(events.drop_last(), source).push(line)
            } else {
                lines_of(events.drop_last(), source)
            },
            _ => lines_of(events.drop_last(), source),
        }
    }
}

/// The chunks of all the lines that `events` report, in the order of the events.
pub open spec fn chunks_of(events: Seq<EventView>) -> Seq<ResponseView>
    decreases events.len(),
{
    if events.len() == 0 {
        Seq::empty()
    } else {
        match events.last() {
            EventView::Line(source, line) => chunks_of(events.drop_last()).push(
                chunk_of(source, line),
            ),
            _ => chunks_of(events.drop_last()),
        }
    }
}

/// What a child's two outputs can report while every chunk reaches the peer:
/// lines and ends only, each output ending once and reporting no line after
/// its end. The two outputs may take turns in any order.
pub open spec fn orderly(events: Seq<EventView>) -> bool
    decreases events.len(),
{
    if events.len() == 0 {
        true
    } else {
        &&& orderly(events.drop_last())
        &&& match events.last() {
            EventView::Line(source, _) => !ended(events.drop_last(), source),
            EventView::Closed(source) => !ended(events.drop_last(), source),
            _ => false,
        }
    }
}

/// The chunks of the lines of one source, in the order of the lines.
pub open spec fn chunks_from(events: Seq<EventView>, source: Source) -> Seq<ResponseView> {
    lines_of(events, source).map_values(|line: Seq<char>| chunk_of(source, line))
}

/// Whether `whole` is made of the responses of `a` and those of `b`, each in
/// their own order, taking turns in any way.
pub open spec fn interleaves(
    whole: Seq<ResponseView>,
    a: Seq<ResponseView>,
    b: Seq<ResponseView>,
) -> bool
    decreases whole.len(),
{
    if whole.len() == 0 {
        a.len() == 0 && b.len() == 0
    } else {
        ||| a.len() > 0 && a.last() == whole.last() && interleaves(
            whole.drop_last(),
            a.drop_last(),
            b,
        )
        ||| b.len() > 0 && b.last() == whole.last() && interleaves(
            whole.drop_last(),
            a,
            b.drop_last(),
        )
    }
}

/// The chunks of a relay hold the lines of each output in the order in which
/// that output wrote them, however the two outputs took turns.
pub proof fn lemma_relay_keeps_order(events: Seq<EventView>)
    ensures
        interleaves(
            chunks_of(events),
            chunks_from(events, Source::Stdout),
            chunks_from(events, Source::Stderr),
        ),
    decreases events.len(),
{
    if events.len() > 0 {
        let front = events.drop_last();
        lemma_relay_keeps_order(front);
        let out = chunks_from(events, Source::Stdout);
        let err = chunks_from(events, Source::Stderr);
        match events.last() {
            EventView::Line(source, line) => {
                assert(chunks_of(events).drop_last() =~= chunks_of(front));
                if source == Source::Stdout {
                    assert(out.drop_last() =~= chunks_from(front, Source::Stdout));
                    assert(err =~= chunks_from(front, Source::Stderr));
                } else {
                    assert(err.drop_last() =~= chunks_from(front, Source::Stderr));
                    assert(out =~= chunks_from(front, Source::Stdout));
                }
            },
            _ => {
                assert(out =~= chunks_from(front, Source::Stdout));
                assert(err =~= chunks_from(front, Source::Stderr));
            },
        }
    }
}

/// While the outputs report in an orderly way, every line is relayed as one
/// chunk, in the order of the reports.
pub proof fn lemma_orderly_relay(direct_input: bool, events: Seq<EventView>)
    requires
        orderly(events),
    ensures
        run(
            SessionState::StreamRelaying { stdout_live: true, stderr_live: true },
            direct_input,
            events,
        ) == (
            SessionState::StreamRelaying {
                stdout_live: !ended(events, Source::Stdout),
                stderr_live: !ended(events, Source::Stderr),
            },
            chunks_of(events),
        ),
        chunks_of(events).len() == lines_of(events, Source::Stdout).len() + lines_of(
            events,
            Source::Stderr,
        ).len(),
        all_chunks(chunks_of(events)),
    decreases events.len(),
{
    if events.len() > 0 {
        let front = events.drop_last();
        lemma_orderly_relay(direct_input, front);
        let start = SessionState::StreamRelaying { stdout_live: true, stderr_live: true };
        let (before, sent) = run(start, direct_input, front);
        let step = next(before, direct_input, events.last());
        match events.last() {
            EventView::Line(source, line) => {
                assert(sent + step.replies =~= chunks_of(front).push(chunk_of(source, line)));
            },
            _ => {
                assert(sent + step.replies =~= chunks_of(front));
            },
        }
    }
}

/// The life of a streamed reply: when the child has written its lines to its
/// two outputs, in whatever order the two take turns, both outputs have
/// ended, and the child has exited, then the peer was sent one chunk for
/// every line, the lines of each output in the order in which it wrote them,
/// lines of the standard error marked, and after them exactly one
/// `StreamEnd`.
pub proof fn lemma_stream_lifecycle(direct_input: bool, events: Seq<EventView>)
    requires
        orderly(events),
        ended(events, Source::Stdout),
        ended(events, Source::Stderr),
    ensures
        run(
            SessionState::StreamRelaying { stdout_live: true, stderr_live: true },
            direct_input,
            events.push(EventView::ChildExited),
        ) == (SessionState::StreamDone, chunks_of(events).push(ResponseView::StreamEnd)),
        chunks_of(events).len() == lines_of(events, Source::Stdout).len() + lines_of(
            events,
            Source::Stderr,
        ).len(),
        all_chunks(chunks_of(events)),
        interleaves(
            chunks_of(events),
            chunks_from(events, Source::Stdout),
            chunks_from(events, Source::Stderr),
        ),
{
    lemma_orderly_relay(direct_input, events);
    lemma_relay_keeps_order(events);
    let all = events.push(EventView::ChildExited);
    assert(all.drop_last() =~= events);
    assert(chunks_of(events) + seq![ResponseView::StreamEnd] =~= chunks_of(events).push(
        ResponseView::StreamEnd,
    ));
}

/// A streamed program that cannot be started is reported and the reply ended:
/// one `Error` with the system's message, then one `StreamEnd`.
pub proof fn lemma_stream_spawn_failure(direct_input: bool, message: Seq<char>)
    ensures
        next(SessionState::Streaming, direct_input, EventView::SpawnFailed(message)).state
            == SessionState::StreamDone,
        next(SessionState::Streaming, direct_input, EventView::SpawnFailed(message)).replies
            == seq![ResponseView::Error(message), ResponseView::StreamEnd],
{
}

/// A program that cannot be started is reported with the system's message.
pub proof fn lemma_exec_spawn_failure(direct_input: bool, message: Seq<char>)
    ensures
        next(
            SessionState::Dispatching(Pending::Run),
            direct_input,
            EventView::SpawnFailed(message),
        ) == complete_with(ResponseView::Error(message)),
{
}

/// A request that holds the encoding of a command is answered as that
/// command, whatever bytes the same read brought behind it.
pub proof fn lemma_request_of_command(command: CommandView, rest: Seq<u8>, direct_input: bool)
    requires
        command_fits(command),
    ensures
        next(
            SessionState::AwaitRequest,
            direct_input,
            EventView::Request(command_bytes(command) + rest),
        ) == on_command(command, direct_input),
{
    lemma_command_round_trip(command, rest);
    lemma_le_bytes_len(TAG_EXEC as nat, 4);
    lemma_le_bytes_len(TAG_STREAM as nat, 4);
    lemma_le_bytes_len(TAG_PING as nat, 4);
    lemma_le_bytes_len(TAG_DIRECT_TAP as nat, 4);
    lemma_le_bytes_len(TAG_DIRECT_SWIPE as nat, 4);
}

/// A liveness check ends the session with the greeting; nothing is run,
/// started or written for it.
pub proof fn lemma_session_answers_ping(direct_input: bool)
    ensures
        on_command(CommandView::Ping, direct_input) == complete_with(
            ResponseView::Success(PONG@),
        ),
{
}

/// A refused invocation of the restricted log reader ends the session with
/// the refusal: the order is to close, so nothing is run for it. A permitted
/// one is run.
pub proof fn lemma_session_applies_policy(args: Seq<Seq<char>>, direct_input: bool)
    ensures
        ({
            let command = CommandView::Exec { program: RESTRICTED_PROGRAM@, args };
            if policy_rejects(RESTRICTED_PROGRAM@, args) {
                on_command(command, direct_input) == complete_with(
                    ResponseView::Error(POLICY_REFUSAL@),
                )
            } else {
                &&& args.len() == 1
                &&& on_command(command, direct_input).order == (OrderView::Run {
                    program: RESTRICTED_PROGRAM@,
                    args,
                })
            }
        }),
{
}

} // verus!
