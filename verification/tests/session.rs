use native_bridge::codec::encode_command;
use native_bridge::executor::Gesture;
use native_bridge::protocol::{BridgeCommand, BridgeResponse};
use native_bridge::session::{
    handle_client, handle_stream_request, invalid_payload, relay_line, Order, Pending, Session,
    SessionEvent, SessionState, Source, Step, INVALID_PAYLOAD, STDERR_MARK,
};
use native_bridge::codec::DecodeError;

fn list(items: &[&str]) -> Vec<String> {
    items.iter().map(|s| s.to_string()).collect()
}

fn request(command: &BridgeCommand) -> SessionEvent {
    SessionEvent::Request(encode_command(command))
}

fn line(source: Source, text: &str) -> SessionEvent {
    SessionEvent::Line(source, text.to_string())
}

fn chunk(text: &str) -> BridgeResponse {
    BridgeResponse::StreamChunk(text.to_string())
}

fn relaying() -> Session {
    let mut session = Session::new(false);
    let stream = BridgeCommand::Stream { program: "sh".to_string(), args: list(&["-c", "work"]) };
    session.handle(request(&stream));
    session.handle(SessionEvent::Spawned);
    session
}

fn feed(session: &mut Session, events: Vec<SessionEvent>) -> Vec<BridgeResponse> {
    let mut sent = Vec::new();
    for event in events {
        sent.extend(session.handle(event).replies);
    }
    sent
}

#[test]
fn new_session_awaits_a_request() {
    let session = Session::new(true);
    assert_eq!(session.state(), SessionState::AwaitRequest);
    assert!(!session.is_finished());
}

#[test]
fn ping_is_answered_at_once() {
    for direct_input in [false, true] {
        let mut session = Session::new(direct_input);
        let step = session.handle(request(&BridgeCommand::Ping));
        assert_eq!(
            step,
            Step {
                replies: vec![BridgeResponse::Success("Pong!".to_string())],
                order: Order::Close
            }
        );
        assert_eq!(session.state(), SessionState::Completed);
        assert!(session.is_finished());
    }
}

#[test]
fn empty_read_ends_the_session_without_response() {
    let mut session = Session::new(false);
    let step = session.handle(SessionEvent::Request(vec![]));
    assert_eq!(step, Step { replies: vec![], order: Order::Close });
    assert_eq!(session.state(), SessionState::Completed);
}

#[test]
fn failed_read_ends_the_session_without_response() {
    let mut session = Session::new(false);
    let step = session.handle(SessionEvent::ReadFailed);
    assert_eq!(step, Step { replies: vec![], order: Order::Close });
    assert_eq!(session.state(), SessionState::Completed);
}

#[test]
fn undecodable_request_is_reported() {
    let mut session = Session::new(false);
    let step = session.handle(SessionEvent::Request(vec![9, 0, 0, 0]));
    assert_eq!(
        step,
        Step {
            replies: vec![BridgeResponse::Error(
                "Invalid Payload: unknown variant tag 9".to_string()
            )],
            order: Order::Close
        }
    );
    assert_eq!(session.state(), SessionState::Completed);

    let mut session = Session::new(false);
    let step = session.handle(SessionEvent::Request(vec![0, 0]));
    assert_eq!(
        step.replies,
        vec![BridgeResponse::Error("Invalid Payload: unexpected end of input".to_string())]
    );

    assert_eq!(
        invalid_payload(DecodeError::Malformed),
        BridgeResponse::Error("Invalid Payload: text is not valid UTF-8".to_string())
    );
}

#[test]
fn exec_success_yields_stdout() {
    let mut session = Session::new(false);
    let exec = BridgeCommand::Exec { program: "echo".to_string(), args: list(&["hi"]) };
    let step = session.handle(request(&exec));
    assert_eq!(
        step,
        Step {
            replies: vec![],
            order: Order::Run { program: "echo".to_string(), args: list(&["hi"]) }
        }
    );
    assert_eq!(session.state(), SessionState::Dispatching(Pending::Run));
    let step = session.handle(SessionEvent::Exited {
        success: true,
        stdout: b"hi\n".to_vec(),
        stderr: b"noise".to_vec(),
    });
    assert_eq!(
        step,
        Step { replies: vec![BridgeResponse::Success("hi\n".to_string())], order: Order::Close }
    );
    assert_eq!(session.state(), SessionState::Completed);
}

#[test]
fn exec_failure_yields_stderr() {
    let mut session = Session::new(false);
    let exec = BridgeCommand::Exec { program: "false".to_string(), args: vec![] };
    session.handle(request(&exec));
    let step = session.handle(SessionEvent::Exited {
        success: false,
        stdout: b"out".to_vec(),
        stderr: b"it failed\n".to_vec(),
    });
    assert_eq!(
        step,
        Step { replies: vec![BridgeResponse::Error("it failed\n".to_string())], order: Order::Close }
    );
}

#[test]
fn exec_of_a_missing_program_yields_an_error() {
    let mut session = Session::new(false);
    let exec = BridgeCommand::Exec { program: "no-such-program".to_string(), args: vec![] };
    assert_eq!(
        session.handle(request(&exec)).order,
        Order::Run { program: "no-such-program".to_string(), args: vec![] }
    );
    let step =
        session.handle(SessionEvent::SpawnFailed("No such file or directory (os error 2)".to_string()));
    assert_eq!(
        step,
        Step {
            replies: vec![BridgeResponse::Error(
                "No such file or directory (os error 2)".to_string()
            )],
            order: Order::Close
        }
    );
    assert_eq!(session.state(), SessionState::Completed);
}

#[test]
fn restricted_logcat_is_rejected_before_anything_runs() {
    let policy = "logcat is restricted on exec: only 'logcat -c' and 'logcat -d' are allowed; use the stream command to follow the log";
    for args in [vec![], vec!["-v", "time"], vec!["-f"]] {
        let mut session = Session::new(false);
        let exec = BridgeCommand::Exec { program: "logcat".to_string(), args: list(&args) };
        let step = session.handle(request(&exec));
        assert_eq!(
            step,
            Step { replies: vec![BridgeResponse::Error(policy.to_string())], order: Order::Close }
        );
        assert_eq!(session.state(), SessionState::Completed);
    }
}

#[test]
fn permitted_logcat_proceeds() {
    for flag in ["-c", "-d"] {
        let mut session = Session::new(false);
        let exec = BridgeCommand::Exec { program: "logcat".to_string(), args: list(&[flag]) };
        let step = session.handle(request(&exec));
        assert_eq!(
            step,
            Step {
                replies: vec![],
                order: Order::Run { program: "logcat".to_string(), args: list(&[flag]) }
            }
        );
    }
}

#[test]
fn streamed_logcat_is_not_restricted() {
    let mut session = Session::new(false);
    let stream = BridgeCommand::Stream { program: "logcat".to_string(), args: vec![] };
    let step = session.handle(request(&stream));
    assert_eq!(
        step,
        Step { replies: vec![], order: Order::Spawn { program: "logcat".to_string(), args: vec![] } }
    );
    assert_eq!(session.state(), SessionState::Streaming);
}

#[test]
fn gestures_without_direct_input_are_rejected() {
    let unsupported = "Command not supported or feature disabled on server";
    for command in [
        BridgeCommand::DirectTap { x: 1, y: 2 },
        BridgeCommand::DirectSwipe { x1: 1, y1: 2, x2: 3, y2: 4, duration_ms: 5 },
    ] {
        let mut session = Session::new(false);
        let step = session.handle(request(&command));
        assert_eq!(
            step,
            Step { replies: vec![BridgeResponse::Error(unsupported.to_string())], order: Order::Close }
        );
    }
}

#[test]
fn tap_with_direct_input() {
    let gesture = Gesture::Tap { x: 10, y: 20 };
    let mut session = Session::new(true);
    let step = session.handle(request(&BridgeCommand::DirectTap { x: 10, y: 20 }));
    assert_eq!(step, Step { replies: vec![], order: Order::Touch(gesture) });
    assert_eq!(session.state(), SessionState::Dispatching(Pending::Touch(gesture)));
    let step = session.handle(SessionEvent::Touched);
    assert_eq!(
        step,
        Step { replies: vec![BridgeResponse::Success(String::new())], order: Order::Close }
    );
}

#[test]
fn failed_gestures_are_reported() {
    let mut session = Session::new(true);
    session.handle(request(&BridgeCommand::DirectTap { x: 10, y: 20 }));
    let step = session.handle(SessionEvent::TouchFailed("Permission denied (os error 13)".to_string()));
    assert_eq!(
        step.replies,
        vec![BridgeResponse::Error("Tap Failed: Permission denied (os error 13)".to_string())]
    );
    let mut session = Session::new(true);
    let swipe = BridgeCommand::DirectSwipe { x1: 0, y1: 0, x2: 9, y2: 9, duration_ms: 300 };
    assert_eq!(
        session.handle(request(&swipe)).order,
        Order::Touch(Gesture::Swipe { x1: 0, y1: 0, x2: 9, y2: 9, duration_ms: 300 })
    );
    let step = session.handle(SessionEvent::TouchFailed("gone".to_string()));
    assert_eq!(step.replies, vec![BridgeResponse::Error("Swipe Failed: gone".to_string())]);
    assert_eq!(session.state(), SessionState::Completed);
}

#[test]
fn stream_lifecycle() {
    let mut session = Session::new(false);
    let stream = BridgeCommand::Stream { program: "sh".to_string(), args: list(&["-c", "work"]) };
    let step = session.handle(request(&stream));
    assert_eq!(
        step,
        Step {
            replies: vec![],
            order: Order::Spawn { program: "sh".to_string(), args: list(&["-c", "work"]) }
        }
    );
    assert_eq!(session.handle(SessionEvent::Spawned), Step { replies: vec![], order: Order::Wait });
    assert_eq!(
        session.state(),
        SessionState::StreamRelaying { stdout_live: true, stderr_live: true }
    );
    let sent = feed(
        &mut session,
        vec![
            line(Source::Stdout, "out 1"),
            line(Source::Stderr, "err 1"),
            line(Source::Stderr, "err 2"),
            line(Source::Stdout, "out 2"),
            line(Source::Stdout, "out 3"),
        ],
    );
    assert_eq!(
        sent,
        vec![
            chunk("out 1"),
            chunk("[STDERR] err 1"),
            chunk("[STDERR] err 2"),
            chunk("out 2"),
            chunk("out 3")
        ]
    );
    assert_eq!(
        session.handle(SessionEvent::Closed(Source::Stderr)),
        Step { replies: vec![], order: Order::Wait }
    );
    assert_eq!(
        session.state(),
        SessionState::StreamRelaying { stdout_live: true, stderr_live: false }
    );
    assert_eq!(
        session.handle(SessionEvent::Closed(Source::Stdout)),
        Step { replies: vec![], order: Order::AwaitExit }
    );
    assert_eq!(
        session.handle(SessionEvent::ChildExited),
        Step { replies: vec![BridgeResponse::StreamEnd], order: Order::Close }
    );
    assert_eq!(session.state(), SessionState::StreamDone);
    assert!(session.is_finished());
}

#[test]
fn every_interleaving_relays_every_line() {
    let outs = ["a", "b", "c"];
    let errs = ["x", "y"];
    for pattern in 0u32..32 {
        if pattern.count_ones() != 2 {
            continue;
        }
        let mut session = relaying();
        let mut events = Vec::new();
        let (mut o, mut e) = (0, 0);
        for slot in 0..5 {
            if pattern & (1 << slot) != 0 {
                events.push(line(Source::Stderr, errs[e]));
                e += 1;
            } else {
                events.push(line(Source::Stdout, outs[o]));
                o += 1;
            }
        }
        events.push(SessionEvent::Closed(Source::Stdout));
        events.push(SessionEvent::Closed(Source::Stderr));
        events.push(SessionEvent::ChildExited);
        let sent = feed(&mut session, events);
        assert_eq!(sent.len(), 6);
        assert_eq!(sent[5], BridgeResponse::StreamEnd);
        let from_out: Vec<&BridgeResponse> = sent[..5]
            .iter()
            .filter(|r| matches!(r, BridgeResponse::StreamChunk(t) if !t.starts_with("[STDERR] ")))
            .collect();
        let from_err: Vec<&BridgeResponse> = sent[..5]
            .iter()
            .filter(|r| matches!(r, BridgeResponse::StreamChunk(t) if t.starts_with("[STDERR] ")))
            .collect();
        assert_eq!(from_out, vec![&chunk("a"), &chunk("b"), &chunk("c")]);
        assert_eq!(from_err, vec![&chunk("[STDERR] x"), &chunk("[STDERR] y")]);
        assert_eq!(session.state(), SessionState::StreamDone);
    }
}

#[test]
fn stream_without_output_is_only_ended() {
    let mut session = relaying();
    let sent = feed(
        &mut session,
        vec![
            SessionEvent::Closed(Source::Stdout),
            SessionEvent::Closed(Source::Stderr),
            SessionEvent::ChildExited,
        ],
    );
    assert_eq!(sent, vec![BridgeResponse::StreamEnd]);
}

#[test]
fn stream_that_cannot_start_is_reported_and_ended() {
    let mut session = Session::new(false);
    let stream = BridgeCommand::Stream { program: "nope".to_string(), args: vec![] };
    session.handle(request(&stream));
    let step = session.handle(SessionEvent::SpawnFailed("not found".to_string()));
    assert_eq!(
        step,
        Step {
            replies: vec![BridgeResponse::Error("not found".to_string()), BridgeResponse::StreamEnd],
            order: Order::Close
        }
    );
    assert_eq!(session.state(), SessionState::StreamDone);
}

#[test]
fn failed_send_stops_one_relay_only() {
    let mut session = relaying();
    assert_eq!(session.handle(line(Source::Stdout, "one")).replies, vec![chunk("one")]);
    assert_eq!(
        session.handle(SessionEvent::SendFailed(Source::Stdout)),
        Step { replies: vec![], order: Order::Wait }
    );
    assert_eq!(
        session.state(),
        SessionState::StreamRelaying { stdout_live: false, stderr_live: true }
    );
    assert_eq!(session.handle(line(Source::Stdout, "two")), Step { replies: vec![], order: Order::Wait });
    assert_eq!(session.handle(line(Source::Stderr, "e")).replies, vec![chunk("[STDERR] e")]);
    assert_eq!(
        session.handle(SessionEvent::SendFailed(Source::Stderr)),
        Step { replies: vec![], order: Order::AwaitExit }
    );
    assert_eq!(session.handle(line(Source::Stderr, "late")).replies, vec![]);
    assert_eq!(
        session.handle(SessionEvent::ChildExited),
        Step { replies: vec![BridgeResponse::StreamEnd], order: Order::Close }
    );
}

#[test]
fn exit_is_awaited_only_after_both_relays() {
    let mut session = relaying();
    assert_eq!(
        session.handle(SessionEvent::ChildExited),
        Step { replies: vec![], order: Order::Wait }
    );
    session.handle(SessionEvent::Closed(Source::Stdout));
    assert_eq!(
        session.handle(SessionEvent::ChildExited),
        Step { replies: vec![], order: Order::Wait }
    );
    assert_eq!(
        session.state(),
        SessionState::StreamRelaying { stdout_live: false, stderr_live: true }
    );
}

#[test]
fn events_out_of_place_change_nothing() {
    let mut session = Session::new(false);
    for event in [
        SessionEvent::Spawned,
        SessionEvent::ChildExited,
        SessionEvent::Touched,
        line(Source::Stdout, "x"),
        SessionEvent::SpawnFailed("m".to_string()),
    ] {
        assert_eq!(session.handle(event), Step { replies: vec![], order: Order::Wait });
        assert_eq!(session.state(), SessionState::AwaitRequest);
    }
    let exec = BridgeCommand::Exec { program: "ls".to_string(), args: vec![] };
    session.handle(request(&exec));
    for event in [SessionEvent::Touched, SessionEvent::Spawned, request(&BridgeCommand::Ping)] {
        assert_eq!(session.handle(event), Step { replies: vec![], order: Order::Wait });
        assert_eq!(session.state(), SessionState::Dispatching(Pending::Run));
    }
}

#[test]
fn finished_session_sends_nothing_more() {
    let mut session = Session::new(false);
    session.handle(request(&BridgeCommand::Ping));
    for event in [
        request(&BridgeCommand::Ping),
        SessionEvent::ChildExited,
        line(Source::Stderr, "x"),
        SessionEvent::Exited { success: true, stdout: vec![], stderr: vec![] },
    ] {
        assert_eq!(session.handle(event), Step { replies: vec![], order: Order::Close });
        assert_eq!(session.state(), SessionState::Completed);
    }
    let mut session = relaying();
    feed(
        &mut session,
        vec![
            SessionEvent::SendFailed(Source::Stdout),
            SessionEvent::Closed(Source::Stderr),
            SessionEvent::ChildExited,
        ],
    );
    assert_eq!(
        session.handle(SessionEvent::ChildExited),
        Step { replies: vec![], order: Order::Close }
    );
    assert_eq!(session.state(), SessionState::StreamDone);
}

#[test]
fn relay_line_marks_standard_error() {
    assert_eq!(relay_line(Source::Stdout, "plain".to_string()), chunk("plain"));
    assert_eq!(relay_line(Source::Stderr, "plain".to_string()), chunk("[STDERR] plain"));
    assert_eq!(relay_line(Source::Stderr, String::new()), chunk("[STDERR] "));
}

#[test]
fn session_texts() {
    assert_eq!(INVALID_PAYLOAD, "Invalid Payload: ");
    assert_eq!(STDERR_MARK, "[STDERR] ");
}

#[test]
fn first_read_decides_the_session() {
    assert_eq!(
        handle_client(&[], true),
        (SessionState::Completed, Step { replies: vec![], order: Order::Close })
    );
    assert_eq!(
        handle_client(&encode_command(&BridgeCommand::Ping), false),
        (
            SessionState::Completed,
            Step { replies: vec![BridgeResponse::Success("Pong!".to_string())], order: Order::Close }
        )
    );
    let mut bytes = encode_command(&BridgeCommand::DirectTap { x: 5, y: 6 });
    bytes.extend_from_slice(&[0u8; 100]);
    assert_eq!(
        handle_client(&bytes, true),
        (
            SessionState::Dispatching(Pending::Touch(Gesture::Tap { x: 5, y: 6 })),
            Step { replies: vec![], order: Order::Touch(Gesture::Tap { x: 5, y: 6 }) }
        )
    );
    assert_eq!(
        handle_client(&[3, 0, 0, 0, 1], true),
        (
            SessionState::Completed,
            Step {
                replies: vec![BridgeResponse::Error(
                    "Invalid Payload: unexpected end of input".to_string()
                )],
                order: Order::Close
            }
        )
    );
}

#[test]
fn stream_steps() {
    let both = SessionState::StreamRelaying { stdout_live: true, stderr_live: true };
    assert_eq!(
        handle_stream_request(SessionState::Streaming, SessionEvent::Spawned),
        (both, Step { replies: vec![], order: Order::Wait })
    );
    assert_eq!(
        handle_stream_request(both, line(Source::Stderr, "e")),
        (both, Step { replies: vec![chunk("[STDERR] e")], order: Order::Wait })
    );
    assert_eq!(
        handle_stream_request(both, SessionEvent::Closed(Source::Stdout)),
        (
            SessionState::StreamRelaying { stdout_live: false, stderr_live: true },
            Step { replies: vec![], order: Order::Wait }
        )
    );
    let neither = SessionState::StreamRelaying { stdout_live: false, stderr_live: false };
    assert_eq!(
        handle_stream_request(neither, SessionEvent::ChildExited),
        (SessionState::StreamDone, Step { replies: vec![BridgeResponse::StreamEnd], order: Order::Close })
    );
    assert_eq!(
        handle_stream_request(neither, SessionEvent::Closed(Source::Stdout)),
        (neither, Step { replies: vec![], order: Order::AwaitExit })
    );
    assert_eq!(
        handle_stream_request(SessionState::AwaitRequest, SessionEvent::Spawned),
        (SessionState::AwaitRequest, Step { replies: vec![], order: Order::Wait })
    );
    assert_eq!(
        handle_stream_request(SessionState::StreamDone, SessionEvent::Spawned),
        (SessionState::StreamDone, Step { replies: vec![], order: Order::Close })
    );
}
