use native_bridge::client::{
    expects_stream, handle_single_response, handle_stream_response, print_single, step_stream,
    Print, Sink, StreamStep, ALIVE, LINE_BREAK, NO_RESPONSE, REMOTE_ERROR, UNEXPECTED_SINGLE,
    UNEXPECTED_STREAM,
};
use native_bridge::codec::{encode_command, encode_response, DecodeError};
use native_bridge::framing::{read_frame, write_response};
use native_bridge::protocol::{BridgeCommand, BridgeResponse};
use native_bridge::session::{Session, SessionEvent, Source};

fn out(text: &str) -> Option<Print> {
    Some(Print { sink: Sink::Stdout, text: text.to_string() })
}

fn err(text: &str) -> Option<Print> {
    Some(Print { sink: Sink::Stderr, text: text.to_string() })
}

fn payload(response: BridgeResponse) -> Vec<u8> {
    encode_response(&response)
}

#[test]
fn pong_tells_that_the_server_is_alive() {
    assert_eq!(
        print_single(BridgeResponse::Success("Pong!".to_string())),
        out("Pong! Server is alive.\n")
    );
    assert_eq!(
        handle_single_response(Some(&payload(BridgeResponse::Success("Pong!".to_string())))),
        Ok(out("Pong! Server is alive.\n"))
    );
}

#[test]
fn output_is_printed_as_it_is() {
    assert_eq!(print_single(BridgeResponse::Success("a\nb\n".to_string())), out("a\nb\n"));
    assert_eq!(print_single(BridgeResponse::Success("Pong".to_string())), out("Pong"));
    assert_eq!(print_single(BridgeResponse::Success("Pong!\n".to_string())), out("Pong!\n"));
    assert_eq!(
        handle_single_response(Some(&payload(BridgeResponse::Success("x".to_string())))),
        Ok(out("x"))
    );
}

#[test]
fn empty_output_prints_nothing() {
    assert_eq!(print_single(BridgeResponse::Success(String::new())), None);
    assert_eq!(
        handle_single_response(Some(&payload(BridgeResponse::Success(String::new())))),
        Ok(None)
    );
}

#[test]
fn remote_error_goes_to_the_error_stream() {
    assert_eq!(
        print_single(BridgeResponse::Error("boom".to_string())),
        err("Remote Error: boom\n")
    );
    assert_eq!(print_single(BridgeResponse::Error(String::new())), err("Remote Error: \n"));
}

#[test]
fn stream_responses_are_unexpected_for_a_single_command() {
    let complaint = "Received unexpected response type for single command.\n";
    assert_eq!(print_single(BridgeResponse::StreamChunk("x".to_string())), err(complaint));
    assert_eq!(print_single(BridgeResponse::StreamEnd), err(complaint));
}

#[test]
fn missing_response_is_reported() {
    assert_eq!(handle_single_response(None), Ok(err("Server did not provide a response.\n")));
}

#[test]
fn empty_frame_is_passed_over() {
    assert_eq!(handle_single_response(Some(&[])), Ok(None));
}

#[test]
fn undecodable_single_response_is_an_error() {
    assert_eq!(handle_single_response(Some(&[7, 0, 0, 0])), Err(DecodeError::UnknownTag(7)));
    assert_eq!(handle_single_response(Some(&[0, 0, 0])), Err(DecodeError::Truncated));
    assert_eq!(
        handle_single_response(Some(&[0, 0, 0, 0, 1, 0, 0, 0, 0, 0, 0, 0, 0xFF])),
        Err(DecodeError::Malformed)
    );
}

#[test]
fn chunk_is_printed_as_a_line() {
    assert_eq!(
        step_stream(BridgeResponse::StreamChunk("line".to_string())),
        StreamStep { print: out("line\n"), proceed: true }
    );
    assert_eq!(
        step_stream(BridgeResponse::StreamChunk(String::new())),
        StreamStep { print: out("\n"), proceed: true }
    );
}

#[test]
fn stream_end_stops_the_client() {
    assert_eq!(step_stream(BridgeResponse::StreamEnd), StreamStep { print: None, proceed: false });
}

#[test]
fn remote_error_stops_the_stream() {
    assert_eq!(
        step_stream(BridgeResponse::Error("not found".to_string())),
        StreamStep { print: err("Remote Error: not found\n"), proceed: false }
    );
}

#[test]
fn success_is_unexpected_during_a_stream() {
    assert_eq!(
        step_stream(BridgeResponse::Success("x".to_string())),
        StreamStep {
            print: err("Received unexpected response type during stream.\n"),
            proceed: true
        }
    );
}

#[test]
fn closed_connection_ends_the_stream_quietly() {
    assert_eq!(handle_stream_response(None), Ok(StreamStep { print: None, proceed: false }));
}

#[test]
fn undecodable_stream_response_is_an_error() {
    assert_eq!(handle_stream_response(Some(&[])), Err(DecodeError::Truncated));
    assert_eq!(handle_stream_response(Some(&[4, 0, 0, 0])), Err(DecodeError::UnknownTag(4)));
}

#[test]
fn stream_frames_are_decoded_and_stepped() {
    assert_eq!(
        handle_stream_response(Some(&payload(BridgeResponse::StreamChunk("hi".to_string())))),
        Ok(StreamStep { print: out("hi\n"), proceed: true })
    );
    assert_eq!(
        handle_stream_response(Some(&payload(BridgeResponse::StreamEnd))),
        Ok(StreamStep { print: None, proceed: false })
    );
}

#[test]
fn client_prints_what_the_server_relays() {
    let mut session = Session::new(false);
    let stream = BridgeCommand::Stream { program: "sh".to_string(), args: vec![] };
    let mut wire = Vec::new();
    for event in [
        SessionEvent::Request(encode_command(&stream)),
        SessionEvent::Spawned,
        SessionEvent::Line(Source::Stdout, "one".to_string()),
        SessionEvent::Line(Source::Stderr, "oops".to_string()),
        SessionEvent::Line(Source::Stdout, "two".to_string()),
        SessionEvent::Closed(Source::Stdout),
        SessionEvent::Closed(Source::Stderr),
        SessionEvent::ChildExited,
    ] {
        for reply in session.handle(event).replies {
            wire.extend(write_response(&reply));
        }
    }
    let mut printed = Vec::new();
    let mut at = 0;
    let mut frames = 0;
    loop {
        let frame = read_frame(&wire[at..]).ok();
        if let Some((_, used)) = &frame {
            at += used;
            frames += 1;
        }
        let step = handle_stream_response(frame.as_ref().map(|(p, _)| p.as_slice())).unwrap();
        if let Some(print) = step.print {
            printed.push(print);
        }
        if !step.proceed {
            break;
        }
    }
    assert_eq!(frames, 4);
    assert_eq!(at, wire.len());
    assert_eq!(
        printed,
        vec![
            Print { sink: Sink::Stdout, text: "one\n".to_string() },
            Print { sink: Sink::Stdout, text: "[STDERR] oops\n".to_string() },
            Print { sink: Sink::Stdout, text: "two\n".to_string() },
        ]
    );
}

#[test]
fn client_reads_the_single_reply_of_the_server() {
    let mut session = Session::new(false);
    let step = session.handle(SessionEvent::Request(encode_command(&BridgeCommand::Ping)));
    let wire = write_response(&step.replies[0]);
    let (frame, used) = read_frame(&wire).unwrap();
    assert_eq!(used, wire.len());
    assert_eq!(handle_single_response(Some(&frame)), Ok(out("Pong! Server is alive.\n")));
}

#[test]
fn only_stream_commands_expect_a_stream() {
    assert!(expects_stream(&BridgeCommand::Stream { program: "top".to_string(), args: vec![] }));
    assert!(!expects_stream(&BridgeCommand::Exec { program: "top".to_string(), args: vec![] }));
    assert!(!expects_stream(&BridgeCommand::Ping));
    assert!(!expects_stream(&BridgeCommand::DirectTap { x: 0, y: 0 }));
    assert!(!expects_stream(&BridgeCommand::DirectSwipe {
        x1: 0,
        y1: 0,
        x2: 1,
        y2: 1,
        duration_ms: 1
    }));
}

#[test]
fn client_texts() {
    assert_eq!(LINE_BREAK, "\n");
    assert_eq!(ALIVE, "Pong! Server is alive.\n");
    assert_eq!(NO_RESPONSE, "Server did not provide a response.\n");
    assert_eq!(REMOTE_ERROR, "Remote Error: ");
    assert_eq!(UNEXPECTED_SINGLE, "Received unexpected response type for single command.\n");
    assert_eq!(UNEXPECTED_STREAM, "Received unexpected response type during stream.\n");
}
