use native_bridge::codec::{
    decode_command, decode_response, encode_command, encode_response, DecodeError,
};
use native_bridge::protocol::{BridgeCommand, BridgeResponse};

fn texts(items: &[&str]) -> Vec<String> {
    items.iter().map(|s| s.to_string()).collect()
}

fn sample_commands() -> Vec<BridgeCommand> {
    vec![
        BridgeCommand::Exec { program: "ls".to_string(), args: texts(&["-l", "/tmp"]) },
        BridgeCommand::Exec { program: "".to_string(), args: vec![] },
        BridgeCommand::Exec { program: "input".to_string(), args: texts(&["", "tap", ""]) },
        BridgeCommand::Stream { program: "logcat".to_string(), args: texts(&["-v", "time"]) },
        BridgeCommand::Stream { program: "größe".to_string(), args: texts(&["日本語", "🙂"]) },
        BridgeCommand::Ping,
        BridgeCommand::DirectTap { x: 540, y: 1200 },
        BridgeCommand::DirectTap { x: i32::MIN, y: i32::MAX },
        BridgeCommand::DirectSwipe { x1: 0, y1: -1, x2: 100, y2: 7, duration_ms: 300 },
        BridgeCommand::DirectSwipe { x1: -5, y1: 5, x2: i32::MAX, y2: i32::MIN, duration_ms: u64::MAX },
    ]
}

fn sample_responses() -> Vec<BridgeResponse> {
    vec![
        BridgeResponse::Success("hello\nworld\n".to_string()),
        BridgeResponse::Success(String::new()),
        BridgeResponse::Error("No such file or directory (os error 2)".to_string()),
        BridgeResponse::StreamChunk("[STDERR] warning: ünïcödé".to_string()),
        BridgeResponse::StreamChunk(String::new()),
        BridgeResponse::StreamEnd,
    ]
}

#[test]
fn ping_encodes_as_its_tag() {
    assert_eq!(encode_command(&BridgeCommand::Ping), vec![2u8, 0, 0, 0]);
}

#[test]
fn exec_encoding_is_tag_program_and_list() {
    let bytes = encode_command(&BridgeCommand::Exec {
        program: "ls".to_string(),
        args: texts(&["-l"]),
    });
    let mut expected = vec![0u8, 0, 0, 0];
    expected.extend_from_slice(&[2, 0, 0, 0, 0, 0, 0, 0]);
    expected.extend_from_slice(b"ls");
    expected.extend_from_slice(&[1, 0, 0, 0, 0, 0, 0, 0]);
    expected.extend_from_slice(&[2, 0, 0, 0, 0, 0, 0, 0]);
    expected.extend_from_slice(b"-l");
    assert_eq!(bytes, expected);
}

#[test]
fn stream_differs_from_exec_in_the_tag_only() {
    let exec = encode_command(&BridgeCommand::Exec { program: "top".to_string(), args: texts(&["-n", "1"]) });
    let stream = encode_command(&BridgeCommand::Stream { program: "top".to_string(), args: texts(&["-n", "1"]) });
    assert_eq!(&exec[..4], &[0, 0, 0, 0]);
    assert_eq!(&stream[..4], &[1, 0, 0, 0]);
    assert_eq!(&exec[4..], &stream[4..]);
}

#[test]
fn tap_encoding_is_two_signed_fields() {
    let bytes = encode_command(&BridgeCommand::DirectTap { x: 1, y: -1 });
    assert_eq!(bytes, vec![3, 0, 0, 0, 1, 0, 0, 0, 255, 255, 255, 255]);
}

#[test]
fn swipe_encoding_is_four_signed_fields_and_a_duration() {
    let bytes = encode_command(&BridgeCommand::DirectSwipe {
        x1: 0,
        y1: 256,
        x2: -2,
        y2: 3,
        duration_ms: 300,
    });
    assert_eq!(
        bytes,
        vec![
            4, 0, 0, 0, 0, 0, 0, 0, 0, 1, 0, 0, 254, 255, 255, 255, 3, 0, 0, 0, 44, 1, 0, 0, 0,
            0, 0, 0
        ]
    );
}

#[test]
fn response_encodings() {
    assert_eq!(encode_response(&BridgeResponse::StreamEnd), vec![3, 0, 0, 0]);
    assert_eq!(
        encode_response(&BridgeResponse::Success("ok".to_string())),
        vec![0, 0, 0, 0, 2, 0, 0, 0, 0, 0, 0, 0, b'o', b'k']
    );
    assert_eq!(
        encode_response(&BridgeResponse::Error(String::new())),
        vec![1, 0, 0, 0, 0, 0, 0, 0, 0, 0, 0, 0]
    );
    assert_eq!(
        encode_response(&BridgeResponse::StreamChunk("é".to_string())),
        vec![2, 0, 0, 0, 2, 0, 0, 0, 0, 0, 0, 0, 0xC3, 0xA9]
    );
}

#[test]
fn every_command_round_trips() {
    for command in sample_commands() {
        let bytes = encode_command(&command);
        assert_eq!(decode_command(&bytes), Ok(command));
    }
}

#[test]
fn every_response_round_trips() {
    for response in sample_responses() {
        let bytes = encode_response(&response);
        assert_eq!(decode_response(&bytes), Ok(response));
    }
}

#[test]
fn encoding_is_deterministic() {
    for command in sample_commands() {
        assert_eq!(encode_command(&command), encode_command(&command.clone()));
    }
    for response in sample_responses() {
        assert_eq!(encode_response(&response), encode_response(&response.clone()));
    }
}

#[test]
fn bytes_behind_a_message_are_ignored() {
    for command in sample_commands() {
        let mut bytes = encode_command(&command);
        bytes.extend_from_slice(&[0xFF, 0x00, 0x7F]);
        assert_eq!(decode_command(&bytes), Ok(command));
    }
    for response in sample_responses() {
        let mut bytes = encode_response(&response);
        bytes.extend_from_slice(&[0xC3]);
        assert_eq!(decode_response(&bytes), Ok(response));
    }
}

#[test]
fn every_cut_of_a_command_is_truncated() {
    for command in sample_commands() {
        let bytes = encode_command(&command);
        for kept in 0..bytes.len() {
            assert_eq!(decode_command(&bytes[..kept]), Err(DecodeError::Truncated));
        }
    }
}

#[test]
fn every_cut_of_a_response_is_truncated() {
    for response in sample_responses() {
        let bytes = encode_response(&response);
        for kept in 0..bytes.len() {
            assert_eq!(decode_response(&bytes[..kept]), Err(DecodeError::Truncated));
        }
    }
}

#[test]
fn empty_input_is_truncated() {
    assert_eq!(decode_command(&[]), Err(DecodeError::Truncated));
    assert_eq!(decode_response(&[]), Err(DecodeError::Truncated));
}

#[test]
fn unknown_tags_are_named() {
    assert_eq!(decode_command(&[5, 0, 0, 0]), Err(DecodeError::UnknownTag(5)));
    assert_eq!(decode_command(&[0, 1, 0, 0, 9, 9]), Err(DecodeError::UnknownTag(256)));
    assert_eq!(
        decode_command(&[0xFF, 0xFF, 0xFF, 0xFF]),
        Err(DecodeError::UnknownTag(u32::MAX))
    );
    assert_eq!(decode_response(&[4, 0, 0, 0]), Err(DecodeError::UnknownTag(4)));
}

#[test]
fn text_that_is_not_utf8_is_malformed() {
    let mut bytes = vec![0u8, 0, 0, 0];
    bytes.extend_from_slice(&[2, 0, 0, 0, 0, 0, 0, 0, 0xFF, 0xFE]);
    bytes.extend_from_slice(&[0, 0, 0, 0, 0, 0, 0, 0]);
    assert_eq!(decode_command(&bytes), Err(DecodeError::Malformed));
    let response = [1u8, 0, 0, 0, 1, 0, 0, 0, 0, 0, 0, 0, 0x80];
    assert_eq!(decode_response(&response), Err(DecodeError::Malformed));
}

#[test]
fn malformed_argument_is_found_before_a_later_cut() {
    let mut bytes = vec![0u8, 0, 0, 0];
    bytes.extend_from_slice(&[1, 0, 0, 0, 0, 0, 0, 0, b'x']);
    bytes.extend_from_slice(&[3, 0, 0, 0, 0, 0, 0, 0]);
    bytes.extend_from_slice(&[1, 0, 0, 0, 0, 0, 0, 0, b'a']);
    bytes.extend_from_slice(&[1, 0, 0, 0, 0, 0, 0, 0, 0xC0]);
    assert_eq!(decode_command(&bytes), Err(DecodeError::Malformed));
}

#[test]
fn overlong_counts_are_truncated() {
    let mut bytes = vec![0u8, 0, 0, 0];
    bytes.extend_from_slice(&[0xFF; 8]);
    bytes.extend_from_slice(b"abc");
    assert_eq!(decode_command(&bytes), Err(DecodeError::Truncated));
    let mut bytes = vec![1u8, 0, 0, 0];
    bytes.extend_from_slice(&[0, 0, 0, 0, 0, 0, 0, 0]);
    bytes.extend_from_slice(&[0xFF; 8]);
    assert_eq!(decode_command(&bytes), Err(DecodeError::Truncated));
}

#[test]
fn error_messages() {
    assert_eq!(DecodeError::Truncated.message(), "unexpected end of input");
    assert_eq!(DecodeError::Malformed.message(), "text is not valid UTF-8");
    assert_eq!(DecodeError::UnknownTag(0).message(), "unknown variant tag 0");
    assert_eq!(DecodeError::UnknownTag(7).message(), "unknown variant tag 7");
    assert_eq!(DecodeError::UnknownTag(1234).message(), "unknown variant tag 1234");
    assert_eq!(DecodeError::UnknownTag(u32::MAX).message(), "unknown variant tag 4294967295");
}

#[test]
fn commands_encode_as_bincode_encodes_their_fields() {
    let args = texts(&["-l", "größe", ""]);
    assert_eq!(
        encode_command(&BridgeCommand::Exec { program: "ls".to_string(), args: args.clone() }),
        bincode::serialize(&(0u32, "ls".to_string(), args.clone())).unwrap()
    );
    assert_eq!(
        encode_command(&BridgeCommand::Stream { program: "top".to_string(), args: args.clone() }),
        bincode::serialize(&(1u32, "top".to_string(), args)).unwrap()
    );
    assert_eq!(encode_command(&BridgeCommand::Ping), bincode::serialize(&2u32).unwrap());
    assert_eq!(
        encode_command(&BridgeCommand::DirectTap { x: -7, y: 1920 }),
        bincode::serialize(&(3u32, -7i32, 1920i32)).unwrap()
    );
    assert_eq!(
        encode_command(&BridgeCommand::DirectSwipe {
            x1: 1,
            y1: -2,
            x2: i32::MAX,
            y2: i32::MIN,
            duration_ms: 12345678901234
        }),
        bincode::serialize(&(4u32, 1i32, -2i32, i32::MAX, i32::MIN, 12345678901234u64)).unwrap()
    );
}

#[test]
fn responses_encode_as_bincode_encodes_their_fields() {
    assert_eq!(
        encode_response(&BridgeResponse::Success("out 🙂".to_string())),
        bincode::serialize(&(0u32, "out 🙂".to_string())).unwrap()
    );
    assert_eq!(
        encode_response(&BridgeResponse::Error("bad".to_string())),
        bincode::serialize(&(1u32, "bad".to_string())).unwrap()
    );
    assert_eq!(
        encode_response(&BridgeResponse::StreamChunk("line".to_string())),
        bincode::serialize(&(2u32, "line".to_string())).unwrap()
    );
    assert_eq!(encode_response(&BridgeResponse::StreamEnd), bincode::serialize(&3u32).unwrap());
}

#[test]
fn bincode_reads_what_the_codec_wrote() {
    let bytes = encode_command(&BridgeCommand::Exec {
        program: "am".to_string(),
        args: texts(&["start", "-n", "a/.b"]),
    });
    let read: (u32, String, Vec<String>) = bincode::deserialize(&bytes).unwrap();
    assert_eq!(read, (0, "am".to_string(), texts(&["start", "-n", "a/.b"])));
    let bytes = encode_response(&BridgeResponse::StreamChunk("x".to_string()));
    let read: (u32, String) = bincode::deserialize(&bytes).unwrap();
    assert_eq!(read, (2, "x".to_string()));
}

#[test]
fn the_codec_reads_what_bincode_wrote() {
    let bytes = bincode::serialize(&(4u32, 10i32, 20i32, -30i32, -40i32, 250u64)).unwrap();
    assert_eq!(
        decode_command(&bytes),
        Ok(BridgeCommand::DirectSwipe { x1: 10, y1: 20, x2: -30, y2: -40, duration_ms: 250 })
    );
    let bytes = bincode::serialize(&(1u32, "failed: ä".to_string())).unwrap();
    assert_eq!(decode_response(&bytes), Ok(BridgeResponse::Error("failed: ä".to_string())));
}
