//! Length-prefixed frames: an 8-byte big-endian payload length, then the payload.

use vstd::prelude::*;
use vstd::slice::slice_subrange;
use crate::codec::format::{parse_response, response_bytes, response_fits};
use crate::codec::laws::lemma_decode_encoded_response;
use crate::codec::{encode_response, DecodeError};
use crate::packing::{
    be_bytes, be_value, get_be, lemma_be_bytes_len, lemma_be_bytes_of_value,
    lemma_be_value_of_bytes, put_be, put_bytes, radix,
};
use crate::protocol::{BridgeResponse, ResponseView};

verus! {

/// The number of bytes of the length prefix.
pub const PREFIX_LEN: usize = 8;

/// The most that the server takes of a request: a command is sent without
/// prefix, as one write, and read with one read of up to this many bytes.
pub const REQUEST_LIMIT: usize = 8192;

/// The part of a frame in which the input ended.
#[derive(Debug, Clone, Copy, PartialEq, Eq, Structural)]
pub enum FramePart {
    Prefix,
    Payload,
}

/// Why no frame could be read.
#[derive(Debug, Clone, Copy, PartialEq, Eq, Structural)]
pub enum FrameError {
    /// The peer closed the connection before the named part was complete.
    ConnectionClosed(FramePart),
}

/// The frame that carries `payload`.
pub open spec fn frame_bytes(payload: Seq<u8>) -> Seq<u8> {
    be_bytes(payload.len(), 8) + payload
}

/// The payload length that the prefix of `input` declares.
pub open spec fn declared_len(input: Seq<u8>) -> nat
    recommends
        input.len() >= 8,
{
    be_value(input.subrange(0, 8))
}

/// The first frame of `input`: its payload and the number of bytes the frame
/// takes, or the part in which `input` ends too early.
pub open spec fn parse_frame(input: Seq<u8>) -> Result<(Seq<u8>, nat), FrameError> {
    if input.len() < 8 {
        Err(FrameError::ConnectionClosed(FramePart::Prefix))
    } else if input.len() - 8 < declared_len(input) {
        Err(FrameError::ConnectionClosed(FramePart::Payload))
    } else {
        Ok((input.subrange(8, 8 + declared_len(input) as int), 8 + declared_len(input)))
    }
}

/// Frames a payload for sending.
pub fn write_frame(payload: &[u8]) -> (frame: Vec<u8>)
    ensures
        frame@ == frame_bytes(payload@),
{
    let mut frame: Vec<u8> = Vec::new();
    put_be(&mut frame, payload.len() as u64, 8);
    put_bytes(&mut frame, payload);
    assert(frame@ =~= frame_bytes(payload@));
    frame
}

/// Encodes and frames a response for sending.
pub fn write_response(response: &BridgeResponse) -> (frame: Vec<u8>)
    ensures
        frame@ == frame_bytes(response_bytes(response@)),
{
    let payload = encode_response(response);
    write_frame(payload.as_slice())
}

/// The payload length that an 8-byte prefix declares; `None` when fewer than
/// 8 bytes are given.
pub fn frame_length(prefix: &[u8]) -> (declared: Option<u64>)
    ensures
        match declared {
            Some(n) => prefix@.len() >= 8 && n as nat == declared_len(prefix@),
            None => prefix@.len() < 8,
        },
{
    if prefix.len() < PREFIX_LEN {
        None
    } else {
        Some(get_be(prefix, 0, 8))
    }
}

/// Reads the first frame of `bytes`, the bytes received until the peer closed
/// or more arrived: its payload and the number of bytes the frame takes. A
/// payload is handed out only whole, with the length that its prefix declares.
pub fn read_frame(bytes: &[u8]) -> (r: Result<(Vec<u8>, usize), FrameError>)
    ensures
        match r {
            Ok((payload, used)) => parse_frame(bytes@) == Ok::<(Seq<u8>, nat), FrameError>(
                (payload@, used as nat),
            ),
            Err(e) => parse_frame(bytes@) == Err::<(Seq<u8>, nat), FrameError>(e),
        },
        r matches Ok((payload, used)) ==> {
            &&& payload@.len() == declared_len(bytes@)
            &&& used == 8 + payload@.len()
            &&& frame_bytes(payload@).is_prefix_of(bytes@)
        },
{
    if bytes.len() < PREFIX_LEN {
        return Err(FrameError::ConnectionClosed(FramePart::Prefix));
    }
    let declared: u64 = get_be(bytes, 0, 8);
    let room: usize = bytes.len() - PREFIX_LEN;
    if (room as u64) < declared {
        return Err(FrameError::ConnectionClosed(FramePart::Payload));
    }
    let n: usize = declared as usize;
    let body = slice_subrange(bytes, PREFIX_LEN, PREFIX_LEN + n);
    let mut payload: Vec<u8> = Vec::new();
    put_bytes(&mut payload, body);
    proof {
        assert(payload@ =~= body@);
        lemma_frame_payload_complete(bytes@);
    }
    Ok((payload, PREFIX_LEN + n))
}

/// Reading a frame that was written yields exactly its payload, whatever
/// bytes follow the frame.
pub proof fn lemma_read_written_frame(payload: Seq<u8>, rest: Seq<u8>)
    requires
        payload.len() < radix(8),
    ensures
        parse_frame(frame_bytes(payload) + rest) == Ok::<(Seq<u8>, nat), FrameError>(
            (payload, 8 + payload.len()),
        ),
        parse_frame(frame_bytes(payload)) == Ok::<(Seq<u8>, nat), FrameError>(
            (payload, 8 + payload.len()),
        ),
{
    let prefix = be_bytes(payload.len(), 8);
    lemma_be_bytes_len(payload.len(), 8);
    lemma_be_value_of_bytes(payload.len(), 8);
    let input = frame_bytes(payload) + rest;
    assert(input.subrange(0, 8) =~= prefix);
    assert(input.subrange(8, 8 + payload.len() as int) =~= payload);
    let exact = frame_bytes(payload);
    assert(exact.subrange(0, 8) =~= prefix);
    assert(exact.subrange(8, 8 + payload.len() as int) =~= payload);
}

/// A frame cut short is never read as a frame: every proper beginning of a
/// written frame is reported as a closed connection.
pub proof fn lemma_truncated_frame_fails(payload: Seq<u8>, kept: int)
    requires
        payload.len() < radix(8),
        0 <= kept < 8 + payload.len(),
    ensures
        parse_frame(frame_bytes(payload).subrange(0, kept)) is Err,
        kept < 8 ==> parse_frame(frame_bytes(payload).subrange(0, kept)) == Err::<
            (Seq<u8>, nat),
            FrameError,
        >(FrameError::ConnectionClosed(FramePart::Prefix)),
        kept >= 8 ==> parse_frame(frame_bytes(payload).subrange(0, kept)) == Err::<
            (Seq<u8>, nat),
            FrameError,
        >(FrameError::ConnectionClosed(FramePart::Payload)),
{
    let prefix = be_bytes(payload.len(), 8);
    lemma_be_bytes_len(payload.len(), 8);
    lemma_be_value_of_bytes(payload.len(), 8);
    let cut = frame_bytes(payload).subrange(0, kept);
    if kept >= 8 {
        assert(cut.subrange(0, 8) =~= prefix);
    }
}

/// A payload that was read has exactly the declared length: no short buffer
/// is ever handed out.
pub proof fn lemma_frame_payload_complete(input: Seq<u8>)
    requires
        parse_frame(input) is Ok,
    ensures
        ({
            let (payload, used) = parse_frame(input)->Ok_0;
            &&& payload.len() == declared_len(input)
            &&& used == 8 + payload.len()
            &&& used <= input.len()
            &&& input.subrange(0, used as int) == frame_bytes(payload)
        }),
{
    let prefix = input.subrange(0, 8);
    let (payload, used) = parse_frame(input)->Ok_0;
    lemma_be_bytes_of_value(prefix);
    assert(input.subrange(0, used as int) =~= prefix + payload);
}

/// What the server writes for a response, the client reads as that response:
/// the first frame of the bytes holds its encoding, and the frame ends where
/// the bytes written next begin.
pub proof fn lemma_written_response_is_read(response: ResponseView, rest: Seq<u8>)
    requires
        response_fits(response),
        response_bytes(response).len() < radix(8),
    ensures
        parse_frame(frame_bytes(response_bytes(response)) + rest) == Ok::<
            (Seq<u8>, nat),
            FrameError,
        >((response_bytes(response), frame_bytes(response_bytes(response)).len())),
        parse_response(response_bytes(response)) == Ok::<ResponseView, DecodeError>(response),
        (frame_bytes(response_bytes(response)) + rest).skip(
            frame_bytes(response_bytes(response)).len() as int,
        ) == rest,
{
    let payload = response_bytes(response);
    lemma_read_written_frame(payload, rest);
    lemma_decode_encoded_response(response);
    lemma_be_bytes_len(payload.len(), 8);
    assert((frame_bytes(payload) + rest).skip(frame_bytes(payload).len() as int) =~= rest);
}

} // verus!
