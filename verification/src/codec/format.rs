//! The wire format, as mathematics: which bytes stand for which message, and
//! which message a byte string starts with.
//!
//! Every message starts with a 32-bit little-endian variant tag, followed by
//! the fields of the variant in declaration order. A text is its UTF-8 byte
//! count as a 64-bit little-endian number followed by the bytes; a list of
//! texts is its item count as a 64-bit little-endian number followed by the
//! items; `i32` and `u64` are fixed-width little-endian, signed values in
//! two's complement. A message is read from the front of the input; what
//! follows it is ignored.

use vstd::prelude::*;
use vstd::utf8::{decode_utf8, encode_utf8, valid_utf8};
use crate::codec::DecodeError;
use crate::packing::{i32_bits, i32_of_bits, le_bytes, le_value, radix};
use crate::protocol::{CommandView, ResponseView};

verus! {

/// Variant tag of `BridgeCommand::Exec`.
pub const TAG_EXEC: u32 = 0;

/// Variant tag of `BridgeCommand::Stream`.
pub const TAG_STREAM: u32 = 1;

/// Variant tag of `BridgeCommand::Ping`.
pub const TAG_PING: u32 = 2;

/// Variant tag of `BridgeCommand::DirectTap`.
pub const TAG_DIRECT_TAP: u32 = 3;

/// Variant tag of `BridgeCommand::DirectSwipe`.
pub const TAG_DIRECT_SWIPE: u32 = 4;

/// Variant tag of `BridgeResponse::Success`.
pub const TAG_SUCCESS: u32 = 0;

/// Variant tag of `BridgeResponse::Error`.
pub const TAG_ERROR: u32 = 1;

/// Variant tag of `BridgeResponse::StreamChunk`.
pub const TAG_STREAM_CHUNK: u32 = 2;

/// Variant tag of `BridgeResponse::StreamEnd`.
pub const TAG_STREAM_END: u32 = 3;

/// The encoding of a text: byte count, then UTF-8 bytes.
pub open spec fn text_bytes(text: Seq<char>) -> Seq<u8> {
    le_bytes(encode_utf8(text).len(), 8) + encode_utf8(text)
}

/// The encodings of the items of a list, one after the other.
pub open spec fn items_bytes(items: Seq<Seq<char>>) -> Seq<u8>
    decreases items.len(),
{
    if items.len() == 0 {
        Seq::empty()
    } else {
        items_bytes(items.drop_last()) + text_bytes(items.last())
    }
}

/// The encoding of a list of texts: item count, then the items.
pub open spec fn list_bytes(items: Seq<Seq<char>>) -> Seq<u8> {
    le_bytes(items.len(), 8) + items_bytes(items)
}

/// The encoding of a program with its arguments.
pub open spec fn invocation_bytes(program: Seq<char>, args: Seq<Seq<char>>) -> Seq<u8> {
    text_bytes(program) + list_bytes(args)
}

/// The encoding of a command.
pub open spec fn command_bytes(command: CommandView) -> Seq<u8> {
    match command {
        CommandView::Exec { program, args } => le_bytes(TAG_EXEC as nat, 4) + invocation_bytes(
            program,
            args,
        ),
        CommandView::Stream { program, args } => le_bytes(TAG_STREAM as nat, 4) + invocation_bytes(
            program,
            args,
        ),
        CommandView::Ping => le_bytes(TAG_PING as nat, 4),
        CommandView::DirectTap { x, y } => le_bytes(TAG_DIRECT_TAP as nat, 4) + le_bytes(
            i32_bits(x),
            4,
        ) + le_bytes(i32_bits(y), 4),
        CommandView::DirectSwipe { x1, y1, x2, y2, duration_ms } => le_bytes(
            TAG_DIRECT_SWIPE as nat,
            4,
        ) + le_bytes(i32_bits(x1), 4) + le_bytes(i32_bits(y1), 4) + le_bytes(i32_bits(x2), 4)
            + le_bytes(i32_bits(y2), 4) + le_bytes(duration_ms as nat, 8),
    }
}

/// The encoding of a response.
pub open spec fn response_bytes(response: ResponseView) -> Seq<u8> {
    match response {
        ResponseView::Success(text) => le_bytes(TAG_SUCCESS as nat, 4) + text_bytes(text),
        ResponseView::Error(text) => le_bytes(TAG_ERROR as nat, 4) + text_bytes(text),
        ResponseView::StreamChunk(text) => le_bytes(TAG_STREAM_CHUNK as nat, 4) + text_bytes(text),
        ResponseView::StreamEnd => le_bytes(TAG_STREAM_END as nat, 4),
    }
}

/// A text whose byte count fits the 64-bit count field.
pub open spec fn text_fits(text: Seq<char>) -> bool {
    encode_utf8(text).len() < radix(8)
}

/// A list whose item count and whose items fit their count fields.
pub open spec fn list_fits(items: Seq<Seq<char>>) -> bool {
    &&& items.len() < radix(8)
    &&& forall|i: int| 0 <= i < items.len() ==> text_fits(#[trigger] items[i])
}

/// A command whose every count fits its field. Every command held in memory does.
pub open spec fn command_fits(command: CommandView) -> bool {
    match command {
        CommandView::Exec { program, args } => text_fits(program) && list_fits(args),
        CommandView::Stream { program, args } => text_fits(program) && list_fits(args),
        _ => true,
    }
}

/// A response whose every count fits its field. Every response held in memory does.
pub open spec fn response_fits(response: ResponseView) -> bool {
    match response {
        ResponseView::Success(text) => text_fits(text),
        ResponseView::Error(text) => text_fits(text),
        ResponseView::StreamChunk(text) => text_fits(text),
        ResponseView::StreamEnd => true,
    }
}

/// Reads one text from the front of `input`: the text and the number of bytes it took.
pub open spec fn parse_text(input: Seq<u8>) -> Result<(Seq<char>, nat), DecodeError> {
    if input.len() < 8 {
        Err(DecodeError::Truncated)
    } else {
        let count = le_value(input.subrange(0, 8));
        if input.len() - 8 < count {
            Err(DecodeError::Truncated)
        } else {
            let body = input.subrange(8, 8 + count as int);
            if valid_utf8(body) {
                Ok((decode_utf8(body), 8 + count))
            } else {
                Err(DecodeError::Malformed)
            }
        }
    }
}

/// Reads `count` texts from the front of `input`, one after the other: the
/// texts and the number of bytes they took. The first text that cannot be
/// read decides the error.
pub open spec fn parse_items(input: Seq<u8>, count: nat) -> Result<
    (Seq<Seq<char>>, nat),
    DecodeError,
>
    decreases count,
{
    if count == 0 {
        Ok((Seq::empty(), 0))
    } else {
        match parse_items(input, (count - 1) as nat) {
            Err(e) => Err(e),
            Ok((items, used)) => match parse_text(input.skip(used as int)) {
                Err(e) => Err(e),
                Ok((text, more)) => Ok((items.push(text), used + more)),
            },
        }
    }
}

/// Reads a list of texts from the front of `input`.
pub open spec fn parse_list(input: Seq<u8>) -> Result<(Seq<Seq<char>>, nat), DecodeError> {
    if input.len() < 8 {
        Err(DecodeError::Truncated)
    } else {
        match parse_items(input.skip(8), le_value(input.subrange(0, 8))) {
            Err(e) => Err(e),
            Ok((items, used)) => Ok((items, 8 + used)),
        }
    }
}

/// Reads a program with its arguments from the front of `input`.
pub open spec fn parse_invocation(input: Seq<u8>) -> Result<
    (Seq<char>, Seq<Seq<char>>),
    DecodeError,
> {
    match parse_text(input) {
        Err(e) => Err(e),
        Ok((program, used)) => match parse_list(input.skip(used as int)) {
            Err(e) => Err(e),
            Ok((args, _)) => Ok((program, args)),
        },
    }
}

/// Reads a signed 32-bit field at byte offset `at` of `input`.
pub open spec fn field_i32(input: Seq<u8>, at: int) -> i32 {
    i32_of_bits(le_value(input.subrange(at, at + 4)))
}

/// The command that `input` starts with, or why it starts with none.
pub open spec fn parse_command(input: Seq<u8>) -> Result<CommandView, DecodeError> {
    if input.len() < 4 {
        Err(DecodeError::Truncated)
    } else {
        let tag = le_value(input.subrange(0, 4));
        if tag == TAG_EXEC {
            match parse_invocation(input.skip(4)) {
                Err(e) => Err(e),
                Ok((program, args)) => Ok(CommandView::Exec { program, args }),
            }
        } else if tag == TAG_STREAM {
            match parse_invocation(input.skip(4)) {
                Err(e) => Err(e),
                Ok((program, args)) => Ok(CommandView::Stream { program, args }),
            }
        } else if tag == TAG_PING {
            Ok(CommandView::Ping)
        } else if tag == TAG_DIRECT_TAP {
            if input.len() < 12 {
                Err(DecodeError::Truncated)
            } else {
                Ok(CommandView::DirectTap { x: field_i32(input, 4), y: field_i32(input, 8) })
            }
        } else if tag == TAG_DIRECT_SWIPE {
            if input.len() < 28 {
                Err(DecodeError::Truncated)
            } else {
                Ok(
                    CommandView::DirectSwipe {
                        x1: field_i32(input, 4),
                        y1: field_i32(input, 8),
                        x2: field_i32(input, 12),
                        y2: field_i32(input, 16),
                        duration_ms: le_value(input.subrange(20, 28)) as u64,
                    },
                )
            }
        } else {
            Err(DecodeError::UnknownTag(tag as u32))
        }
    }
}

/// The response that `input` starts with, or why it starts with none.
pub open spec fn parse_response(input: Seq<u8>) -> Result<ResponseView, DecodeError> {
    if input.len() < 4 {
        Err(DecodeError::Truncated)
    } else {
        let tag = le_value(input.subrange(0, 4));
        if tag == TAG_STREAM_END {
            Ok(ResponseView::StreamEnd)
        } else if tag == TAG_SUCCESS || tag == TAG_ERROR || tag == TAG_STREAM_CHUNK {
            match parse_text(input.skip(4)) {
                Err(e) => Err(e),
                Ok((text, _)) => Ok(
                    if tag == TAG_SUCCESS {
                        ResponseView::Success(text)
                    } else if tag == TAG_ERROR {
                        ResponseView::Error(text)
                    } else {
                        ResponseView::StreamChunk(text)
                    },
                ),
            }
        } else {
            Err(DecodeError::UnknownTag(tag as u32))
        }
    }
}

} // verus!
