//! Encoding and decoding of commands and responses.

pub mod format;
pub mod laws;

use vstd::prelude::*;
use vstd::slice::slice_subrange;
use vstd::string::{StringExecFns, StringSliceAdditionalSpecFns};
use vstd::utf8::{encode_utf8_decode_utf8, valid_utf8};
use crate::codec::format::{
    command_bytes, command_fits, field_i32, items_bytes, list_bytes, list_fits, parse_command,
    parse_invocation, parse_items, parse_list, parse_response, parse_text, response_bytes,
    response_fits, text_bytes, text_fits, TAG_DIRECT_SWIPE, TAG_DIRECT_TAP, TAG_ERROR, TAG_EXEC,
    TAG_PING, TAG_STREAM, TAG_STREAM_CHUNK, TAG_STREAM_END, TAG_SUCCESS,
};
use crate::codec::laws::{lemma_command_canonical, lemma_response_canonical};
use crate::packing::{
    bits_of_i32, get_le, i32_bits, i32_from_bits, le_bytes, le_value, lemma_le_value_bound,
    lemma_radix_values, put_bytes, put_le,
};
use crate::protocol::{BridgeCommand, BridgeResponse, CommandView, ResponseView};
use crate::text::{decimal, put_decimal};

verus! {

/// Why a byte string is no message.
#[derive(Debug, Clone, Copy, PartialEq, Eq, Structural)]
pub enum DecodeError {
    /// The input ends before the message does.
    Truncated,
    /// A text field does not hold UTF-8.
    Malformed,
    /// The variant tag names no variant.
    UnknownTag(u32),
}

/// The description of input that ends too early.
pub const TRUNCATED: &'static str = "unexpected end of input";

/// The description of a text field that is no text.
pub const MALFORMED: &'static str = "text is not valid UTF-8";

/// What precedes the number of a tag that names no variant.
pub const UNKNOWN_TAG: &'static str = "unknown variant tag ";

/// The description of a decoding error, as it is shown to people.
pub open spec fn error_text(error: DecodeError) -> Seq<char> {
    match error {
        DecodeError::Truncated => TRUNCATED@,
        DecodeError::Malformed => MALFORMED@,
        DecodeError::UnknownTag(tag) => UNKNOWN_TAG@ + decimal(tag as nat),
    }
}

impl DecodeError {
    /// Describes the error.
    pub fn message(&self) -> (text: String)
        ensures
            text@ == error_text(*self),
    {
        match self {
            DecodeError::Truncated => String::from_str(TRUNCATED),
            DecodeError::Malformed => String::from_str(MALFORMED),
            DecodeError::UnknownTag(tag) => {
                let mut text = String::from_str(UNKNOWN_TAG);
                put_decimal(&mut text, *tag as u64);
                text
            },
        }
    }
}

/// `core::str::from_utf8`: the bytes are accepted exactly when they are valid
/// UTF-8, and the text handed back is made of those very bytes.
#[verifier::external_body]
fn utf8_text(bytes: &[u8]) -> (text: Option<&str>)
    ensures
        text is Some <==> valid_utf8(bytes@),
        text matches Some(s) ==> s.spec_bytes() == bytes@,
{
    core::str::from_utf8(bytes).ok()
}

/// Appends the encoding of `text` to `out`.
fn put_text(out: &mut Vec<u8>, text: &str)
    ensures
        final(out)@ == old(out)@ + text_bytes(text@),
        text_fits(text@),
{
    let bytes = text.as_bytes();
    put_le(out, bytes.len() as u64, 8);
    put_bytes(out, bytes);
    proof {
        lemma_radix_values();
        assert(out@ =~= old(out)@ + text_bytes(text@));
    }
}

/// Appends the encoding of the list `items` to `out`.
fn put_list(out: &mut Vec<u8>, items: &Vec<String>)
    ensures
        final(out)@ == old(out)@ + list_bytes(items.deep_view()),
        list_fits(items.deep_view()),
{
    let ghost all = items.deep_view();
    put_le(out, items.len() as u64, 8);
    let mut i: usize = 0;
    assert(all.take(0) =~= Seq::<Seq<char>>::empty());
    assert(out@ =~= old(out)@ + le_bytes(all.len(), 8) + items_bytes(all.take(0)));
    while i < items.len()
        invariant
            i <= items.len(),
            all == items.deep_view(),
            out@ == old(out)@ + le_bytes(all.len(), 8) + items_bytes(all.take(i as int)),
            forall|j: int| 0 <= j < i ==> text_fits(#[trigger] all[j]),
        decreases items.len() - i,
    {
        put_text(out, items[i].as_str());
        proof {
            let longer = all.take(i + 1);
            assert(longer.drop_last() =~= all.take(i as int));
            assert(longer.last() == items[i as int]@);
            assert(out@ =~= old(out)@ + le_bytes(all.len(), 8) + items_bytes(longer));
        }
        i = i + 1;
    }
    proof {
        lemma_radix_values();
        assert(all.take(items.len() as int) =~= all);
        assert(out@ =~= old(out)@ + list_bytes(all));
    }
}

/// Appends the two's complement little-endian bytes of `x` to `out`.
fn put_i32(out: &mut Vec<u8>, x: i32)
    ensures
        final(out)@ == old(out)@ + le_bytes(i32_bits(x), 4),
{
    put_le(out, bits_of_i32(x) as u64, 4);
}

/// Encodes a command.
pub fn encode_command(command: &BridgeCommand) -> (out: Vec<u8>)
    ensures
        out@ == command_bytes(command@),
        command_fits(command@),
{
    let mut out: Vec<u8> = Vec::new();
    match command {
        BridgeCommand::Exec { program, args } => {
            put_le(&mut out, TAG_EXEC as u64, 4);
            put_text(&mut out, program.as_str());
            put_list(&mut out, args);
            assert(out@ =~= command_bytes(command@));
        },
        BridgeCommand::Stream { program, args } => {
            put_le(&mut out, TAG_STREAM as u64, 4);
            put_text(&mut out, program.as_str());
            put_list(&mut out, args);
            assert(out@ =~= command_bytes(command@));
        },
        BridgeCommand::Ping => {
            put_le(&mut out, TAG_PING as u64, 4);
            assert(out@ =~= command_bytes(command@));
        },
        BridgeCommand::DirectTap { x, y } => {
            put_le(&mut out, TAG_DIRECT_TAP as u64, 4);
            put_i32(&mut out, *x);
            put_i32(&mut out, *y);
            assert(out@ =~= command_bytes(command@));
        },
        BridgeCommand::DirectSwipe { x1, y1, x2, y2, duration_ms } => {
            put_le(&mut out, TAG_DIRECT_SWIPE as u64, 4);
            put_i32(&mut out, *x1);
            put_i32(&mut out, *y1);
            put_i32(&mut out, *x2);
            put_i32(&mut out, *y2);
            put_le(&mut out, *duration_ms, 8);
            assert(out@ =~= command_bytes(command@));
        },
    }
    out
}

/// Encodes a response.
pub fn encode_response(response: &BridgeResponse) -> (out: Vec<u8>)
    ensures
        out@ == response_bytes(response@),
        response_fits(response@),
{
    let mut out: Vec<u8> = Vec::new();
    match response {
        BridgeResponse::Success(text) => {
            put_le(&mut out, TAG_SUCCESS as u64, 4);
            put_text(&mut out, text.as_str());
            assert(out@ =~= response_bytes(response@));
        },
        BridgeResponse::Error(text) => {
            put_le(&mut out, TAG_ERROR as u64, 4);
            put_text(&mut out, text.as_str());
            assert(out@ =~= response_bytes(response@));
        },
        BridgeResponse::StreamChunk(text) => {
            put_le(&mut out, TAG_STREAM_CHUNK as u64, 4);
            put_text(&mut out, text.as_str());
            assert(out@ =~= response_bytes(response@));
        },
        BridgeResponse::StreamEnd => {
            put_le(&mut out, TAG_STREAM_END as u64, 4);
            assert(out@ =~= response_bytes(response@));
        },
    }
    out
}

/// Reads one text from `bytes` at `at`: the text and the offset behind it.
fn take_text(bytes: &[u8], at: usize) -> (r: Result<(String, usize), DecodeError>)
    requires
        at <= bytes.len(),
    ensures
        match r {
            Ok((text, next)) => at <= next <= bytes.len() && parse_text(bytes@.skip(at as int))
                == Ok::<(Seq<char>, nat), DecodeError>((text@, (next - at) as nat)),
            Err(e) => parse_text(bytes@.skip(at as int)) == Err::<(Seq<char>, nat), DecodeError>(e),
        },
{
    let ghost input = bytes@.skip(at as int);
    if bytes.len() - at < 8 {
        return Err(DecodeError::Truncated);
    }
    let count: u64 = get_le(bytes, at, 8);
    assert(input.subrange(0, 8) =~= bytes@.subrange(at as int, at + 8));
    let room: usize = bytes.len() - at - 8;
    if (room as u64) < count {
        return Err(DecodeError::Truncated);
    }
    let n: usize = count as usize;
    let body = slice_subrange(bytes, at + 8, at + 8 + n);
    assert(input.subrange(8, 8 + count as int) =~= body@);
    match utf8_text(body) {
        None => Err(DecodeError::Malformed),
        Some(s) => {
            proof {
                encode_utf8_decode_utf8(s@);
            }
            Ok((s.to_owned(), at + 8 + n))
        },
    }
}

/// An error among the first texts of a list is the error of every longer list.
proof fn lemma_parse_items_error_stays(input: Seq<u8>, failed: nat, count: nat)
    requires
        failed <= count,
        parse_items(input, failed) is Err,
    ensures
        parse_items(input, count) == parse_items(input, failed),
    decreases count,
{
    if failed < count {
        lemma_parse_items_error_stays(input, failed, (count - 1) as nat);
    }
}

/// Reads a list of texts from `bytes` at `at`: the texts and the offset behind them.
fn take_list(bytes: &[u8], at: usize) -> (r: Result<(Vec<String>, usize), DecodeError>)
    requires
        at <= bytes.len(),
    ensures
        match r {
            Ok((items, next)) => at <= next <= bytes.len() && parse_list(bytes@.skip(at as int))
                == Ok::<(Seq<Seq<char>>, nat), DecodeError>(
                (items.deep_view(), (next - at) as nat),
            ),
            Err(e) => parse_list(bytes@.skip(at as int)) == Err::<
                (Seq<Seq<char>>, nat),
                DecodeError,
            >(e),
        },
{
    let ghost input = bytes@.skip(at as int);
    if bytes.len() - at < 8 {
        return Err(DecodeError::Truncated);
    }
    let count: u64 = get_le(bytes, at, 8);
    assert(input.subrange(0, 8) =~= bytes@.subrange(at as int, at + 8));
    let ghost rest = input.skip(8);
    let mut items: Vec<String> = Vec::new();
    let mut pos: usize = at + 8;
    let mut i: u64 = 0;
    assert(items.deep_view() =~= Seq::<Seq<char>>::empty());
    while i < count
        invariant
            i <= count,
            at + 8 <= pos <= bytes.len(),
            rest == bytes@.skip(at as int).skip(8),
            count as nat == le_value(bytes@.skip(at as int).subrange(0, 8)),
            parse_items(rest, i as nat) == Ok::<(Seq<Seq<char>>, nat), DecodeError>(
                (items.deep_view(), (pos - at - 8) as nat),
            ),
        decreases count - i,
    {
        let ghost before = items.deep_view();
        assert(rest.skip(pos - at - 8) =~= bytes@.skip(pos as int));
        match take_text(bytes, pos) {
            Err(e) => {
                proof {
                    assert(parse_items(rest, (i + 1) as nat) is Err);
                    lemma_parse_items_error_stays(rest, (i + 1) as nat, count as nat);
                }
                return Err(e);
            },
            Ok((text, next)) => {
                let ghost shown = text@;
                items.push(text);
                assert(items.deep_view() =~= before.push(shown));
                pos = next;
                i = i + 1;
            },
        }
    }
    Ok((items, pos))
}

/// Reads a program with its arguments from `bytes` at `at`.
fn take_invocation(bytes: &[u8], at: usize) -> (r: Result<(String, Vec<String>), DecodeError>)
    requires
        at <= bytes.len(),
    ensures
        match r {
            Ok((program, args)) => parse_invocation(bytes@.skip(at as int)) == Ok::<
                (Seq<char>, Seq<Seq<char>>),
                DecodeError,
            >((program@, args.deep_view())),
            Err(e) => parse_invocation(bytes@.skip(at as int)) == Err::<
                (Seq<char>, Seq<Seq<char>>),
                DecodeError,
            >(e),
        },
{
    match take_text(bytes, at) {
        Err(e) => Err(e),
        Ok((program, next)) => {
            assert(bytes@.skip(at as int).skip(next - at) =~= bytes@.skip(next as int));
            match take_list(bytes, next) {
                Err(e) => Err(e),
                Ok((args, _)) => Ok((program, args)),
            }
        },
    }
}

/// Reads a signed 32-bit field of `bytes` at `at`.
fn take_i32(bytes: &[u8], at: usize) -> (x: i32)
    requires
        at + 4 <= bytes.len(),
    ensures
        x == field_i32(bytes@, at as int),
{
    proof {
        lemma_le_value_bound(bytes@.subrange(at as int, at + 4));
        lemma_radix_values();
    }
    i32_from_bits(get_le(bytes, at, 4) as u32)
}

/// Decodes the command at the front of `bytes`; bytes behind it are ignored.
/// The command that comes back is the one whose encoding `bytes` starts with.
pub fn decode_command(bytes: &[u8]) -> (r: Result<BridgeCommand, DecodeError>)
    ensures
        match r {
            Ok(command) => parse_command(bytes@) == Ok::<CommandView, DecodeError>(command@),
            Err(e) => parse_command(bytes@) == Err::<CommandView, DecodeError>(e),
        },
        r matches Ok(command) ==> command_bytes(command@).is_prefix_of(bytes@),
{
    let r = read_command(bytes);
    proof {
        if r is Ok {
            lemma_command_canonical(bytes@);
        }
    }
    r
}

/// Reads the command at the front of `bytes`.
fn read_command(bytes: &[u8]) -> (r: Result<BridgeCommand, DecodeError>)
    ensures
        match r {
            Ok(command) => parse_command(bytes@) == Ok::<CommandView, DecodeError>(command@),
            Err(e) => parse_command(bytes@) == Err::<CommandView, DecodeError>(e),
        },
{
    if bytes.len() < 4 {
        return Err(DecodeError::Truncated);
    }
    proof {
        lemma_le_value_bound(bytes@.subrange(0, 4));
        lemma_radix_values();
    }
    let tag: u32 = get_le(bytes, 0, 4) as u32;
    if tag == TAG_EXEC {
        match take_invocation(bytes, 4) {
            Err(e) => Err(e),
            Ok((program, args)) => Ok(BridgeCommand::Exec { program, args }),
        }
    } else if tag == TAG_STREAM {
        match take_invocation(bytes, 4) {
            Err(e) => Err(e),
            Ok((program, args)) => Ok(BridgeCommand::Stream { program, args }),
        }
    } else if tag == TAG_PING {
        Ok(BridgeCommand::Ping)
    } else if tag == TAG_DIRECT_TAP {
        if bytes.len() < 12 {
            Err(DecodeError::Truncated)
        } else {
            Ok(BridgeCommand::DirectTap { x: take_i32(bytes, 4), y: take_i32(bytes, 8) })
        }
    } else if tag == TAG_DIRECT_SWIPE {
        if bytes.len() < 28 {
            Err(DecodeError::Truncated)
        } else {
            Ok(
                BridgeCommand::DirectSwipe {
                    x1: take_i32(bytes, 4),
                    y1: take_i32(bytes, 8),
                    x2: take_i32(bytes, 12),
                    y2: take_i32(bytes, 16),
                    duration_ms: get_le(bytes, 20, 8),
                },
            )
        }
    } else {
        Err(DecodeError::UnknownTag(tag))
    }
}

/// Decodes the response at the front of `bytes`; bytes behind it are ignored.
/// The response that comes back is the one whose encoding `bytes` starts with.
pub fn decode_response(bytes: &[u8]) -> (r: Result<BridgeResponse, DecodeError>)
    ensures
        match r {
            Ok(response) => parse_response(bytes@) == Ok::<ResponseView, DecodeError>(response@),
            Err(e) => parse_response(bytes@) == Err::<ResponseView, DecodeError>(e),
        },
        r matches Ok(response) ==> response_bytes(response@).is_prefix_of(bytes@),
{
    let r = read_response(bytes);
    proof {
        if r is Ok {
            lemma_response_canonical(bytes@);
        }
    }
    r
}

/// Reads the response at the front of `bytes`.
fn read_response(bytes: &[u8]) -> (r: Result<BridgeResponse, DecodeError>)
    ensures
        match r {
            Ok(response) => parse_response(bytes@) == Ok::<ResponseView, DecodeError>(response@),
            Err(e) => parse_response(bytes@) == Err::<ResponseView, DecodeError>(e),
        },
{
    if bytes.len() < 4 {
        return Err(DecodeError::Truncated);
    }
    proof {
        lemma_le_value_bound(bytes@.subrange(0, 4));
        lemma_radix_values();
    }
    let tag: u32 = get_le(bytes, 0, 4) as u32;
    if tag == TAG_STREAM_END {
        Ok(BridgeResponse::StreamEnd)
    } else if tag == TAG_SUCCESS || tag == TAG_ERROR || tag == TAG_STREAM_CHUNK {
        match take_text(bytes, 4) {
            Err(e) => Err(e),
            Ok((text, _)) => Ok(
                if tag == TAG_SUCCESS {
                    BridgeResponse::Success(text)
                } else if tag == TAG_ERROR {
                    BridgeResponse::Error(text)
                } else {
                    BridgeResponse::StreamChunk(text)
                },
            ),
        }
    } else {
        Err(DecodeError::UnknownTag(tag))
    }
}

} // verus!
