//! What holds of the wire format: every message is read back from its
//! encoding, and only its encoding is read as it.

use vstd::prelude::*;
use vstd::utf8::{
    decode_utf8_encode_utf8, encode_utf8, encode_utf8_decode_utf8, encode_utf8_valid_utf8,
};
use crate::codec::format::{
    command_bytes, command_fits, field_i32, invocation_bytes, items_bytes, list_bytes, list_fits,
    parse_command, parse_invocation, parse_items, parse_list, parse_response, parse_text,
    response_bytes, response_fits, text_bytes, text_fits, TAG_DIRECT_SWIPE, TAG_DIRECT_TAP,
    TAG_ERROR, TAG_EXEC, TAG_PING, TAG_STREAM, TAG_STREAM_CHUNK, TAG_STREAM_END, TAG_SUCCESS,
};
use crate::codec::DecodeError;
use crate::packing::{
    i32_bits, le_bytes, le_value, lemma_i32_bits_round_trip, lemma_i32_of_bits_round_trip,
    lemma_le_bytes_len, lemma_le_bytes_of_value, lemma_le_value_bound, lemma_le_value_of_bytes,
    lemma_radix_values, radix,
};
use crate::protocol::{CommandView, ResponseView};

verus! {

/// A text is read back from its encoding, whatever follows it.
pub proof fn lemma_text_round_trip(text: Seq<char>, rest: Seq<u8>)
    requires
        text_fits(text),
    ensures
        parse_text(text_bytes(text) + rest) == Ok::<(Seq<char>, nat), DecodeError>(
            (text, text_bytes(text).len()),
        ),
        text_bytes(text).len() == 8 + encode_utf8(text).len(),
{
    let body = encode_utf8(text);
    let input = text_bytes(text) + rest;
    lemma_le_bytes_len(body.len(), 8);
    lemma_le_value_of_bytes(body.len(), 8);
    assert(input.subrange(0, 8) =~= le_bytes(body.len(), 8));
    assert(input.subrange(8, 8 + body.len() as int) =~= body);
    encode_utf8_valid_utf8(text);
    encode_utf8_decode_utf8(text);
}

/// The items of a list are read back from their encodings, whatever follows them.
pub proof fn lemma_items_round_trip(items: Seq<Seq<char>>, rest: Seq<u8>)
    requires
        forall|i: int| 0 <= i < items.len() ==> text_fits(#[trigger] items[i]),
    ensures
        parse_items(items_bytes(items) + rest, items.len()) == Ok::<
            (Seq<Seq<char>>, nat),
            DecodeError,
        >((items, items_bytes(items).len())),
    decreases items.len(),
{
    if items.len() == 0 {
        assert(items =~= Seq::<Seq<char>>::empty());
    } else {
        let front = items.drop_last();
        let last = items.last();
        let input = items_bytes(items) + rest;
        lemma_items_round_trip(front, text_bytes(last) + rest);
        assert(input =~= items_bytes(front) + (text_bytes(last) + rest));
        assert(input.skip(items_bytes(front).len() as int) =~= text_bytes(last) + rest);
        lemma_text_round_trip(last, rest);
        assert(front.push(last) =~= items);
    }
}

/// A list of texts is read back from its encoding, whatever follows it.
pub proof fn lemma_list_round_trip(items: Seq<Seq<char>>, rest: Seq<u8>)
    requires
        list_fits(items),
    ensures
        parse_list(list_bytes(items) + rest) == Ok::<(Seq<Seq<char>>, nat), DecodeError>(
            (items, list_bytes(items).len()),
        ),
{
    let input = list_bytes(items) + rest;
    lemma_le_bytes_len(items.len(), 8);
    lemma_le_value_of_bytes(items.len(), 8);
    assert(input.subrange(0, 8) =~= le_bytes(items.len(), 8));
    assert(input.skip(8) =~= items_bytes(items) + rest);
    lemma_items_round_trip(items, rest);
}

/// A program with its arguments is read back from its encoding, whatever follows it.
pub proof fn lemma_invocation_round_trip(program: Seq<char>, args: Seq<Seq<char>>, rest: Seq<u8>)
    requires
        text_fits(program),
        list_fits(args),
    ensures
        parse_invocation(invocation_bytes(program, args) + rest) == Ok::<
            (Seq<char>, Seq<Seq<char>>),
            DecodeError,
        >((program, args)),
{
    let input = invocation_bytes(program, args) + rest;
    lemma_text_round_trip(program, list_bytes(args) + rest);
    assert(input =~= text_bytes(program) + (list_bytes(args) + rest));
    assert(input.skip(text_bytes(program).len() as int) =~= list_bytes(args) + rest);
    lemma_list_round_trip(args, rest);
}

/// A fixed-width field is read back from where it was packed.
proof fn lemma_field_read(input: Seq<u8>, before: Seq<u8>, value: nat, width: nat, after: Seq<u8>)
    requires
        input == before + le_bytes(value, width) + after,
        value < radix(width),
    ensures
        le_value(input.subrange(before.len() as int, before.len() as int + width as int)) == value,
        input.len() == before.len() + width + after.len(),
{
    lemma_le_bytes_len(value, width);
    lemma_le_value_of_bytes(value, width);
    assert(input.subrange(before.len() as int, before.len() as int + width as int) =~= le_bytes(
        value,
        width,
    ));
}

/// The variant tag is read back from the front of a message.
proof fn lemma_tag_read(tag: u32, tail: Seq<u8>)
    ensures
        le_value((le_bytes(tag as nat, 4) + tail).subrange(0, 4)) == tag,
        (le_bytes(tag as nat, 4) + tail).len() == 4 + tail.len(),
        (le_bytes(tag as nat, 4) + tail).skip(4) == tail,
{
    lemma_radix_values();
    lemma_le_bytes_len(tag as nat, 4);
    lemma_le_value_of_bytes(tag as nat, 4);
    assert((le_bytes(tag as nat, 4) + tail).subrange(0, 4) =~= le_bytes(tag as nat, 4));
    assert((le_bytes(tag as nat, 4) + tail).skip(4) =~= tail);
}

/// Joining byte strings does not depend on the grouping.
proof fn lemma_join_assoc(a: Seq<u8>, b: Seq<u8>, c: Seq<u8>)
    ensures
        (a + b) + c == a + (b + c),
{
    assert((a + b) + c =~= a + (b + c));
}

/// A tap is read back from its encoding, whatever bytes follow it.
proof fn lemma_tap_round_trip(x: i32, y: i32, rest: Seq<u8>)
    ensures
        parse_command(command_bytes(CommandView::DirectTap { x, y }) + rest) == Ok::<
            CommandView,
            DecodeError,
        >(CommandView::DirectTap { x, y }),
{
    lemma_radix_values();
    let t = le_bytes(TAG_DIRECT_TAP as nat, 4);
    let bx = le_bytes(i32_bits(x), 4);
    let by = le_bytes(i32_bits(y), 4);
    let input = command_bytes(CommandView::DirectTap { x, y }) + rest;
    lemma_i32_bits_round_trip(x);
    lemma_i32_bits_round_trip(y);
    lemma_le_bytes_len(TAG_DIRECT_TAP as nat, 4);
    lemma_le_bytes_len(i32_bits(x), 4);
    assert(input == t + bx + by + rest);
    lemma_field_read(input, t + bx, i32_bits(y), 4, rest);
    lemma_join_assoc(t + bx, by, rest);
    lemma_field_read(input, t, i32_bits(x), 4, by + rest);
    lemma_join_assoc(t, bx, by + rest);
    lemma_tag_read(TAG_DIRECT_TAP, bx + (by + rest));
}

/// A swipe is read back from its encoding, whatever bytes follow it.
proof fn lemma_swipe_round_trip(x1: i32, y1: i32, x2: i32, y2: i32, duration_ms: u64, rest: Seq<u8>)
    ensures
        parse_command(
            command_bytes(CommandView::DirectSwipe { x1, y1, x2, y2, duration_ms }) + rest,
        ) == Ok::<CommandView, DecodeError>(
            CommandView::DirectSwipe { x1, y1, x2, y2, duration_ms },
        ),
{
    lemma_radix_values();
    let t = le_bytes(TAG_DIRECT_SWIPE as nat, 4);
    let b1 = le_bytes(i32_bits(x1), 4);
    let b2 = le_bytes(i32_bits(y1), 4);
    let b3 = le_bytes(i32_bits(x2), 4);
    let b4 = le_bytes(i32_bits(y2), 4);
    let bd = le_bytes(duration_ms as nat, 8);
    let input = command_bytes(CommandView::DirectSwipe { x1, y1, x2, y2, duration_ms }) + rest;
    lemma_i32_bits_round_trip(x1);
    lemma_i32_bits_round_trip(y1);
    lemma_i32_bits_round_trip(x2);
    lemma_i32_bits_round_trip(y2);
    lemma_le_bytes_len(TAG_DIRECT_SWIPE as nat, 4);
    lemma_le_bytes_len(i32_bits(x1), 4);
    lemma_le_bytes_len(i32_bits(y1), 4);
    lemma_le_bytes_len(i32_bits(x2), 4);
    lemma_le_bytes_len(i32_bits(y2), 4);
    let h1 = t + b1;
    let h2 = h1 + b2;
    let h3 = h2 + b3;
    let h4 = h3 + b4;
    let s5 = bd + rest;
    let s4 = b4 + s5;
    let s3 = b3 + s4;
    let s2 = b2 + s3;
    let s1 = b1 + s2;
    assert(input == h4 + bd + rest);
    lemma_field_read(input, h4, duration_ms as nat, 8, rest);
    lemma_join_assoc(h4, bd, rest);
    assert(input == h3 + b4 + s5);
    lemma_field_read(input, h3, i32_bits(y2), 4, s5);
    lemma_join_assoc(h3, b4, s5);
    assert(input == h2 + b3 + s4);
    lemma_field_read(input, h2, i32_bits(x2), 4, s4);
    lemma_join_assoc(h2, b3, s4);
    assert(input == h1 + b2 + s3);
    lemma_field_read(input, h1, i32_bits(y1), 4, s3);
    lemma_join_assoc(h1, b2, s3);
    assert(input == t + b1 + s2);
    lemma_field_read(input, t, i32_bits(x1), 4, s2);
    lemma_join_assoc(t, b1, s2);
    assert(input == t + s1);
    lemma_tag_read(TAG_DIRECT_SWIPE, s1);
}

/// Decoding the encoding of a command gives the command back, whatever bytes follow it.
pub proof fn lemma_command_round_trip(command: CommandView, rest: Seq<u8>)
    requires
        command_fits(command),
    ensures
        parse_command(command_bytes(command) + rest) == Ok::<CommandView, DecodeError>(command),
{
    match command {
        CommandView::Exec { program, args } => {
            let tail = invocation_bytes(program, args) + rest;
            lemma_join_assoc(le_bytes(TAG_EXEC as nat, 4), invocation_bytes(program, args), rest);
            lemma_tag_read(TAG_EXEC, tail);
            lemma_invocation_round_trip(program, args, rest);
        },
        CommandView::Stream { program, args } => {
            let tail = invocation_bytes(program, args) + rest;
            lemma_join_assoc(le_bytes(TAG_STREAM as nat, 4), invocation_bytes(program, args), rest);
            lemma_tag_read(TAG_STREAM, tail);
            lemma_invocation_round_trip(program, args, rest);
        },
        CommandView::Ping => {
            lemma_tag_read(TAG_PING, rest);
        },
        CommandView::DirectTap { x, y } => {
            lemma_tap_round_trip(x, y, rest);
        },
        CommandView::DirectSwipe { x1, y1, x2, y2, duration_ms } => {
            lemma_swipe_round_trip(x1, y1, x2, y2, duration_ms, rest);
        },
    }
}

/// Decoding the encoding of a response gives the response back, whatever bytes follow it.
pub proof fn lemma_response_round_trip(response: ResponseView, rest: Seq<u8>)
    requires
        response_fits(response),
    ensures
        parse_response(response_bytes(response) + rest) == Ok::<ResponseView, DecodeError>(
            response,
        ),
{
    match response {
        ResponseView::Success(text) => {
            lemma_join_assoc(le_bytes(TAG_SUCCESS as nat, 4), text_bytes(text), rest);
            lemma_tag_read(TAG_SUCCESS, text_bytes(text) + rest);
            lemma_text_round_trip(text, rest);
        },
        ResponseView::Error(text) => {
            lemma_join_assoc(le_bytes(TAG_ERROR as nat, 4), text_bytes(text), rest);
            lemma_tag_read(TAG_ERROR, text_bytes(text) + rest);
            lemma_text_round_trip(text, rest);
        },
        ResponseView::StreamChunk(text) => {
            lemma_join_assoc(le_bytes(TAG_STREAM_CHUNK as nat, 4), text_bytes(text), rest);
            lemma_tag_read(TAG_STREAM_CHUNK, text_bytes(text) + rest);
            lemma_text_round_trip(text, rest);
        },
        ResponseView::StreamEnd => {
            lemma_tag_read(TAG_STREAM_END, rest);
        },
    }
}

/// Decoding undoes encoding: `decode(encode(v)) == v` for every command.
pub proof fn lemma_decode_encoded_command(command: CommandView)
    requires
        command_fits(command),
    ensures
        parse_command(command_bytes(command)) == Ok::<CommandView, DecodeError>(command),
{
    lemma_command_round_trip(command, Seq::empty());
    assert(command_bytes(command) + Seq::<u8>::empty() =~= command_bytes(command));
}

/// Decoding undoes encoding: `decode(encode(v)) == v` for every response.
pub proof fn lemma_decode_encoded_response(response: ResponseView)
    requires
        response_fits(response),
    ensures
        parse_response(response_bytes(response)) == Ok::<ResponseView, DecodeError>(response),
{
    lemma_response_round_trip(response, Seq::empty());
    assert(response_bytes(response) + Seq::<u8>::empty() =~= response_bytes(response));
}

/// A text that was read stands at the front of the input in its one encoding.
pub proof fn lemma_text_canonical(input: Seq<u8>)
    requires
        parse_text(input) is Ok,
    ensures
        ({
            let (text, used) = parse_text(input)->Ok_0;
            &&& used <= input.len()
            &&& text_fits(text)
            &&& input.subrange(0, used as int) == text_bytes(text)
        }),
{
    let head = input.subrange(0, 8);
    let count = le_value(head);
    let body = input.subrange(8, 8 + count as int);
    lemma_le_value_bound(head);
    lemma_le_bytes_of_value(head);
    decode_utf8_encode_utf8(body);
    assert(input.subrange(0, 8 + count as int) =~= head + body);
}

/// The texts that were read stand at the front of the input in their one encoding.
pub proof fn lemma_items_canonical(input: Seq<u8>, count: nat)
    requires
        parse_items(input, count) is Ok,
    ensures
        ({
            let (items, used) = parse_items(input, count)->Ok_0;
            &&& items.len() == count
            &&& used <= input.len()
            &&& forall|i: int| 0 <= i < items.len() ==> text_fits(#[trigger] items[i])
            &&& input.subrange(0, used as int) == items_bytes(items)
        }),
    decreases count,
{
    if count == 0 {
        assert(input.subrange(0, 0) =~= Seq::<u8>::empty());
    } else {
        let (front, used) = parse_items(input, (count - 1) as nat)->Ok_0;
        lemma_items_canonical(input, (count - 1) as nat);
        let tail = input.skip(used as int);
        let (text, more) = parse_text(tail)->Ok_0;
        lemma_text_canonical(tail);
        let items = front.push(text);
        assert(items.drop_last() =~= front);
        assert(input.subrange(0, (used + more) as int) =~= input.subrange(0, used as int)
            + tail.subrange(0, more as int));
    }
}

/// A list that was read stands at the front of the input in its one encoding.
pub proof fn lemma_list_canonical(input: Seq<u8>)
    requires
        parse_list(input) is Ok,
    ensures
        ({
            let (items, used) = parse_list(input)->Ok_0;
            &&& used <= input.len()
            &&& list_fits(items)
            &&& input.subrange(0, used as int) == list_bytes(items)
        }),
{
    let head = input.subrange(0, 8);
    let count = le_value(head);
    lemma_le_value_bound(head);
    lemma_le_bytes_of_value(head);
    lemma_items_canonical(input.skip(8), count);
    let (items, used) = parse_items(input.skip(8), count)->Ok_0;
    assert(input.subrange(0, (8 + used) as int) =~= head + input.skip(8).subrange(0, used as int));
}

/// A program with arguments that was read stands at the front of the input in
/// its one encoding.
proof fn lemma_invocation_canonical(input: Seq<u8>)
    requires
        parse_invocation(input) is Ok,
    ensures
        ({
            let (program, args) = parse_invocation(input)->Ok_0;
            let len = invocation_bytes(program, args).len();
            &&& len <= input.len()
            &&& text_fits(program)
            &&& list_fits(args)
            &&& input.subrange(0, len as int) == invocation_bytes(program, args)
        }),
{
    let (program, used) = parse_text(input)->Ok_0;
    lemma_text_canonical(input);
    let tail = input.skip(used as int);
    let (args, more) = parse_list(tail)->Ok_0;
    lemma_list_canonical(tail);
    assert(input.subrange(0, (used + more) as int) =~= input.subrange(0, used as int)
        + tail.subrange(0, more as int));
}

/// The tag at the front of a message is the encoding of the number it spells.
proof fn lemma_tag_canonical(input: Seq<u8>, tail: Seq<u8>)
    requires
        input.len() >= 4,
        tail.len() + 4 <= input.len(),
        tail == input.subrange(4, 4 + tail.len() as int),
    ensures
        input.subrange(0, 4 + tail.len() as int) == le_bytes(le_value(input.subrange(0, 4)), 4)
            + tail,
{
    lemma_le_bytes_of_value(input.subrange(0, 4));
    assert(input.subrange(0, 4 + tail.len() as int) =~= input.subrange(0, 4) + tail);
}

/// A fixed-width signed field is the encoding of the number it spells.
proof fn lemma_i32_canonical(input: Seq<u8>, at: int)
    requires
        0 <= at,
        at + 4 <= input.len(),
    ensures
        input.subrange(at, at + 4) == le_bytes(i32_bits(field_i32(input, at)), 4),
{
    let field = input.subrange(at, at + 4);
    lemma_radix_values();
    lemma_le_value_bound(field);
    lemma_le_bytes_of_value(field);
    lemma_i32_of_bits_round_trip(le_value(field));
}

/// Only the encoding of a command decodes to it: the input of a successful
/// decoding starts with exactly the bytes that encoding the result gives.
pub proof fn lemma_command_canonical(input: Seq<u8>)
    requires
        parse_command(input) is Ok,
    ensures
        ({
            let command = parse_command(input)->Ok_0;
            let len = command_bytes(command).len();
            &&& len <= input.len()
            &&& command_fits(command)
            &&& input.subrange(0, len as int) == command_bytes(command)
        }),
{
    lemma_radix_values();
    let command = parse_command(input)->Ok_0;
    match command {
        CommandView::Exec { program, args } => {
            lemma_invocation_canonical(input.skip(4));
            let body = invocation_bytes(program, args);
            assert(body =~= input.subrange(4, 4 + body.len() as int));
            lemma_tag_canonical(input, body);
        },
        CommandView::Stream { program, args } => {
            lemma_invocation_canonical(input.skip(4));
            let body = invocation_bytes(program, args);
            assert(body =~= input.subrange(4, 4 + body.len() as int));
            lemma_tag_canonical(input, body);
        },
        CommandView::Ping => {
            assert(input.subrange(4, 4) =~= Seq::<u8>::empty());
            assert(input.subrange(4, 4) =~= Seq::<u8>::empty());
        lemma_tag_canonical(input, Seq::empty());
            assert(le_bytes(TAG_PING as nat, 4) + Seq::<u8>::empty() =~= le_bytes(
                TAG_PING as nat,
                4,
            ));
        },
        CommandView::DirectTap { x, y } => {
            lemma_i32_canonical(input, 4);
            lemma_i32_canonical(input, 8);
            let body = input.subrange(4, 12);
            assert(body =~= input.subrange(4, 8) + input.subrange(8, 12));
            lemma_tag_canonical(input, body);
            lemma_join_assoc(
                le_bytes(TAG_DIRECT_TAP as nat, 4),
                input.subrange(4, 8),
                input.subrange(8, 12),
            );
        },
        CommandView::DirectSwipe { x1, y1, x2, y2, duration_ms } => {
            lemma_i32_canonical(input, 4);
            lemma_i32_canonical(input, 8);
            lemma_i32_canonical(input, 12);
            lemma_i32_canonical(input, 16);
            lemma_le_value_bound(input.subrange(20, 28));
            lemma_le_bytes_of_value(input.subrange(20, 28));
            let t = le_bytes(TAG_DIRECT_SWIPE as nat, 4);
            let b1 = input.subrange(4, 8);
            let b2 = input.subrange(8, 12);
            let b3 = input.subrange(12, 16);
            let b4 = input.subrange(16, 20);
            let bd = input.subrange(20, 28);
            lemma_le_bytes_of_value(input.subrange(0, 4));
            assert(input.subrange(0, 28) =~= t + b1 + b2 + b3 + b4 + bd);
        },
    }
}

/// Only the encoding of a response decodes to it: the input of a successful
/// decoding starts with exactly the bytes that encoding the result gives.
pub proof fn lemma_response_canonical(input: Seq<u8>)
    requires
        parse_response(input) is Ok,
    ensures
        ({
            let response = parse_response(input)->Ok_0;
            let len = response_bytes(response).len();
            &&& len <= input.len()
            &&& response_fits(response)
            &&& input.subrange(0, len as int) == response_bytes(response)
        }),
{
    lemma_radix_values();
    let response = parse_response(input)->Ok_0;
    if response == ResponseView::StreamEnd {
        assert(input.subrange(4, 4) =~= Seq::<u8>::empty());
        lemma_tag_canonical(input, Seq::empty());
        assert(le_bytes(TAG_STREAM_END as nat, 4) + Seq::<u8>::empty() =~= le_bytes(
            TAG_STREAM_END as nat,
            4,
        ));
    } else {
        let (text, used) = parse_text(input.skip(4))->Ok_0;
        lemma_text_canonical(input.skip(4));
        let body = text_bytes(text);
        assert(body =~= input.subrange(4, 4 + body.len() as int));
        lemma_tag_canonical(input, body);
    }
}

} // verus!
