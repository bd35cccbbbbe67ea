//! Fixed-width integers as byte strings, little-endian and big-endian.
//!
//! Values are packed by plain division and remainder, so that the
//! specification reads as positional notation in base 256.

use vstd::prelude::*;

verus! {

/// The number of values that `width` bytes can tell apart: 256 to the power `width`.
pub open spec fn radix(width: nat) -> nat
    decreases width,
{
    if width == 0 {
        1
    } else {
        256 * radix((width - 1) as nat)
    }
}

/// The little-endian bytes of `value`, `width` of them: least significant byte first.
pub open spec fn le_bytes(value: nat, width: nat) -> Seq<u8>
    decreases width,
{
    if width == 0 {
        Seq::empty()
    } else {
        seq![(value % 256) as u8] + le_bytes(value / 256, (width - 1) as nat)
    }
}

/// The number that `bytes` spell in little-endian order.
pub open spec fn le_value(bytes: Seq<u8>) -> nat
    decreases bytes.len(),
{
    if bytes.len() == 0 {
        0
    } else {
        bytes[0] as nat + 256 * le_value(bytes.drop_first())
    }
}

/// The big-endian bytes of `value`, `width` of them: most significant byte first.
pub open spec fn be_bytes(value: nat, width: nat) -> Seq<u8>
    decreases width,
{
    if width == 0 {
        Seq::empty()
    } else {
        be_bytes(value / 256, (width - 1) as nat).push((value % 256) as u8)
    }
}

/// The number that `bytes` spell in big-endian order.
pub open spec fn be_value(bytes: Seq<u8>) -> nat
    decreases bytes.len(),
{
    if bytes.len() == 0 {
        0
    } else {
        256 * be_value(bytes.drop_last()) + bytes.last() as nat
    }
}

/// The unsigned 32-bit pattern of `x` in two's complement.
pub open spec fn i32_bits(x: i32) -> nat {
    if x < 0 {
        (x + 0x1_0000_0000) as nat
    } else {
        x as nat
    }
}

/// The signed value of an unsigned 32-bit pattern in two's complement.
pub open spec fn i32_of_bits(bits: nat) -> i32 {
    if bits >= 0x8000_0000 {
        (bits - 0x1_0000_0000) as i32
    } else {
        bits as i32
    }
}

/// The radix of the widths that the wire format uses.
pub proof fn lemma_radix_values()
    ensures
        radix(0) == 1,
        radix(1) == 0x100,
        radix(2) == 0x1_0000,
        radix(4) == 0x1_0000_0000,
        radix(8) == 0x1_0000_0000_0000_0000,
{
    reveal_with_fuel(radix, 9);
}

/// A wider field holds at least as many values.
pub proof fn lemma_radix_monotonic(a: nat, b: nat)
    requires
        a <= b,
    ensures
        1 <= radix(a) <= radix(b),
    decreases b,
{
    if b == 0 {
    } else if a == b {
        lemma_radix_monotonic((a - 1) as nat, (b - 1) as nat);
    } else {
        lemma_radix_monotonic(a, (b - 1) as nat);
    }
}

/// Packing yields exactly `width` bytes.
pub proof fn lemma_le_bytes_len(value: nat, width: nat)
    ensures
        le_bytes(value, width).len() == width,
    decreases width,
{
    if width > 0 {
        lemma_le_bytes_len(value / 256, (width - 1) as nat);
    }
}

/// Packing yields exactly `width` bytes.
pub proof fn lemma_be_bytes_len(value: nat, width: nat)
    ensures
        be_bytes(value, width).len() == width,
    decreases width,
{
    if width > 0 {
        lemma_be_bytes_len(value / 256, (width - 1) as nat);
    }
}

/// Bytes never spell a number that their count could not hold.
pub proof fn lemma_le_value_bound(bytes: Seq<u8>)
    ensures
        le_value(bytes) < radix(bytes.len()),
    decreases bytes.len(),
{
    if bytes.len() > 0 {
        lemma_le_value_bound(bytes.drop_first());
    }
}

/// Bytes never spell a number that their count could not hold.
pub proof fn lemma_be_value_bound(bytes: Seq<u8>)
    ensures
        be_value(bytes) < radix(bytes.len()),
    decreases bytes.len(),
{
    if bytes.len() > 0 {
        lemma_be_value_bound(bytes.drop_last());
    }
}

/// Reading back what was packed gives the value, when the field is wide enough for it.
pub proof fn lemma_le_value_of_bytes(value: nat, width: nat)
    requires
        value < radix(width),
    ensures
        le_value(le_bytes(value, width)) == value,
    decreases width,
{
    if width > 0 {
        let rest = le_bytes(value / 256, (width - 1) as nat);
        lemma_le_value_of_bytes(value / 256, (width - 1) as nat);
        assert(le_bytes(value, width).drop_first() =~= rest);
    }
}

/// Packing what was read gives the bytes back.
pub proof fn lemma_le_bytes_of_value(bytes: Seq<u8>)
    ensures
        le_bytes(le_value(bytes), bytes.len()) == bytes,
    decreases bytes.len(),
{
    if bytes.len() > 0 {
        let tail = bytes.drop_first();
        lemma_le_bytes_of_value(tail);
        let v = le_value(bytes);
        assert(v % 256 == bytes[0] as nat);
        assert(v / 256 == le_value(tail));
        assert(le_bytes(v, bytes.len()) =~= bytes);
    } else {
        assert(le_bytes(le_value(bytes), bytes.len()) =~= bytes);
    }
}

/// Reading back what was packed gives the value, when the field is wide enough for it.
pub proof fn lemma_be_value_of_bytes(value: nat, width: nat)
    requires
        value < radix(width),
    ensures
        be_value(be_bytes(value, width)) == value,
    decreases width,
{
    if width > 0 {
        let front = be_bytes(value / 256, (width - 1) as nat);
        lemma_be_value_of_bytes(value / 256, (width - 1) as nat);
        assert(be_bytes(value, width).drop_last() =~= front);
    }
}

/// Packing what was read gives the bytes back.
pub proof fn lemma_be_bytes_of_value(bytes: Seq<u8>)
    ensures
        be_bytes(be_value(bytes), bytes.len()) == bytes,
    decreases bytes.len(),
{
    if bytes.len() > 0 {
        let front = bytes.drop_last();
        lemma_be_bytes_of_value(front);
        let v = be_value(bytes);
        assert(v % 256 == bytes.last() as nat);
        assert(v / 256 == be_value(front));
        assert(be_bytes(v, bytes.len()) =~= bytes);
    } else {
        assert(be_bytes(be_value(bytes), bytes.len()) =~= bytes);
    }
}

/// Two's complement loses nothing.
pub proof fn lemma_i32_bits_round_trip(x: i32)
    ensures
        i32_bits(x) < 0x1_0000_0000,
        i32_of_bits(i32_bits(x)) == x,
{
}

/// Every 32-bit pattern is the pattern of the number it stands for.
pub proof fn lemma_i32_of_bits_round_trip(bits: nat)
    requires
        bits < 0x1_0000_0000,
    ensures
        i32_bits(i32_of_bits(bits)) == bits,
{
}

/// Appends `more` to `out`.
pub fn put_bytes(out: &mut Vec<u8>, more: &[u8])
    ensures
        final(out)@ == old(out)@ + more@,
{
    let mut i: usize = 0;
    while i < more.len()
        invariant
            i <= more.len(),
            out@ == old(out)@ + more@.subrange(0, i as int),
        decreases more.len() - i,
    {
        out.push(more[i]);
        i = i + 1;
    }
    assert(more@.subrange(0, more.len() as int) =~= more@);
}

/// Appends the little-endian bytes of `value`, `width` of them, to `out`.
pub fn put_le(out: &mut Vec<u8>, value: u64, width: usize)
    requires
        width <= 8,
    ensures
        final(out)@ == old(out)@ + le_bytes(value as nat, width as nat),
{
    let mut rest: u64 = value;
    let mut i: usize = 0;
    while i < width
        invariant
            i <= width,
            out@ + le_bytes(rest as nat, (width - i) as nat) == old(out)@ + le_bytes(
                value as nat,
                width as nat,
            ),
        decreases width - i,
    {
        let ghost before = out@;
        let low: u8 = (rest % 256) as u8;
        out.push(low);
        proof {
            let tail = le_bytes((rest / 256) as nat, (width - i - 1) as nat);
            assert(le_bytes(rest as nat, (width - i) as nat) == seq![low] + tail);
            assert(before.push(low) + tail =~= before + (seq![low] + tail));
        }
        rest = rest / 256;
        i = i + 1;
    }
    assert(out@ + Seq::<u8>::empty() =~= out@);
}

/// Reads the little-endian number held in `width` bytes of `bytes` from `at` on.
pub fn get_le(bytes: &[u8], at: usize, width: usize) -> (value: u64)
    requires
        width <= 8,
        at + width <= bytes.len(),
    ensures
        value as nat == le_value(bytes@.subrange(at as int, at + width)),
{
    let mut acc: u64 = 0;
    let mut i: usize = width;
    assert(bytes@.subrange(at + width, at + width) =~= Seq::<u8>::empty());
    while i > 0
        invariant
            i <= width <= 8,
            at + width <= bytes.len(),
            acc as nat == le_value(bytes@.subrange(at + i, at + width)),
        decreases i,
    {
        let ghost longer = bytes@.subrange(at + i - 1, at + width);
        proof {
            assert(longer.drop_first() =~= bytes@.subrange(at + i, at + width));
            lemma_le_value_bound(longer);
            lemma_radix_monotonic(longer.len(), 8);
            lemma_radix_values();
        }
        i = i - 1;
        acc = acc * 256 + bytes[at + i] as u64;
    }
    acc
}

/// Appends the big-endian bytes of `value`, `width` of them, to `out`.
pub fn put_be(out: &mut Vec<u8>, value: u64, width: usize)
    requires
        width <= 8,
    ensures
        final(out)@ == old(out)@ + be_bytes(value as nat, width as nat),
{
    let mut field: Vec<u8> = Vec::new();
    put_le(&mut field, value, width);
    proof {
        lemma_le_bytes_len(value as nat, width as nat);
        lemma_be_is_reversed_le(value as nat, width as nat);
    }
    let mut i: usize = width;
    while i > 0
        invariant
            i <= width,
            field@ == le_bytes(value as nat, width as nat),
            field@.len() == width,
            out@ == old(out)@ + field@.reverse().subrange(0, width - i),
        decreases i,
    {
        i = i - 1;
        out.push(field[i]);
        assert(out@ =~= old(out)@ + field@.reverse().subrange(0, width - i));
    }
    assert(field@.reverse().subrange(0, width as int) =~= field@.reverse());
}

/// Reads the big-endian number held in `width` bytes of `bytes` from `at` on.
pub fn get_be(bytes: &[u8], at: usize, width: usize) -> (value: u64)
    requires
        width <= 8,
        at + width <= bytes.len(),
    ensures
        value as nat == be_value(bytes@.subrange(at as int, at + width)),
{
    let mut acc: u64 = 0;
    let mut i: usize = 0;
    assert(bytes@.subrange(at as int, at as int) =~= Seq::<u8>::empty());
    while i < width
        invariant
            i <= width <= 8,
            at + width <= bytes.len(),
            acc as nat == be_value(bytes@.subrange(at as int, at + i)),
        decreases width - i,
    {
        let ghost longer = bytes@.subrange(at as int, at + i + 1);
        proof {
            assert(longer.drop_last() =~= bytes@.subrange(at as int, at + i));
            lemma_be_value_bound(longer);
            lemma_radix_monotonic(longer.len(), 8);
            lemma_radix_values();
        }
        acc = acc * 256 + bytes[at + i] as u64;
        i = i + 1;
    }
    acc
}

/// Big-endian order is little-endian order read backwards.
pub proof fn lemma_be_is_reversed_le(value: nat, width: nat)
    ensures
        be_bytes(value, width) == le_bytes(value, width).reverse(),
    decreases width,
{
    if width == 0 {
        assert(le_bytes(value, width).reverse() =~= Seq::<u8>::empty());
    } else {
        let low = (value % 256) as u8;
        let rest = le_bytes(value / 256, (width - 1) as nat);
        lemma_be_is_reversed_le(value / 256, (width - 1) as nat);
        lemma_le_bytes_len(value / 256, (width - 1) as nat);
        assert((seq![low] + rest).reverse() =~= rest.reverse().push(low));
    }
}

/// The unsigned 32-bit pattern of `x` in two's complement.
pub fn bits_of_i32(x: i32) -> (bits: u32)
    ensures
        bits as nat == i32_bits(x),
{
    let wide: i64 = x as i64;
    if wide < 0 {
        (wide + 0x1_0000_0000) as u32
    } else {
        wide as u32
    }
}

/// The signed value of an unsigned 32-bit pattern in two's complement.
pub fn i32_from_bits(bits: u32) -> (x: i32)
    ensures
        x == i32_of_bits(bits as nat),
{
    if bits >= 0x8000_0000 {
        (bits as i64 - 0x1_0000_0000) as i32
    } else {
        bits as i32
    }
}

} // verus!
