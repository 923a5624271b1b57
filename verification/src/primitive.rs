use vstd::prelude::*;
use crate::error::DecodeError;

verus! {

/// 256 raised to the power `width`: the number of values that `width` bytes hold.
pub open spec fn pow256(width: nat) -> nat
    decreases width,
{
    if width == 0 {
        1
    } else {
        256 * pow256((width - 1) as nat)
    }
}

/// The little-endian layout of `value` in `width` bytes: the least
/// significant byte comes first.
pub open spec fn le_bytes(value: nat, width: nat) -> Seq<u8>
    decreases width,
{
    if width == 0 {
        Seq::empty()
    } else {
        seq![(value % 256) as u8] + le_bytes(value / 256, (width - 1) as nat)
    }
}

/// The number that a little-endian byte string stands for.
pub open spec fn le_value(bytes: Seq<u8>) -> nat
    decreases bytes.len(),
{
    if bytes.len() == 0 {
        0
    } else {
        bytes[0] as nat + 256 * le_value(bytes.skip(1))
    }
}

/// The widths, in bytes, of the unsigned integers that the format knows.
pub open spec fn valid_width(width: nat) -> bool {
    width == 1 || width == 2 || width == 4 || width == 8
}

/// A little-endian layout has exactly the width asked for.
pub proof fn lemma_le_bytes_len(value: nat, width: nat)
    ensures
        le_bytes(value, width).len() == width,
    decreases width,
{
    if width > 0 {
        lemma_le_bytes_len(value / 256, (width - 1) as nat);
    }
}

/// A byte string of length `n` stands for a number below `256^n`.
pub proof fn lemma_le_value_bound(bytes: Seq<u8>)
    ensures
        le_value(bytes) < pow256(bytes.len()),
    decreases bytes.len(),
{
    if bytes.len() > 0 {
        lemma_le_value_bound(bytes.skip(1));
    }
}

/// Reading back the little-endian layout of a number that fits the width
/// gives the number again.
pub proof fn lemma_le_value_of_bytes(value: nat, width: nat)
    requires
        value < pow256(width),
    ensures
        le_value(le_bytes(value, width)) == value,
    decreases width,
{
    if width > 0 {
        let rest = le_bytes(value / 256, (width - 1) as nat);
        lemma_le_value_of_bytes(value / 256, (width - 1) as nat);
        lemma_le_bytes_len(value / 256, (width - 1) as nat);
        assert(le_bytes(value, width).skip(1) =~= rest);
    }
}

/// Laying out the number that a byte string stands for, in as many bytes,
/// gives the byte string again.
pub proof fn lemma_le_bytes_of_value(bytes: Seq<u8>)
    ensures
        le_bytes(le_value(bytes), bytes.len()) == bytes,
    decreases bytes.len(),
{
    if bytes.len() > 0 {
        lemma_le_bytes_of_value(bytes.skip(1));
        assert(le_bytes(le_value(bytes), bytes.len()) =~= bytes);
    }
}

proof fn lemma_pow256_values()
    ensures
        pow256(0) == 1,
        pow256(1) == 0x100,
        pow256(2) == 0x1_0000,
        pow256(3) == 0x100_0000,
        pow256(4) == 0x1_0000_0000,
        pow256(8) == 0x1_0000_0000_0000_0000,
{
    reveal_with_fuel(pow256, 10);
}

/// What the 4-byte bound on an offset means as a number.
pub proof fn lemma_pow256_four()
    ensures
        pow256(4) == 0x1_0000_0000,
{
    lemma_pow256_values();
}

/// Every 64-bit number fits eight bytes.
pub proof fn lemma_pow256_eight()
    ensures
        pow256(8) == 0x1_0000_0000_0000_0000,
{
    lemma_pow256_values();
}

/// Encodes `value` as an unsigned integer of `width` bytes, least
/// significant byte first.
pub fn encode_uint(value: u64, width: usize) -> (out: Vec<u8>)
    requires
        valid_width(width as nat),
        (value as nat) < pow256(width as nat),
    ensures
        out@ == le_bytes(value as nat, width as nat),
        out@.len() == width,
{
    let mut out: Vec<u8> = Vec::new();
    let mut rest: u64 = value;
    let mut i: usize = 0;
    while i < width
        invariant
            i <= width,
            out@ + le_bytes(rest as nat, (width - i) as nat) == le_bytes(value as nat, width as nat),
        decreases width - i,
    {
        let low: u8 = (rest % 256) as u8;
        proof {
            let tail = le_bytes((rest / 256) as nat, (width - i - 1) as nat);
            assert(out@.push(low) + tail =~= out@ + (seq![low] + tail));
        }
        out.push(low);
        rest = rest / 256;
        i += 1;
    }
    proof {
        assert(out@ + Seq::<u8>::empty() =~= out@);
        lemma_le_bytes_len(value as nat, width as nat);
    }
    out
}

/// Decodes an unsigned integer of `width` bytes from the front of `bytes`.
/// Fails when fewer than `width` bytes are there.
pub fn decode_uint(bytes: &[u8], width: usize) -> (r: Result<u64, DecodeError>)
    requires
        valid_width(width as nat),
    ensures
        bytes@.len() < width ==> r == Err::<u64, DecodeError>(DecodeError::LengthMismatch),
        bytes@.len() >= width ==> r == Ok::<u64, DecodeError>(
            le_value(bytes@.subrange(0, width as int)) as u64,
        ),
        bytes@.len() >= width ==> le_value(bytes@.subrange(0, width as int)) < pow256(width as nat),
{
    if bytes.len() < width {
        return Err(DecodeError::LengthMismatch);
    }
    let ghost field = bytes@.subrange(0, width as int);
    let mut acc: u64 = 0;
    let mut i: usize = width;
    while i > 0
        invariant
            i <= width <= bytes@.len(),
            width <= 8,
            field == bytes@.subrange(0, width as int),
            acc as nat == le_value(field.skip(i as int)),
            (acc as nat) < pow256((width - i) as nat),
        decreases i,
    {
        proof {
            lemma_pow256_values();
            reveal_with_fuel(pow256, 10);
            assert(pow256((width - i) as nat) <= 0x100_0000_0000_0000);
            assert(field.skip(i as int - 1).skip(1) =~= field.skip(i as int));
            lemma_le_value_bound(field.skip(i as int - 1));
        }
        i -= 1;
        acc = acc * 256 + bytes[i] as u64;
    }
    proof {
        assert(field.skip(0) =~= field);
        lemma_le_value_bound(field);
    }
    Ok(acc)
}

/// Encoding an integer and decoding the bytes at the same width gives the
/// integer again.
pub proof fn lemma_uint_round_trip(value: u64, width: nat)
    requires
        (value as nat) < pow256(width),
    ensures
        le_bytes(value as nat, width).len() == width,
        le_value(le_bytes(value as nat, width).subrange(0, width as int)) as u64 == value,
{
    lemma_le_bytes_len(value as nat, width);
    lemma_le_value_of_bytes(value as nat, width);
    assert(le_bytes(value as nat, width).subrange(0, width as int) =~= le_bytes(value as nat, width));
}

} // verus!
