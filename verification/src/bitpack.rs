use vstd::prelude::*;

verus! {

/// Bit `k` of a bit sequence as a number; positions past the end count as
/// zero.
pub open spec fn bit_value(bits: Seq<bool>, k: int) -> nat {
    if 0 <= k < bits.len() && bits[k] {
        1
    } else {
        0
    }
}

/// Byte `i` of the packed form: bit `8 * i` of the sequence is the least
/// significant bit of the byte.
pub open spec fn packed_byte(bits: Seq<bool>, i: int) -> nat {
    bit_value(bits, 8 * i) + 2 * bit_value(bits, 8 * i + 1) + 4 * bit_value(bits, 8 * i + 2) + 8
        * bit_value(bits, 8 * i + 3) + 16 * bit_value(bits, 8 * i + 4) + 32 * bit_value(
        bits,
        8 * i + 5,
    ) + 64 * bit_value(bits, 8 * i + 6) + 128 * bit_value(bits, 8 * i + 7)
}

/// The number of bytes that `n` bits take.
pub open spec fn packed_len(n: nat) -> nat {
    (n + 7) / 8
}

/// The packed form of a bit sequence; the unused high bits of the last byte
/// are zero.
pub open spec fn pack_bits(bits: Seq<bool>) -> Seq<u8> {
    Seq::new(packed_len(bits.len()), |i: int| packed_byte(bits, i) as u8)
}

/// The weight of bit `j` of a byte.
pub open spec fn bit_weight(j: int) -> int {
    if j == 0 {
        1
    } else if j == 1 {
        2
    } else if j == 2 {
        4
    } else if j == 3 {
        8
    } else if j == 4 {
        16
    } else if j == 5 {
        32
    } else if j == 6 {
        64
    } else {
        128
    }
}

/// Whether bit `j` of a byte is set, bit 0 being the least significant.
pub open spec fn byte_bit(b: u8, j: int) -> bool {
    (b as int / bit_weight(j)) % 2 == 1
}

/// Whether bit `k` of a packed buffer is set.
pub open spec fn stored_bit(bytes: Seq<u8>, k: int) -> bool {
    byte_bit(bytes[k / 8], k % 8)
}

/// The first `n` bits of a packed buffer.
pub open spec fn unpack_bits(bytes: Seq<u8>, n: nat) -> Seq<bool> {
    Seq::new(n, |k: int| stored_bit(bytes, k))
}

/// Every bit of the buffer from position `n` on is zero.
pub open spec fn clear_from(bytes: Seq<u8>, n: int) -> bool {
    forall|k: int| n <= k < 8 * bytes.len() ==> !#[trigger] stored_bit(bytes, k)
}

/// A packed byte fits a byte, and its bit `j` is bit `8 * i + j` of the
/// sequence.
pub proof fn lemma_packed_byte_bit(bits: Seq<bool>, i: int, j: int)
    requires
        0 <= j < 8,
    ensures
        packed_byte(bits, i) < 256,
        byte_bit(packed_byte(bits, i) as u8, j) == (bit_value(bits, 8 * i + j) == 1),
{
    let x0 = bit_value(bits, 8 * i);
    let x1 = bit_value(bits, 8 * i + 1);
    let x2 = bit_value(bits, 8 * i + 2);
    let x3 = bit_value(bits, 8 * i + 3);
    let x4 = bit_value(bits, 8 * i + 4);
    let x5 = bit_value(bits, 8 * i + 5);
    let x6 = bit_value(bits, 8 * i + 6);
    let x7 = bit_value(bits, 8 * i + 7);
    let v: int = (x0 + 2 * x1 + 4 * x2 + 8 * x3 + 16 * x4 + 32 * x5 + 64 * x6 + 128 * x7) as int;
    assert(packed_byte(bits, i) == v);
    assert(v / 1 == x0 + 2 * (x1 + 2 * x2 + 4 * x3 + 8 * x4 + 16 * x5 + 32 * x6 + 64 * x7));
    assert(v / 2 == x1 + 2 * (x2 + 2 * x3 + 4 * x4 + 8 * x5 + 16 * x6 + 32 * x7));
    assert(v / 4 == x2 + 2 * (x3 + 2 * x4 + 4 * x5 + 8 * x6 + 16 * x7));
    assert(v / 8 == x3 + 2 * (x4 + 2 * x5 + 4 * x6 + 8 * x7));
    assert(v / 16 == x4 + 2 * (x5 + 2 * x6 + 4 * x7));
    assert(v / 32 == x5 + 2 * (x6 + 2 * x7));
    assert(v / 64 == x6 + 2 * x7);
    assert(v / 128 == x7);
}

/// Bit `k` of the packed form of a sequence is bit `k` of the sequence, and
/// zero past its end.
pub proof fn lemma_stored_bit_of_packed(bits: Seq<bool>, k: int)
    requires
        0 <= k < 8 * packed_len(bits.len()),
    ensures
        stored_bit(pack_bits(bits), k) == (k < bits.len() && bits[k]),
{
    lemma_packed_byte_bit(bits, k / 8, k % 8);
}

/// A byte is the sum of its bits' weights.
pub proof fn lemma_byte_is_sum_of_bits(b: u8)
    ensures
        b as int == (if byte_bit(b, 0) { 1int } else { 0 }) + (if byte_bit(b, 1) { 2int } else { 0 })
            + (if byte_bit(b, 2) { 4int } else { 0 }) + (if byte_bit(b, 3) { 8int } else { 0 }) + (
        if byte_bit(b, 4) { 16int } else { 0 }) + (if byte_bit(b, 5) { 32int } else { 0 }) + (
        if byte_bit(b, 6) { 64int } else { 0 }) + (if byte_bit(b, 7) { 128int } else { 0 }),
{
    let v: int = b as int;
    assert(v / 1 == v);
    assert(v == 2 * (v / 2) + v % 2);
    assert(v / 2 == 2 * (v / 4) + (v / 2) % 2);
    assert(v / 4 == 2 * (v / 8) + (v / 4) % 2);
    assert(v / 8 == 2 * (v / 16) + (v / 8) % 2);
    assert(v / 16 == 2 * (v / 32) + (v / 16) % 2);
    assert(v / 32 == 2 * (v / 64) + (v / 32) % 2);
    assert(v / 64 == 2 * (v / 128) + (v / 64) % 2);
    assert(v / 128 == (v / 128) % 2);
}

/// A byte is zero exactly when none of its bits is set.
pub proof fn lemma_zero_byte(b: u8)
    ensures
        b == 0 <==> forall|j: int| 0 <= j < 8 ==> !#[trigger] byte_bit(b, j),
{
    lemma_byte_is_sum_of_bits(b);
    if b == 0 {
        assert forall|j: int| 0 <= j < 8 implies !#[trigger] byte_bit(b, j) by {}
    } else if forall|j: int| 0 <= j < 8 ==> !#[trigger] byte_bit(b, j) {
        assert(!byte_bit(b, 0) && !byte_bit(b, 1) && !byte_bit(b, 2) && !byte_bit(b, 3));
        assert(!byte_bit(b, 4) && !byte_bit(b, 5) && !byte_bit(b, 6) && !byte_bit(b, 7));
    }
}

/// Reads bit `j` of a byte.
pub fn read_bit(b: u8, j: usize) -> (r: bool)
    requires
        j < 8,
    ensures
        r == byte_bit(b, j as int),
{
    let w: u8 = if j == 0 {
        1
    } else if j == 1 {
        2
    } else if j == 2 {
        4
    } else if j == 3 {
        8
    } else if j == 4 {
        16
    } else if j == 5 {
        32
    } else if j == 6 {
        64
    } else {
        128
    };
    (b / w) % 2 == 1
}

fn bit_number(bits: &Vec<bool>, base: usize, j: usize) -> (r: u8)
    requires
        base < bits@.len(),
        j < 8,
    ensures
        r == bit_value(bits@, base + j),
{
    if j < bits.len() - base && bits[base + j] {
        1
    } else {
        0
    }
}

/// Packs a bit sequence into bytes, least significant bit first.
pub fn pack(bits: &Vec<bool>) -> (out: Vec<u8>)
    ensures
        out@ == pack_bits(bits@),
{
    let n: usize = bits.len();
    let count: usize = n / 8 + if n % 8 != 0 { 1usize } else { 0usize };
    let mut out: Vec<u8> = Vec::new();
    let mut i: usize = 0;
    while i < count
        invariant
            n == bits@.len(),
            count == packed_len(n as nat),
            i <= count,
            out@.len() == i,
            forall|t: int| 0 <= t < i ==> #[trigger] out@[t] == packed_byte(bits@, t) as u8,
        decreases count - i,
    {
        let base: usize = 8 * i;
        let b: u8 = bit_number(bits, base, 0) + 2 * bit_number(bits, base, 1) + 4 * bit_number(
            bits,
            base,
            2,
        ) + 8 * bit_number(bits, base, 3) + 16 * bit_number(bits, base, 4) + 32 * bit_number(
            bits,
            base,
            5,
        ) + 64 * bit_number(bits, base, 6) + 128 * bit_number(bits, base, 7);
        out.push(b);
        i += 1;
    }
    assert(out@ =~= pack_bits(bits@));
    out
}

/// Unpacks the first `n` bits of a buffer that holds at least as many.
pub fn unpack(bytes: &[u8], n: usize) -> (bits: Vec<bool>)
    requires
        n <= 8 * bytes@.len(),
    ensures
        bits@ == unpack_bits(bytes@, n as nat),
{
    let mut bits: Vec<bool> = Vec::new();
    let mut k: usize = 0;
    while k < n
        invariant
            k <= n <= 8 * bytes@.len(),
            bits@.len() == k,
            forall|t: int| 0 <= t < k ==> #[trigger] bits@[t] == stored_bit(bytes@, t),
        decreases n - k,
    {
        bits.push(read_bit(bytes[k / 8], k % 8));
        k += 1;
    }
    assert(bits@ =~= unpack_bits(bytes@, n as nat));
    bits
}

} // verus!
