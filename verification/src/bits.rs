use vstd::prelude::*;
use crate::bitpack::{
    bit_value, byte_bit, clear_from, lemma_byte_is_sum_of_bits, lemma_stored_bit_of_packed,
    lemma_zero_byte, pack, pack_bits, packed_byte, packed_len, read_bit, stored_bit, unpack,
    unpack_bits,
};
use crate::error::DecodeError;

verus! {

/// What decoding a bit vector of `n` bits gives.
pub open spec fn bit_vector_decoding(bytes: Seq<u8>, n: nat) -> Result<Seq<bool>, DecodeError> {
    if bytes.len() != packed_len(n) {
        Err(DecodeError::LengthMismatch)
    } else if !clear_from(bytes, n as int) {
        Err(DecodeError::InvalidPadding)
    } else {
        Ok(unpack_bits(bytes, n))
    }
}

/// Bit `d` is the highest set bit of the buffer.
pub open spec fn is_delimiter(bytes: Seq<u8>, d: int) -> bool {
    0 <= d < 8 * bytes.len() && stored_bit(bytes, d) && clear_from(bytes, d + 1)
}

/// What decoding a bit list of at most `max` bits gives: the position of the
/// highest set bit is the list's length, and that bit must lie in the last
/// byte.
pub open spec fn bit_list_decoding(bytes: Seq<u8>, max: nat) -> Result<Seq<bool>, DecodeError> {
    if clear_from(bytes, 0) {
        Err(DecodeError::MissingDelimiter)
    } else {
        let d = choose|d: int| is_delimiter(bytes, d);
        if d / 8 + 1 != bytes.len() {
            Err(DecodeError::ExtraBitsAfterDelimiter)
        } else if d > max {
            Err(DecodeError::InvalidBoundedLength)
        } else {
            Ok(unpack_bits(bytes, d as nat))
        }
    }
}

/// A buffer has at most one highest set bit.
pub proof fn lemma_delimiter_unique(bytes: Seq<u8>, d: int, e: int)
    requires
        is_delimiter(bytes, d),
        is_delimiter(bytes, e),
    ensures
        d == e,
{
    if d < e {
        assert(!stored_bit(bytes, e));
    } else if e < d {
        assert(!stored_bit(bytes, d));
    }
}

/// Packing a bit vector and decoding the bytes gives the bits again.
#[verifier::rlimit(80)]
#[verifier::spinoff_prover]
pub proof fn lemma_bit_vector_round_trip(bits: Seq<bool>)
    ensures
        bit_vector_decoding(pack_bits(bits), bits.len()) == Ok::<Seq<bool>, DecodeError>(bits),
{
    let enc = pack_bits(bits);
    assert forall|k: int| bits.len() <= k < 8 * enc.len() implies !#[trigger] stored_bit(
        enc,
        k,
    ) by {
        lemma_stored_bit_of_packed(bits, k);
    }
    assert forall|k: int| 0 <= k < bits.len() implies #[trigger] stored_bit(enc, k) == bits[k] by {
        lemma_stored_bit_of_packed(bits, k);
    }
    assert(unpack_bits(enc, bits.len()) =~= bits);
}

/// Packing a bit list with its delimiter and decoding the bytes gives the
/// bits again, as long as they are within the bound.
#[verifier::rlimit(80)]
#[verifier::spinoff_prover]
pub proof fn lemma_bit_list_round_trip(bits: Seq<bool>, max: nat)
    requires
        bits.len() <= max,
    ensures
        bit_list_decoding(pack_bits(bits.push(true)), max) == Ok::<Seq<bool>, DecodeError>(bits),
{
    let n = bits.len() as int;
    let marked = bits.push(true);
    let enc = pack_bits(marked);
    assert(enc.len() == n / 8 + 1);
    assert(is_delimiter(enc, n)) by {
        assert forall|k: int| n + 1 <= k < 8 * enc.len() implies !#[trigger] stored_bit(
            enc,
            k,
        ) by {
            lemma_stored_bit_of_packed(marked, k);
        }
        lemma_stored_bit_of_packed(marked, n);
    }
    assert(unpack_bits(enc, n as nat) == bits) by {
        assert forall|k: int| 0 <= k < n implies #[trigger] stored_bit(enc, k) == bits[k] by {
            lemma_stored_bit_of_packed(marked, k);
        }
        assert(unpack_bits(enc, n as nat) =~= bits);
    }
    assert(!clear_from(enc, 0));
    let d = choose|d: int| is_delimiter(enc, d);
    lemma_delimiter_unique(enc, d, n);
}

/// What is wrong with a buffer as a bit vector of `n` bits, if anything.
pub open spec fn bit_vector_fault(bytes: Seq<u8>, n: nat) -> Option<DecodeError> {
    match bit_vector_decoding(bytes, n) {
        Err(e) => Some(e),
        Ok(_) => None,
    }
}

proof fn lemma_unpacked_bit(bytes: Seq<u8>, n: nat, i: int, j: int)
    requires
        bytes.len() == packed_len(n),
        clear_from(bytes, n as int),
        0 <= i < bytes.len(),
        0 <= j < 8,
    ensures
        bit_value(unpack_bits(bytes, n), 8 * i + j) == (if byte_bit(bytes[i], j) {
            1nat
        } else {
            0nat
        }),
{
    let k = 8 * i + j;
    assert(k / 8 == i && k % 8 == j);
    if k >= n {
        assert(!stored_bit(bytes, k));
    }
}

/// A bit vector has one encoding only: a buffer that decodes is the packed
/// form of the bits it decodes to.
pub proof fn lemma_pack_of_unpacked(bytes: Seq<u8>, n: nat)
    requires
        bytes.len() == packed_len(n),
        clear_from(bytes, n as int),
    ensures
        pack_bits(unpack_bits(bytes, n)) == bytes,
{
    let bits = unpack_bits(bytes, n);
    assert forall|i: int| 0 <= i < bytes.len() implies packed_byte(bits, i) == bytes[i] by {
        lemma_byte_is_sum_of_bits(bytes[i]);
        lemma_unpacked_bit(bytes, n, i, 0);
        lemma_unpacked_bit(bytes, n, i, 1);
        lemma_unpacked_bit(bytes, n, i, 2);
        lemma_unpacked_bit(bytes, n, i, 3);
        lemma_unpacked_bit(bytes, n, i, 4);
        lemma_unpacked_bit(bytes, n, i, 5);
        lemma_unpacked_bit(bytes, n, i, 6);
        lemma_unpacked_bit(bytes, n, i, 7);
    }
    assert(pack_bits(bits) =~= bytes);
}

/// A list longer than the bound is never what decoding gives.
pub proof fn lemma_bit_list_bound(bytes: Seq<u8>, max: nat)
    ensures
        bit_list_decoding(bytes, max) matches Ok(bits) ==> bits.len() <= max,
{
}

/// A fixed number `N` of bits.
#[derive(Clone, Debug, PartialEq, Eq)]
pub struct BitVector<const N: usize> {
    bits: Vec<bool>,
}

impl<const N: usize> View for BitVector<N> {
    type V = Seq<bool>;

    closed spec fn view(&self) -> Seq<bool> {
        self.bits@
    }
}

impl<const N: usize> BitVector<N> {
    /// The vector holds exactly `N` bits.
    pub open spec fn wf(&self) -> bool {
        self@.len() == N
    }

    /// The vector of `N` zero bits.
    pub fn new() -> (r: Self)
        ensures
            r.wf(),
            forall|i: int| 0 <= i < N ==> !#[trigger] r@[i],
    {
        let mut bits: Vec<bool> = Vec::new();
        let mut i: usize = 0;
        while i < N
            invariant
                i <= N,
                bits@.len() == i,
                forall|t: int| 0 <= t < i ==> !#[trigger] bits@[t],
            decreases N - i,
        {
            bits.push(false);
            i += 1;
        }
        BitVector { bits }
    }

    /// Makes a vector of the given bits, which must be `N` in number.
    pub fn from_bits(bits: Vec<bool>) -> (r: Result<Self, DecodeError>)
        ensures
            bits@.len() == N ==> (r matches Ok(v) && v.wf() && v@ == bits@),
            bits@.len() != N ==> (r matches Err(e) && e == DecodeError::LengthMismatch),
    {
        if bits.len() == N {
            Ok(BitVector { bits })
        } else {
            Err(DecodeError::LengthMismatch)
        }
    }

    /// The bits, in order.
    pub fn as_bits(&self) -> (r: &Vec<bool>)
        ensures
            r@ == self@,
    {
        &self.bits
    }

    /// The number of bits.
    pub fn len(&self) -> (r: usize)
        ensures
            r == self@.len(),
    {
        self.bits.len()
    }

    /// Bit `i`, if there is one.
    pub fn get(&self, i: usize) -> (r: Option<bool>)
        ensures
            r == if i < self@.len() { Some(self@[i as int]) } else { None },
    {
        if i < self.bits.len() {
            Some(self.bits[i])
        } else {
            None
        }
    }

    /// A bit vector always takes the same number of bytes.
    pub fn is_fixed_size() -> (r: bool)
        ensures
            r,
    {
        true
    }

    /// The number of bytes that the encoding takes.
    pub fn fixed_byte_width() -> (r: usize)
        ensures
            r == packed_len(N as nat),
    {
        N / 8 + if N % 8 != 0 { 1usize } else { 0usize }
    }

    /// Packs the bits into bytes, bit 0 in the lowest place of the first byte.
    pub fn encode(&self) -> (out: Vec<u8>)
        ensures
            out@ == pack_bits(self@),
    {
        pack(&self.bits)
    }

    /// Unpacks `N` bits from a buffer of exactly the right length whose
    /// unused bits are zero.
    #[verifier::rlimit(50)]
    pub fn decode(bytes: &[u8]) -> (r: Result<Self, DecodeError>)
        ensures
            match r {
                Ok(v) => v.wf() && bit_vector_decoding(bytes@, N as nat) == Ok::<
                    Seq<bool>,
                    DecodeError,
                >(v@),
                Err(e) => bit_vector_decoding(bytes@, N as nat) == Err::<Seq<bool>, DecodeError>(e),
            },
    {
        let len: usize = bytes.len();
        if len != Self::fixed_byte_width() {
            return Err(DecodeError::LengthMismatch);
        }
        let used: usize = N % 8;
        if used != 0 {
            let last: u8 = bytes[len - 1];
            let mut j: usize = used;
            while j < 8
                invariant
                    used <= j <= 8,
                    used == N % 8,
                    used != 0,
                    len == bytes@.len(),
                    len == packed_len(N as nat),
                    last == bytes@[len - 1],
                    forall|t: int| used <= t < j ==> !#[trigger] byte_bit(last, t),
                decreases 8 - j,
            {
                if read_bit(last, j) {
                    proof {
                        let k: int = 8 * (len - 1) + j;
                        assert(k / 8 == len - 1 && k % 8 == j);
                        assert(stored_bit(bytes@, k));
                    }
                    return Err(DecodeError::InvalidPadding);
                }
                j += 1;
            }
            assert forall|k: int| N <= k < 8 * len implies !#[trigger] stored_bit(bytes@, k) by {
                assert(k / 8 == len - 1);
                assert(!byte_bit(last, k % 8));
            }
        }
        let bits: Vec<bool> = unpack(bytes, N);
        Ok(BitVector { bits })
    }
}

/// At most `MAX` bits, in order.
#[derive(Clone, Debug, PartialEq, Eq)]
pub struct BitList<const MAX: usize> {
    bits: Vec<bool>,
}

impl<const MAX: usize> View for BitList<MAX> {
    type V = Seq<bool>;

    closed spec fn view(&self) -> Seq<bool> {
        self.bits@
    }
}

fn last_nonzero(bytes: &[u8]) -> (r: Option<usize>)
    ensures
        match r {
            Some(t) => t < bytes@.len() && bytes@[t as int] != 0 && forall|i: int|
                t < i < bytes@.len() ==> #[trigger] bytes@[i] == 0,
            None => forall|i: int| 0 <= i < bytes@.len() ==> #[trigger] bytes@[i] == 0,
        },
{
    let mut t: usize = bytes.len();
    while t > 0
        invariant
            t <= bytes@.len(),
            forall|i: int| t <= i < bytes@.len() ==> #[trigger] bytes@[i] == 0,
        decreases t,
    {
        t -= 1;
        if bytes[t] != 0 {
            return Some(t);
        }
    }
    None
}

fn top_bit(b: u8) -> (j: usize)
    requires
        b != 0,
    ensures
        j < 8,
        byte_bit(b, j as int),
        forall|i: int| j < i < 8 ==> !#[trigger] byte_bit(b, i),
{
    let mut j: usize = 8;
    while j > 0
        invariant
            j <= 8,
            forall|i: int| j <= i < 8 ==> !#[trigger] byte_bit(b, i),
        decreases j,
    {
        j -= 1;
        if read_bit(b, j) {
            return j;
        }
    }
    proof {
        lemma_zero_byte(b);
    }
    0
}

impl<const MAX: usize> BitList<MAX> {
    /// The list holds at most `MAX` bits.
    pub open spec fn wf(&self) -> bool {
        self@.len() <= MAX
    }

    /// The empty list.
    pub fn new() -> (r: Self)
        ensures
            r.wf(),
            r@.len() == 0,
    {
        BitList { bits: Vec::new() }
    }

    /// Makes a list of the given bits, which must be at most `MAX` in number.
    pub fn from_bits(bits: Vec<bool>) -> (r: Result<Self, DecodeError>)
        ensures
            bits@.len() <= MAX ==> (r matches Ok(v) && v.wf() && v@ == bits@),
            bits@.len() > MAX ==> (r matches Err(e) && e == DecodeError::InvalidBoundedLength),
    {
        if bits.len() <= MAX {
            Ok(BitList { bits })
        } else {
            Err(DecodeError::InvalidBoundedLength)
        }
    }

    /// The bits, in order.
    pub fn as_bits(&self) -> (r: &Vec<bool>)
        ensures
            r@ == self@,
    {
        &self.bits
    }

    /// The number of bits.
    pub fn len(&self) -> (r: usize)
        ensures
            r == self@.len(),
    {
        self.bits.len()
    }

    /// Bit `i`, if there is one.
    pub fn get(&self, i: usize) -> (r: Option<bool>)
        ensures
            r == if i < self@.len() { Some(self@[i as int]) } else { None },
    {
        if i < self.bits.len() {
            Some(self.bits[i])
        } else {
            None
        }
    }

    /// The size of a bit list's encoding depends on its length.
    pub fn is_fixed_size() -> (r: bool)
        ensures
            !r,
    {
        false
    }

    /// Packs the bits, followed by one set bit that marks the end.
    pub fn encode(&self) -> (out: Vec<u8>)
        ensures
            out@ == pack_bits(self@.push(true)),
    {
        let mut marked: Vec<bool> = Vec::new();
        let mut i: usize = 0;
        while i < self.bits.len()
            invariant
                i <= self.bits@.len(),
                marked@ == self.bits@.subrange(0, i as int),
            decreases self.bits@.len() - i,
        {
            marked.push(self.bits[i]);
            i += 1;
            assert(marked@ =~= self.bits@.subrange(0, i as int));
        }
        assert(self.bits@.subrange(0, i as int) =~= self.bits@);
        marked.push(true);
        pack(&marked)
    }

    /// Finds the highest set bit, which marks the end, and unpacks the bits
    /// below it.
    #[verifier::rlimit(50)]
    pub fn decode(bytes: &[u8]) -> (r: Result<Self, DecodeError>)
        ensures
            match r {
                Ok(v) => v.wf() && bit_list_decoding(bytes@, MAX as nat) == Ok::<
                    Seq<bool>,
                    DecodeError,
                >(v@),
                Err(e) => bit_list_decoding(bytes@, MAX as nat) == Err::<Seq<bool>, DecodeError>(e),
            },
    {
        let len: usize = bytes.len();
        let t: usize = match last_nonzero(bytes) {
            Some(t) => t,
            None => {
                proof {
                    assert forall|k: int| 0 <= k < 8 * len implies !#[trigger] stored_bit(
                        bytes@,
                        k,
                    ) by {
                        lemma_zero_byte(bytes@[k / 8]);
                    }
                }
                return Err(DecodeError::MissingDelimiter);
            },
        };
        let j: usize = top_bit(bytes[t]);
        proof {
            let d: int = 8 * t + j;
            assert(d / 8 == t && d % 8 == j);
            assert forall|k: int| d + 1 <= k < 8 * len implies !#[trigger] stored_bit(bytes@, k) by {
                if k / 8 == t {
                    assert(!byte_bit(bytes@[t as int], k % 8));
                } else {
                    lemma_zero_byte(bytes@[k / 8]);
                }
            }
            assert(stored_bit(bytes@, d));
            assert(is_delimiter(bytes@, d));
            let c = choose|c: int| is_delimiter(bytes@, c);
            lemma_delimiter_unique(bytes@, c, d);
        }
        if t + 1 != len {
            return Err(DecodeError::ExtraBitsAfterDelimiter);
        }
        if t > MAX / 8 || (t == MAX / 8 && j > MAX % 8) {
            return Err(DecodeError::InvalidBoundedLength);
        }
        let d: usize = 8 * t + j;
        let bits: Vec<bool> = unpack(bytes, d);
        Ok(BitList { bits })
    }
}

} // verus!
