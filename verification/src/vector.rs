use vstd::prelude::*;
use crate::bytes::copy_range;
use crate::container::byte_views;
use crate::error::DecodeError;
use crate::primitive::{
    decode_uint, encode_uint, le_bytes, le_value, lemma_le_bytes_len, lemma_le_value_of_bytes,
    lemma_pow256_eight,
};
use crate::sequence::{
    chunks, concat, concat_parts, decode_fixed_list, decode_fixed_vector, fixed_list_fields,
    fixed_vector_fields, lemma_concat_len, lemma_fixed_list_round_trip, lemma_fixed_vector_round_trip, uniform,
};

verus! {

/// The eight-byte encodings of a sequence of 64-bit numbers.
pub open spec fn u64_parts(items: Seq<u64>) -> Seq<Seq<u8>> {
    Seq::new(items.len(), |i: int| le_bytes(items[i] as nat, 8))
}

/// The numbers that a sequence of byte strings stands for.
pub open spec fn u64_values(parts: Seq<Seq<u8>>) -> Seq<u64> {
    Seq::new(parts.len(), |i: int| le_value(parts[i]) as u64)
}

/// The encoding of a sequence of 64-bit numbers.
pub open spec fn u64_bytes(items: Seq<u64>) -> Seq<u8> {
    concat(u64_parts(items))
}

/// What decoding exactly `n` 64-bit numbers gives.
pub open spec fn u64_vector_decoding(bytes: Seq<u8>, n: nat) -> Result<Seq<u64>, DecodeError> {
    match fixed_vector_fields(bytes, 8, n) {
        Ok(parts) => Ok(u64_values(parts)),
        Err(e) => Err(e),
    }
}

/// What decoding at most `max` 64-bit numbers gives.
pub open spec fn u64_list_decoding(bytes: Seq<u8>, max: nat) -> Result<Seq<u64>, DecodeError> {
    match fixed_list_fields(bytes, 8, max) {
        Ok(parts) => Ok(u64_values(parts)),
        Err(e) => Err(e),
    }
}

/// What decoding exactly `n` bytes gives.
pub open spec fn byte_vector_decoding(bytes: Seq<u8>, n: nat) -> Result<Seq<u8>, DecodeError> {
    if bytes.len() != n {
        Err(DecodeError::LengthMismatch)
    } else {
        Ok(bytes)
    }
}

/// What decoding at most `max` bytes gives.
pub open spec fn byte_list_decoding(bytes: Seq<u8>, max: nat) -> Result<Seq<u8>, DecodeError> {
    if bytes.len() > max {
        Err(DecodeError::InvalidBoundedLength)
    } else {
        Ok(bytes)
    }
}

/// A vector of bytes decodes from its own bytes.
pub proof fn lemma_byte_vector_round_trip(items: Seq<u8>)
    ensures
        byte_vector_decoding(items, items.len()) == Ok::<Seq<u8>, DecodeError>(items),
{
}

/// A list of bytes within its bound decodes from its own bytes, and one
/// over the bound is refused.
pub proof fn lemma_byte_list_round_trip(items: Seq<u8>, max: nat)
    ensures
        items.len() <= max ==> byte_list_decoding(items, max) == Ok::<Seq<u8>, DecodeError>(items),
        items.len() > max ==> byte_list_decoding(items, max) == Err::<Seq<u8>, DecodeError>(
            DecodeError::InvalidBoundedLength,
        ),
{
}

proof fn lemma_u64_parts(items: Seq<u64>)
    ensures
        uniform(u64_parts(items), 8),
        u64_values(u64_parts(items)) == items,
{
    lemma_pow256_eight();
    assert forall|i: int| 0 <= i < items.len() implies (#[trigger] u64_parts(items)[i]).len() == 8
        && le_value(u64_parts(items)[i]) as u64 == items[i] by {
        lemma_le_bytes_len(items[i] as nat, 8);
        lemma_le_value_of_bytes(items[i] as nat, 8);
    }
    assert(u64_values(u64_parts(items)) =~= items);
}

/// The encoding of 64-bit numbers takes eight bytes for each.
pub proof fn lemma_u64_bytes_len(items: Seq<u64>)
    ensures
        u64_bytes(items).len() == 8 * items.len(),
{
    lemma_u64_parts(items);
    lemma_concat_len(u64_parts(items), 8);
}

/// Encoding a vector of 64-bit numbers and decoding the bytes gives the
/// numbers again.
pub proof fn lemma_u64_vector_round_trip(items: Seq<u64>)
    ensures
        u64_vector_decoding(u64_bytes(items), items.len()) == Ok::<Seq<u64>, DecodeError>(items),
{
    lemma_u64_parts(items);
    lemma_fixed_vector_round_trip(u64_parts(items), 8);
}

/// Encoding a list of 64-bit numbers within its bound and decoding the
/// bytes gives the numbers again.
pub proof fn lemma_u64_list_round_trip(items: Seq<u64>, max: nat)
    requires
        items.len() <= max,
    ensures
        u64_list_decoding(u64_bytes(items), max) == Ok::<Seq<u64>, DecodeError>(items),
{
    lemma_u64_parts(items);
    lemma_fixed_list_round_trip(u64_parts(items), 8, max);
}

/// Decoding a list of 64-bit numbers never gives more of them than the
/// bound, and a buffer of more whole elements than the bound is refused
/// for that reason.
pub proof fn lemma_u64_list_bound(bytes: Seq<u8>, max: nat)
    ensures
        u64_list_decoding(bytes, max) matches Ok(items) ==> items.len() <= max,
        bytes.len() % 8 == 0 && bytes.len() / 8 > max ==> u64_list_decoding(bytes, max) == Err::<
            Seq<u64>,
            DecodeError,
        >(DecodeError::InvalidBoundedLength),
{
}

/// Encodes 64-bit numbers, eight bytes each, least significant byte first.
pub fn encode_u64s(items: &Vec<u64>) -> (out: Vec<u8>)
    ensures
        out@ == u64_bytes(items@),
{
    let mut parts: Vec<Vec<u8>> = Vec::new();
    let mut i: usize = 0;
    while i < items.len()
        invariant
            i <= items@.len(),
            parts@.len() == i,
            forall|j: int| 0 <= j < i ==> (#[trigger] parts@[j])@ == le_bytes(items@[j] as nat, 8),
        decreases items@.len() - i,
    {
        proof {
            lemma_pow256_eight();
        }
        parts.push(encode_uint(items[i], 8));
        i += 1;
    }
    assert(byte_views(parts@) =~= u64_parts(items@));
    concat_parts(&parts)
}

fn decode_u64s(parts: &Vec<Vec<u8>>) -> (r: Result<Vec<u64>, DecodeError>)
    requires
        uniform(byte_views(parts@), 8),
    ensures
        r matches Ok(out) && out@ == u64_values(byte_views(parts@)),
{
    let mut out: Vec<u64> = Vec::new();
    let mut i: usize = 0;
    while i < parts.len()
        invariant
            i <= parts@.len(),
            uniform(byte_views(parts@), 8),
            out@.len() == i,
            forall|j: int| 0 <= j < i ==> #[trigger] out@[j] == le_value(parts@[j]@) as u64,
        decreases parts@.len() - i,
    {
        assert(byte_views(parts@)[i as int].len() == 8);
        assert(parts@[i as int]@.subrange(0, 8) =~= parts@[i as int]@);
        let x: u64 = match decode_uint(parts[i].as_slice(), 8) {
            Ok(x) => x,
            Err(e) => {
                return Err(e);
            },
        };
        out.push(x);
        i += 1;
    }
    assert(out@ =~= u64_values(byte_views(parts@)));
    Ok(out)
}

/// A sequence of exactly `N` elements.
#[derive(Clone, Debug, PartialEq, Eq)]
pub struct FixedVector<T, const N: usize> {
    items: Vec<T>,
}

impl<T, const N: usize> View for FixedVector<T, N> {
    type V = Seq<T>;

    closed spec fn view(&self) -> Seq<T> {
        self.items@
    }
}

impl<T, const N: usize> FixedVector<T, N> {
    /// The vector holds exactly `N` elements.
    pub open spec fn wf(&self) -> bool {
        self@.len() == N
    }

    /// Makes a vector of the given elements, which must be `N` in number.
    pub fn new(items: Vec<T>) -> (r: Result<Self, DecodeError>)
        ensures
            items@.len() == N ==> (r matches Ok(v) && v.wf() && v@ == items@),
            items@.len() != N ==> (r matches Err(e) && e == DecodeError::LengthMismatch),
    {
        if items.len() == N {
            Ok(FixedVector { items })
        } else {
            Err(DecodeError::LengthMismatch)
        }
    }

    /// The number of elements.
    pub fn len(&self) -> (r: usize)
        ensures
            r == self@.len(),
    {
        self.items.len()
    }

    /// The elements, in order.
    pub fn as_vec(&self) -> (r: &Vec<T>)
        ensures
            r@ == self@,
    {
        &self.items
    }
}

impl<const N: usize> FixedVector<u8, N> {
    /// A vector of bytes always takes the same number of bytes.
    pub fn is_fixed_size() -> (r: bool)
        ensures
            r,
    {
        true
    }

    /// A vector of bytes always takes `N` bytes.
    pub fn fixed_byte_width() -> (r: usize)
        ensures
            r == N,
    {
        N
    }

    /// The `N` zero bytes.
    pub fn zeroed() -> (r: Self)
        ensures
            r.wf(),
            forall|i: int| 0 <= i < N ==> #[trigger] r@[i] == 0,
    {
        let mut items: Vec<u8> = Vec::new();
        let mut i: usize = 0;
        while i < N
            invariant
                i <= N,
                items@.len() == i,
                forall|t: int| 0 <= t < i ==> #[trigger] items@[t] == 0,
            decreases N - i,
        {
            items.push(0);
            i += 1;
        }
        FixedVector { items }
    }

    /// The bytes themselves are the encoding.
    pub fn encode(&self) -> (out: Vec<u8>)
        ensures
            out@ == self@,
    {
        copy_range(self.items.as_slice(), 0, self.items.len())
    }

    /// Takes a buffer of exactly `N` bytes.
    pub fn decode(bytes: &[u8]) -> (r: Result<Self, DecodeError>)
        ensures
            match r {
                Ok(v) => v.wf() && byte_vector_decoding(bytes@, N as nat) == Ok::<
                    Seq<u8>,
                    DecodeError,
                >(v@),
                Err(e) => byte_vector_decoding(bytes@, N as nat) == Err::<Seq<u8>, DecodeError>(e),
            },
    {
        if bytes.len() != N {
            return Err(DecodeError::LengthMismatch);
        }
        let items: Vec<u8> = copy_range(bytes, 0, bytes.len());
        assert(items@ =~= bytes@);
        Ok(FixedVector { items })
    }
}

impl<const N: usize> FixedVector<u64, N> {
    /// A vector of numbers always takes the same number of bytes.
    pub fn is_fixed_size() -> (r: bool)
        ensures
            r,
    {
        true
    }

    /// A vector of `N` numbers takes `8 * N` bytes.
    pub fn fixed_byte_width() -> (r: usize)
        requires
            8 * N <= usize::MAX,
        ensures
            r == 8 * N,
    {
        8 * N
    }

    /// Encodes the numbers in order, eight bytes each.
    pub fn encode(&self) -> (out: Vec<u8>)
        ensures
            out@ == u64_bytes(self@),
    {
        encode_u64s(&self.items)
    }

    /// Takes a buffer of exactly `8 * N` bytes.
    pub fn decode(bytes: &[u8]) -> (r: Result<Self, DecodeError>)
        ensures
            match r {
                Ok(v) => v.wf() && u64_vector_decoding(bytes@, N as nat) == Ok::<
                    Seq<u64>,
                    DecodeError,
                >(v@),
                Err(e) => u64_vector_decoding(bytes@, N as nat) == Err::<Seq<u64>, DecodeError>(e),
            },
    {
        let parts: Vec<Vec<u8>> = match decode_fixed_vector(bytes, 8, N) {
            Ok(parts) => parts,
            Err(e) => {
                return Err(e);
            },
        };
        match decode_u64s(&parts) {
            Ok(items) => Ok(FixedVector { items }),
            Err(e) => Err(e),
        }
    }
}

impl<const W: usize, const N: usize> FixedVector<FixedVector<u8, W>, N> {
    /// The rows of bytes that the vector holds.
    pub open spec fn rows(&self) -> Seq<Seq<u8>> {
        Seq::new(self@.len(), |i: int| self@[i]@)
    }

    /// There are `N` rows, of `W` bytes each.
    pub open spec fn rows_wf(&self) -> bool {
        self.wf() && forall|i: int| 0 <= i < self@.len() ==> (#[trigger] self@[i]).wf()
    }

    /// Every byte of every row is zero.
    pub open spec fn rows_zero(&self) -> bool {
        forall|i: int, j: int|
            0 <= i < self@.len() && 0 <= j < self@[i]@.len() ==> #[trigger] self@[i]@[j] == 0
    }

    /// Whether there are `N` rows of `W` bytes each.
    pub fn rows_valid(&self) -> (r: bool)
        ensures
            r == self.rows_wf(),
    {
        if self.items.len() != N {
            return false;
        }
        let mut i: usize = 0;
        while i < self.items.len()
            invariant
                i <= self.items@.len(),
                forall|j: int| 0 <= j < i ==> (#[trigger] self.items@[j]).wf(),
            decreases self.items@.len() - i,
        {
            if self.items[i].len() != W {
                return false;
            }
            i += 1;
        }
        true
    }

    /// `N` rows of `W` zero bytes.
    pub fn zeroed_rows() -> (r: Self)
        ensures
            r.rows_wf(),
            r.rows_zero(),
    {
        let mut items: Vec<FixedVector<u8, W>> = Vec::new();
        let mut i: usize = 0;
        while i < N
            invariant
                i <= N,
                items@.len() == i,
                forall|j: int| 0 <= j < i ==> (#[trigger] items@[j]).wf(),
                forall|j: int, k: int|
                    0 <= j < i && 0 <= k < items@[j]@.len() ==> #[trigger] items@[j]@[k] == 0,
            decreases N - i,
        {
            items.push(FixedVector::<u8, W>::zeroed());
            i += 1;
        }
        FixedVector { items }
    }

    /// Writes the rows one after the other.
    pub fn encode_rows(&self) -> (out: Vec<u8>)
        ensures
            out@ == concat(self.rows()),
    {
        let mut parts: Vec<Vec<u8>> = Vec::new();
        let mut i: usize = 0;
        while i < self.items.len()
            invariant
                i <= self.items@.len(),
                parts@.len() == i,
                forall|j: int| 0 <= j < i ==> (#[trigger] parts@[j])@ == self.items@[j]@,
            decreases self.items@.len() - i,
        {
            parts.push(self.items[i].encode());
            i += 1;
        }
        assert(byte_views(parts@) =~= self.rows());
        concat_parts(&parts)
    }

    /// Cuts a buffer of exactly `N * W` bytes into `N` rows.
    pub fn decode_rows(bytes: &[u8]) -> (r: Result<Self, DecodeError>)
        requires
            W > 0,
        ensures
            match r {
                Ok(v) => v.rows_wf() && fixed_vector_fields(bytes@, W as nat, N as nat) == Ok::<
                    Seq<Seq<u8>>,
                    DecodeError,
                >(v.rows()),
                Err(e) => fixed_vector_fields(bytes@, W as nat, N as nat) == Err::<
                    Seq<Seq<u8>>,
                    DecodeError,
                >(e),
            },
    {
        let parts: Vec<Vec<u8>> = match decode_fixed_vector(bytes, W, N) {
            Ok(parts) => parts,
            Err(e) => {
                return Err(e);
            },
        };
        let ghost fields = byte_views(parts@);
        let mut items: Vec<FixedVector<u8, W>> = Vec::new();
        let mut i: usize = 0;
        while i < parts.len()
            invariant
                i <= parts@.len(),
                parts@.len() == N,
                fields == byte_views(parts@),
                uniform(fields, W as nat),
                items@.len() == i,
                forall|j: int| 0 <= j < i ==> (#[trigger] items@[j]).wf() && items@[j]@ == fields[j],
            decreases parts@.len() - i,
        {
            assert(fields[i as int] == parts@[i as int]@);
            assert(fields[i as int].len() == W);
            let row: FixedVector<u8, W> = match FixedVector::<u8, W>::decode(parts[i].as_slice()) {
                Ok(row) => row,
                Err(e) => {
                    return Err(e);
                },
            };
            items.push(row);
            i += 1;
        }
        let v = FixedVector { items };
        assert(v.rows() =~= fields);
        Ok(v)
    }
}

/// A sequence of at most `MAX` elements.
#[derive(Clone, Debug, PartialEq, Eq)]
pub struct VariableList<T, const MAX: usize> {
    items: Vec<T>,
}

impl<T, const MAX: usize> View for VariableList<T, MAX> {
    type V = Seq<T>;

    closed spec fn view(&self) -> Seq<T> {
        self.items@
    }
}

impl<T, const MAX: usize> VariableList<T, MAX> {
    /// The list holds at most `MAX` elements.
    pub open spec fn wf(&self) -> bool {
        self@.len() <= MAX
    }

    /// The empty list.
    pub fn empty() -> (r: Self)
        ensures
            r.wf(),
            r@.len() == 0,
    {
        VariableList { items: Vec::new() }
    }

    /// Makes a list of the given elements, which must be at most `MAX` in
    /// number.
    pub fn new(items: Vec<T>) -> (r: Result<Self, DecodeError>)
        ensures
            items@.len() <= MAX ==> (r matches Ok(v) && v.wf() && v@ == items@),
            items@.len() > MAX ==> (r matches Err(e) && e == DecodeError::InvalidBoundedLength),
    {
        if items.len() <= MAX {
            Ok(VariableList { items })
        } else {
            Err(DecodeError::InvalidBoundedLength)
        }
    }

    /// Appends an element, unless the list is full; a full list stays as it
    /// is.
    pub fn push(&mut self, value: T) -> (r: Result<(), DecodeError>)
        requires
            old(self).wf(),
        ensures
            final(self).wf(),
            old(self)@.len() < MAX ==> r is Ok && final(self)@ == old(self)@.push(value),
            old(self)@.len() >= MAX ==> r == Err::<(), DecodeError>(
                DecodeError::InvalidBoundedLength,
            ) && final(self)@ == old(self)@,
    {
        if self.items.len() < MAX {
            self.items.push(value);
            Ok(())
        } else {
            Err(DecodeError::InvalidBoundedLength)
        }
    }

    /// The number of elements.
    pub fn len(&self) -> (r: usize)
        ensures
            r == self@.len(),
    {
        self.items.len()
    }

    /// The elements, in order.
    pub fn as_vec(&self) -> (r: &Vec<T>)
        ensures
            r@ == self@,
    {
        &self.items
    }
}

impl<const MAX: usize> VariableList<u8, MAX> {
    /// The size of a list's encoding depends on its length.
    pub fn is_fixed_size() -> (r: bool)
        ensures
            !r,
    {
        false
    }

    /// The bytes themselves are the encoding.
    pub fn encode(&self) -> (out: Vec<u8>)
        ensures
            out@ == self@,
    {
        copy_range(self.items.as_slice(), 0, self.items.len())
    }

    /// Takes a buffer of at most `MAX` bytes.
    pub fn decode(bytes: &[u8]) -> (r: Result<Self, DecodeError>)
        ensures
            match r {
                Ok(v) => v.wf() && byte_list_decoding(bytes@, MAX as nat) == Ok::<
                    Seq<u8>,
                    DecodeError,
                >(v@),
                Err(e) => byte_list_decoding(bytes@, MAX as nat) == Err::<Seq<u8>, DecodeError>(e),
            },
    {
        if bytes.len() > MAX {
            return Err(DecodeError::InvalidBoundedLength);
        }
        let items: Vec<u8> = copy_range(bytes, 0, bytes.len());
        assert(items@ =~= bytes@);
        Ok(VariableList { items })
    }
}

impl<const MAX: usize> VariableList<u64, MAX> {
    /// The size of a list's encoding depends on its length.
    pub fn is_fixed_size() -> (r: bool)
        ensures
            !r,
    {
        false
    }

    /// Encodes the numbers in order, eight bytes each.
    pub fn encode(&self) -> (out: Vec<u8>)
        ensures
            out@ == u64_bytes(self@),
    {
        encode_u64s(&self.items)
    }

    /// Takes a buffer of a whole number of eight-byte elements, at most
    /// `MAX` of them.
    pub fn decode(bytes: &[u8]) -> (r: Result<Self, DecodeError>)
        ensures
            match r {
                Ok(v) => v.wf() && u64_list_decoding(bytes@, MAX as nat) == Ok::<
                    Seq<u64>,
                    DecodeError,
                >(v@),
                Err(e) => u64_list_decoding(bytes@, MAX as nat) == Err::<Seq<u64>, DecodeError>(e),
            },
    {
        let parts: Vec<Vec<u8>> = match decode_fixed_list(bytes, 8, MAX) {
            Ok(parts) => parts,
            Err(e) => {
                return Err(e);
            },
        };
        match decode_u64s(&parts) {
            Ok(items) => Ok(VariableList { items }),
            Err(e) => Err(e),
        }
    }
}

} // verus!
