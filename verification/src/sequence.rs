use vstd::prelude::*;
use crate::bytes::{append_bytes, copy_range};
use crate::container::{
    byte_views, container_bytes, container_fields, decode_container, encode_container, fixed_len,
    fixed_len_upto, var_len_upto, FieldKind,
};
use crate::container_proofs::{lemma_container_round_trip, lemma_encoded_offset, lemma_fixed_region_len};
use crate::error::DecodeError;
use crate::offset::{read_offset, MAX_OFFSET};
use crate::primitive::{le_value, lemma_le_value_bound, lemma_pow256_four, pow256};

verus! {

/// The byte strings of a sequence, one after the other.
pub open spec fn concat(items: Seq<Seq<u8>>) -> Seq<u8>
    decreases items.len(),
{
    if items.len() == 0 {
        Seq::empty()
    } else {
        concat(items.drop_last()) + items.last()
    }
}

/// Every item has `size` bytes.
pub open spec fn uniform(items: Seq<Seq<u8>>, size: nat) -> bool {
    forall|i: int| 0 <= i < items.len() ==> (#[trigger] items[i]).len() == size
}

/// Chunk `i` of a buffer cut into pieces of `size` bytes.
pub open spec fn chunk(bytes: Seq<u8>, size: nat, i: int) -> Seq<u8> {
    bytes.subrange(i * size, i * size + size)
}

/// The first `count` chunks of `size` bytes.
pub open spec fn chunks(bytes: Seq<u8>, size: nat, count: nat) -> Seq<Seq<u8>> {
    Seq::new(count, |i: int| chunk(bytes, size, i))
}

/// What decoding a sequence of exactly `n` elements of `size` bytes gives.
pub open spec fn fixed_vector_fields(bytes: Seq<u8>, size: nat, n: nat) -> Result<
    Seq<Seq<u8>>,
    DecodeError,
> {
    if bytes.len() % size != 0 || bytes.len() / size != n {
        Err(DecodeError::LengthMismatch)
    } else {
        Ok(chunks(bytes, size, n))
    }
}

/// What is wrong with a buffer as a sequence of exactly `n` elements of
/// `size` bytes, if anything.
pub open spec fn fixed_vector_fault(bytes: Seq<u8>, size: nat, n: nat) -> Option<DecodeError> {
    match fixed_vector_fields(bytes, size, n) {
        Err(e) => Some(e),
        Ok(_) => None,
    }
}

/// What decoding a list of at most `max` elements of `size` bytes gives.
pub open spec fn fixed_list_fields(bytes: Seq<u8>, size: nat, max: nat) -> Result<
    Seq<Seq<u8>>,
    DecodeError,
> {
    if bytes.len() % size != 0 {
        Err(DecodeError::LengthMismatch)
    } else if bytes.len() / size > max {
        Err(DecodeError::InvalidBoundedLength)
    } else {
        Ok(chunks(bytes, size, (bytes.len() / size) as nat))
    }
}

/// The layout of a list of `n` variable-size elements: one offset slot each.
pub open spec fn variable_layout(n: nat) -> Seq<FieldKind> {
    Seq::new(n, |i: int| FieldKind::Variable)
}

/// The encoding of a list of variable-size elements: an offset for each,
/// then their bytes.
pub open spec fn variable_list_bytes(items: Seq<Seq<u8>>) -> Seq<u8> {
    container_bytes(variable_layout(items.len()), items)
}

/// What decoding a list of at most `max` variable-size elements gives. The
/// first offset is where the offsets end, so a quarter of it is the number
/// of elements.
pub open spec fn variable_list_fields(bytes: Seq<u8>, max: nat) -> Result<
    Seq<Seq<u8>>,
    DecodeError,
> {
    if bytes.len() == 0 {
        Ok(Seq::empty())
    } else if bytes.len() < 4 {
        Err(DecodeError::LengthMismatch)
    } else {
        let first = le_value(bytes.subrange(0, 4));
        if first > bytes.len() {
            Err(DecodeError::OffsetOutOfBounds)
        } else if first == 0 || first % 4 != 0 {
            Err(DecodeError::LengthMismatch)
        } else if first / 4 > max {
            Err(DecodeError::InvalidBoundedLength)
        } else {
            container_fields(variable_layout(first / 4), bytes)
        }
    }
}

/// `count` items of `size` bytes take `count * size` bytes together.
pub proof fn lemma_concat_len(items: Seq<Seq<u8>>, size: nat)
    requires
        uniform(items, size),
    ensures
        concat(items).len() == items.len() * size,
    decreases items.len(),
{
    if items.len() > 0 {
        lemma_concat_len(items.drop_last(), size);
        assert((items.len() - 1) * size + size == items.len() * size) by (nonlinear_arith);
    } else {
        assert(0 * size == 0) by (nonlinear_arith);
    }
}

/// Item `i` of a concatenation of items of `size` bytes is its chunk `i`.
pub proof fn lemma_chunk_of_concat(items: Seq<Seq<u8>>, size: nat, i: int)
    requires
        uniform(items, size),
        0 <= i < items.len(),
    ensures
        chunk(concat(items), size, i) == items[i],
    decreases items.len(),
{
    let front = items.drop_last();
    lemma_concat_len(front, size);
    let n = items.len() as int;
    if i == n - 1 {
        assert((concat(front) + items.last()).subrange(i * size, i * size + size) =~= items.last());
    } else {
        lemma_chunk_of_concat(front, size, i);
        assert(i * size + size <= (n - 1) * size) by (nonlinear_arith)
            requires
                0 <= i < n - 1,
        ;
        assert(0 <= i * size) by (nonlinear_arith)
            requires
                0 <= i,
        ;
        assert((concat(front) + items.last()).subrange(i * size, i * size + size) =~= concat(
            front,
        ).subrange(i * size, i * size + size));
    }
}

/// The first `k` chunks of a buffer, one after the other, are its first
/// `k * size` bytes.
pub proof fn lemma_concat_of_chunks(bytes: Seq<u8>, size: nat, k: nat)
    requires
        k * size <= bytes.len(),
    ensures
        concat(chunks(bytes, size, k)) == bytes.subrange(0, (k * size) as int),
    decreases k,
{
    if k == 0 {
        assert(0 * size == 0) by (nonlinear_arith);
        assert(bytes.subrange(0, 0) =~= Seq::<u8>::empty());
    } else {
        let j = (k - 1) as nat;
        assert(j * size + size == k * size && 0 <= j * size) by (nonlinear_arith)
            requires
                j == k - 1,
        ;
        lemma_concat_of_chunks(bytes, size, j);
        assert(chunks(bytes, size, k).drop_last() =~= chunks(bytes, size, j));
        assert(chunks(bytes, size, k).last() == bytes.subrange(
            (j * size) as int,
            (j * size + size) as int,
        ));
        assert(bytes.subrange(0, (j * size) as int) + bytes.subrange(
            (j * size) as int,
            (j * size + size) as int,
        ) =~= bytes.subrange(0, (k * size) as int));
    }
}

proof fn lemma_multiple(n: nat, size: nat)
    requires
        size > 0,
    ensures
        (n * size) % size == 0,
        (n * size) / size == n,
{
    vstd::arithmetic::div_mod::lemma_fundamental_div_mod_converse(
        (n * size) as int,
        size as int,
        n as int,
        0,
    );
    assert(size * n == n * size) by (nonlinear_arith);
}

/// Concatenating exactly `n` elements and decoding the bytes as a vector
/// of `n` gives the elements again.
pub proof fn lemma_fixed_vector_round_trip(items: Seq<Seq<u8>>, size: nat)
    requires
        size > 0,
        uniform(items, size),
    ensures
        fixed_vector_fields(concat(items), size, items.len()) == Ok::<Seq<Seq<u8>>, DecodeError>(
            items,
        ),
{
    lemma_concat_len(items, size);
    lemma_multiple(items.len(), size);
    assert forall|i: int| 0 <= i < items.len() implies chunk(concat(items), size, i)
        == items[i] by {
        lemma_chunk_of_concat(items, size, i);
    }
    assert(chunks(concat(items), size, items.len()) =~= items);
}

/// Concatenating at most `max` elements and decoding the bytes as a list
/// gives the elements again.
pub proof fn lemma_fixed_list_round_trip(items: Seq<Seq<u8>>, size: nat, max: nat)
    requires
        size > 0,
        uniform(items, size),
        items.len() <= max,
    ensures
        fixed_list_fields(concat(items), size, max) == Ok::<Seq<Seq<u8>>, DecodeError>(items),
{
    lemma_fixed_vector_round_trip(items, size);
    lemma_concat_len(items, size);
    lemma_multiple(items.len(), size);
}

/// Decoding a list never gives more elements than the bound.
pub proof fn lemma_fixed_list_bound(bytes: Seq<u8>, size: nat, max: nat)
    requires
        size > 0,
    ensures
        fixed_list_fields(bytes, size, max) matches Ok(items) ==> items.len() <= max,
{
}

/// Decoding a list of variable-size elements never gives more elements
/// than the bound.
pub proof fn lemma_variable_list_bound(bytes: Seq<u8>, max: nat)
    ensures
        variable_list_fields(bytes, max) matches Ok(items) ==> items.len() <= max,
{
}

/// The offset slots of `n` variable-size elements take `4 * n` bytes.
pub proof fn lemma_variable_layout_len(n: nat, k: nat)
    requires
        k <= n,
    ensures
        fixed_len_upto(variable_layout(n), k) == 4 * k,
    decreases k,
{
    if k > 0 {
        lemma_variable_layout_len(n, (k - 1) as nat);
    }
}

/// Encoding at most `max` variable-size elements and decoding the bytes
/// gives the elements again.
pub proof fn lemma_variable_list_round_trip(items: Seq<Seq<u8>>, max: nat)
    requires
        items.len() <= max,
        4 * items.len() + var_len_upto(variable_layout(items.len()), items, items.len()) < pow256(
            4,
        ),
    ensures
        variable_list_fields(variable_list_bytes(items), max) == Ok::<Seq<Seq<u8>>, DecodeError>(
            items,
        ),
{
    let n = items.len();
    let layout = variable_layout(n);
    let bytes = variable_list_bytes(items);
    lemma_variable_layout_len(n, n);
    lemma_variable_layout_len(n, 0);
    lemma_fixed_region_len(layout, items, fixed_len(layout), n);
    if n == 0 {
        assert(bytes =~= Seq::<u8>::empty());
        assert(items =~= Seq::<Seq<u8>>::empty());
    } else {
        lemma_encoded_offset(layout, items, 0);
        lemma_container_round_trip(layout, items);
    }
}

/// Writes the elements' encodings one after the other.
pub fn concat_parts(items: &Vec<Vec<u8>>) -> (out: Vec<u8>)
    ensures
        out@ == concat(byte_views(items@)),
{
    let ghost views = byte_views(items@);
    let mut out: Vec<u8> = Vec::new();
    let mut i: usize = 0;
    while i < items.len()
        invariant
            i <= items@.len(),
            views == byte_views(items@),
            out@ == concat(views.take(i as int)),
        decreases items@.len() - i,
    {
        proof {
            assert(views.take(i + 1).drop_last() =~= views.take(i as int));
        }
        append_bytes(&mut out, items[i].as_slice());
        i += 1;
    }
    assert(views.take(i as int) =~= views);
    out
}

fn split_chunks(bytes: &[u8], size: usize, count: usize) -> (parts: Vec<Vec<u8>>)
    requires
        size > 0,
        bytes@.len() == count * size,
    ensures
        byte_views(parts@) == chunks(bytes@, size as nat, count as nat),
        parts@.len() == count,
        uniform(byte_views(parts@), size as nat),
{
    let len: usize = bytes.len();
    let mut parts: Vec<Vec<u8>> = Vec::new();
    let mut pos: usize = 0;
    let mut i: usize = 0;
    while i < count
        invariant
            i <= count,
            size > 0,
            len == bytes@.len(),
            bytes@.len() == count * size,
            pos == i * size,
            parts@.len() == i,
            forall|j: int| 0 <= j < i ==> (#[trigger] parts@[j])@ == chunk(bytes@, size as nat, j),
            forall|j: int| 0 <= j < i ==> (#[trigger] parts@[j])@.len() == size,
        decreases count - i,
    {
        assert((i + 1) * size <= count * size && (i + 1) * size == i * size + size)
            by (nonlinear_arith)
            requires
                i < count,
        ;
        let part: Vec<u8> = copy_range(bytes, pos, pos + size);
        parts.push(part);
        pos += size;
        i += 1;
    }
    assert(byte_views(parts@) =~= chunks(bytes@, size as nat, count as nat));
    assert forall|j: int| 0 <= j < count implies (#[trigger] byte_views(parts@)[j]).len()
        == size by {
        assert(parts@[j]@.len() == size);
    }
    parts
}

/// Cuts the encoding of exactly `n` elements of `size` bytes into the
/// elements' encodings.
pub fn decode_fixed_vector(bytes: &[u8], size: usize, n: usize) -> (r: Result<
    Vec<Vec<u8>>,
    DecodeError,
>)
    requires
        size > 0,
    ensures
        match r {
            Ok(parts) => fixed_vector_fields(bytes@, size as nat, n as nat) == Ok::<
                Seq<Seq<u8>>,
                DecodeError,
            >(byte_views(parts@)),
            Err(e) => fixed_vector_fields(bytes@, size as nat, n as nat) == Err::<
                Seq<Seq<u8>>,
                DecodeError,
            >(e),
        },
        r matches Ok(parts) ==> parts@.len() == n && uniform(byte_views(parts@), size as nat),
{
    let len: usize = bytes.len();
    if len % size != 0 || len / size != n {
        return Err(DecodeError::LengthMismatch);
    }
    proof {
        vstd::arithmetic::div_mod::lemma_fundamental_div_mod(len as int, size as int);
        assert(size * n == n * size) by (nonlinear_arith);
    }
    Ok(split_chunks(bytes, size, n))
}

/// Cuts the encoding of a list of at most `max` elements of `size` bytes
/// into the elements' encodings. The bound is checked before anything is
/// copied.
pub fn decode_fixed_list(bytes: &[u8], size: usize, max: usize) -> (r: Result<
    Vec<Vec<u8>>,
    DecodeError,
>)
    requires
        size > 0,
    ensures
        match r {
            Ok(parts) => fixed_list_fields(bytes@, size as nat, max as nat) == Ok::<
                Seq<Seq<u8>>,
                DecodeError,
            >(byte_views(parts@)),
            Err(e) => fixed_list_fields(bytes@, size as nat, max as nat) == Err::<
                Seq<Seq<u8>>,
                DecodeError,
            >(e),
        },
        r matches Ok(parts) ==> parts@.len() <= max && uniform(byte_views(parts@), size as nat),
{
    let len: usize = bytes.len();
    if len % size != 0 {
        return Err(DecodeError::LengthMismatch);
    }
    let count: usize = len / size;
    if count > max {
        return Err(DecodeError::InvalidBoundedLength);
    }
    proof {
        vstd::arithmetic::div_mod::lemma_fundamental_div_mod(len as int, size as int);
        assert(size * count == count * size) by (nonlinear_arith);
    }
    Ok(split_chunks(bytes, size, count))
}

fn variable_fields(n: usize) -> (layout: Vec<FieldKind>)
    ensures
        layout@ == variable_layout(n as nat),
{
    let mut layout: Vec<FieldKind> = Vec::new();
    let mut i: usize = 0;
    while i < n
        invariant
            i <= n,
            layout@ == variable_layout(i as nat),
        decreases n - i,
    {
        layout.push(FieldKind::Variable);
        i += 1;
        assert(layout@ =~= variable_layout(i as nat));
    }
    layout
}

/// Encodes a list of variable-size elements from the elements' encodings.
pub fn encode_variable_list(items: &Vec<Vec<u8>>) -> (out: Vec<u8>)
    requires
        4 * items@.len() + var_len_upto(
            variable_layout(items@.len()),
            byte_views(items@),
            items@.len(),
        ) <= MAX_OFFSET,
    ensures
        out@ == variable_list_bytes(byte_views(items@)),
{
    let layout: Vec<FieldKind> = variable_fields(items.len());
    proof {
        lemma_variable_layout_len(items@.len(), items@.len());
    }
    encode_container(&layout, items)
}

/// Splits the encoding of a list of at most `max` variable-size elements
/// into the elements' encodings. The bound is checked before anything is
/// allocated.
pub fn decode_variable_list(bytes: &[u8], max: usize) -> (r: Result<Vec<Vec<u8>>, DecodeError>)
    ensures
        match r {
            Ok(parts) => variable_list_fields(bytes@, max as nat) == Ok::<
                Seq<Seq<u8>>,
                DecodeError,
            >(byte_views(parts@)),
            Err(e) => variable_list_fields(bytes@, max as nat) == Err::<Seq<Seq<u8>>, DecodeError>(
                e,
            ),
        },
{
    let len: usize = bytes.len();
    if len == 0 {
        let parts: Vec<Vec<u8>> = Vec::new();
        assert(byte_views(parts@) =~= Seq::<Seq<u8>>::empty());
        return Ok(parts);
    }
    let first: usize = match read_offset(bytes) {
        Some(o) => o,
        None => {
            return Err(DecodeError::LengthMismatch);
        },
    };
    proof {
        lemma_le_value_bound(bytes@.subrange(0, 4));
        lemma_pow256_four();
    }
    if first > len {
        return Err(DecodeError::OffsetOutOfBounds);
    }
    if first == 0 || first % 4 != 0 {
        return Err(DecodeError::LengthMismatch);
    }
    let count: usize = first / 4;
    if count > max {
        return Err(DecodeError::InvalidBoundedLength);
    }
    let layout: Vec<FieldKind> = variable_fields(count);
    decode_container(&layout, bytes)
}

} // verus!
