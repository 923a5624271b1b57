use vstd::prelude::*;
use vstd::slice::slice_subrange;
use crate::bytes::{append_bytes, copy_range};
use crate::error::DecodeError;
use crate::offset::{offset_bytes, read_offset, MAX_OFFSET};
use crate::primitive::{le_bytes, le_value, lemma_le_value_bound, lemma_pow256_four};

verus! {

/// How a field of a container is classified: by a byte width that no value
/// changes, or as variable in size.
#[derive(Clone, Copy, Debug, PartialEq, Eq, Structural)]
pub enum FieldKind {
    Fixed(usize),
    Variable,
}

/// The bytes that a field takes in the fixed region: its own width, or the
/// four bytes of an offset slot.
pub open spec fn slot_len(kind: FieldKind) -> nat {
    match kind {
        FieldKind::Fixed(w) => w as nat,
        FieldKind::Variable => 4,
    }
}

/// The length of the fixed region that the first `k` fields take.
pub open spec fn fixed_len_upto(layout: Seq<FieldKind>, k: nat) -> nat
    decreases k,
{
    if k == 0 {
        0
    } else {
        fixed_len_upto(layout, (k - 1) as nat) + slot_len(layout[k - 1])
    }
}

/// The length of the whole fixed region of a container.
pub open spec fn fixed_len(layout: Seq<FieldKind>) -> nat {
    fixed_len_upto(layout, layout.len())
}

/// The views of a vector of byte vectors.
pub open spec fn byte_views(parts: Seq<Vec<u8>>) -> Seq<Seq<u8>> {
    Seq::new(parts.len(), |i: int| parts[i]@)
}

/// There is one part for each field, and each fixed field's part has the
/// field's width.
pub open spec fn parts_fit(layout: Seq<FieldKind>, parts: Seq<Seq<u8>>) -> bool {
    &&& parts.len() == layout.len()
    &&& forall|i: int|
        0 <= i < layout.len() ==> (#[trigger] layout[i] matches FieldKind::Fixed(w) ==> parts[i].len()
            == w)
}

/// The bytes that the variable fields among the first `k` take together.
pub open spec fn var_len_upto(layout: Seq<FieldKind>, parts: Seq<Seq<u8>>, k: nat) -> nat
    decreases k,
{
    if k == 0 {
        0
    } else {
        var_len_upto(layout, parts, (k - 1) as nat) + match layout[k - 1] {
            FieldKind::Fixed(_) => 0,
            FieldKind::Variable => parts[k - 1].len(),
        }
    }
}

/// What field `i` leaves in the fixed region: its bytes, or the offset at
/// which its bytes start, which is `base` plus what the variable fields
/// before it take.
pub open spec fn slot_bytes(layout: Seq<FieldKind>, parts: Seq<Seq<u8>>, base: nat, i: int) -> Seq<
    u8,
> {
    match layout[i] {
        FieldKind::Fixed(_) => parts[i],
        FieldKind::Variable => le_bytes(base + var_len_upto(layout, parts, i as nat), 4),
    }
}

/// The fixed region as the first `k` fields leave it.
pub open spec fn fixed_region_upto(
    layout: Seq<FieldKind>,
    parts: Seq<Seq<u8>>,
    base: nat,
    k: nat,
) -> Seq<u8>
    decreases k,
{
    if k == 0 {
        Seq::empty()
    } else {
        fixed_region_upto(layout, parts, base, (k - 1) as nat) + slot_bytes(
            layout,
            parts,
            base,
            k - 1,
        )
    }
}

/// The variable region as the first `k` fields leave it.
pub open spec fn var_region_upto(layout: Seq<FieldKind>, parts: Seq<Seq<u8>>, k: nat) -> Seq<u8>
    decreases k,
{
    if k == 0 {
        Seq::empty()
    } else {
        var_region_upto(layout, parts, (k - 1) as nat) + match layout[k - 1] {
            FieldKind::Fixed(_) => Seq::empty(),
            FieldKind::Variable => parts[k - 1],
        }
    }
}

/// The encoding of a container: the fixed region, in which every variable
/// field has an offset slot, and then the variable fields' bytes in order.
pub open spec fn container_bytes(layout: Seq<FieldKind>, parts: Seq<Seq<u8>>) -> Seq<u8> {
    fixed_region_upto(layout, parts, fixed_len(layout), layout.len()) + var_region_upto(
        layout,
        parts,
        layout.len(),
    )
}

/// Where the slot of field `i` starts in the fixed region.
pub open spec fn slot_pos(layout: Seq<FieldKind>, i: int) -> nat {
    fixed_len_upto(layout, i as nat)
}

/// The offset that the slot of field `i` holds.
pub open spec fn slot_offset(layout: Seq<FieldKind>, bytes: Seq<u8>, i: int) -> nat {
    le_value(bytes.subrange(slot_pos(layout, i) as int, (slot_pos(layout, i) + 4) as int))
}

/// The offset of the last variable field among the first `k`, if there is one.
pub open spec fn last_offset(layout: Seq<FieldKind>, bytes: Seq<u8>, k: nat) -> Option<nat>
    decreases k,
{
    if k == 0 {
        None
    } else {
        match layout[k - 1] {
            FieldKind::Variable => Some(slot_offset(layout, bytes, k - 1)),
            FieldKind::Fixed(_) => last_offset(layout, bytes, (k - 1) as nat),
        }
    }
}

/// What is wrong with the offset of the variable field `i`, if anything: it
/// points past the buffer; or it is the first and differs from the fixed
/// region's length, or is smaller than the offset before it.
pub open spec fn offset_fault(layout: Seq<FieldKind>, bytes: Seq<u8>, i: int) -> Option<
    DecodeError,
> {
    let off = slot_offset(layout, bytes, i);
    if off > bytes.len() {
        Some(DecodeError::OffsetOutOfBounds)
    } else if match last_offset(layout, bytes, i as nat) {
        None => off != fixed_len(layout),
        Some(p) => off < p,
    } {
        Some(DecodeError::OffsetNotIncreasing)
    } else {
        None
    }
}

/// The fault of the first faulty offset among the first `k` fields.
pub open spec fn first_fault(layout: Seq<FieldKind>, bytes: Seq<u8>, k: nat) -> Option<DecodeError>
    decreases k,
{
    if k == 0 {
        None
    } else if first_fault(layout, bytes, (k - 1) as nat) is Some {
        first_fault(layout, bytes, (k - 1) as nat)
    } else {
        match layout[k - 1] {
            FieldKind::Variable => offset_fault(layout, bytes, k - 1),
            FieldKind::Fixed(_) => None,
        }
    }
}

/// Where the variable bytes of the fields from `j` on start: the offset of
/// the first variable field among them, or the buffer's end.
pub open spec fn next_start(layout: Seq<FieldKind>, bytes: Seq<u8>, j: nat) -> nat
    decreases layout.len() - j,
{
    if j >= layout.len() {
        bytes.len()
    } else {
        match layout[j as int] {
            FieldKind::Variable => slot_offset(layout, bytes, j as int),
            FieldKind::Fixed(_) => next_start(layout, bytes, j + 1),
        }
    }
}

/// Where the bytes of field `i` start: at its slot for a fixed field, at its
/// offset for a variable one.
pub open spec fn field_start(layout: Seq<FieldKind>, bytes: Seq<u8>, i: int) -> nat {
    match layout[i] {
        FieldKind::Fixed(_) => slot_pos(layout, i),
        FieldKind::Variable => slot_offset(layout, bytes, i),
    }
}

/// Where the bytes of field `i` end: a fixed field's after its width, a
/// variable field's where the next variable field starts.
pub open spec fn field_end(layout: Seq<FieldKind>, bytes: Seq<u8>, i: int) -> nat {
    match layout[i] {
        FieldKind::Fixed(w) => slot_pos(layout, i) + w as nat,
        FieldKind::Variable => next_start(layout, bytes, (i + 1) as nat),
    }
}

/// The bytes of field `i` in an encoded container.
pub open spec fn field_bytes(layout: Seq<FieldKind>, bytes: Seq<u8>, i: int) -> Seq<u8> {
    bytes.subrange(field_start(layout, bytes, i) as int, field_end(layout, bytes, i) as int)
}

/// Some field of the container is variable in size.
pub open spec fn has_variable(layout: Seq<FieldKind>) -> bool {
    exists|i: int| 0 <= i < layout.len() && #[trigger] layout[i] is Variable
}

/// What decoding a container gives: the bytes of each field, or the reason
/// why the buffer is refused. A container without variable fields has
/// exactly the length of its fixed region.
pub open spec fn container_fields(layout: Seq<FieldKind>, bytes: Seq<u8>) -> Result<
    Seq<Seq<u8>>,
    DecodeError,
> {
    if bytes.len() < fixed_len(layout) || (!has_variable(layout) && bytes.len() != fixed_len(
        layout,
    )) {
        Err(DecodeError::LengthMismatch)
    } else {
        match first_fault(layout, bytes, layout.len()) {
            Some(e) => Err(e),
            None => Ok(Seq::new(layout.len(), |i: int| field_bytes(layout, bytes, i))),
        }
    }
}

/// The fixed region grows with the number of fields.
pub proof fn lemma_fixed_len_mono(layout: Seq<FieldKind>, i: nat, j: nat)
    requires
        i <= j,
    ensures
        fixed_len_upto(layout, i) <= fixed_len_upto(layout, j),
    decreases j,
{
    if i < j {
        lemma_fixed_len_mono(layout, i, (j - 1) as nat);
    }
}

/// The variable region grows with the number of fields.
pub proof fn lemma_var_len_mono(layout: Seq<FieldKind>, parts: Seq<Seq<u8>>, i: nat, j: nat)
    requires
        i <= j,
    ensures
        var_len_upto(layout, parts, i) <= var_len_upto(layout, parts, j),
    decreases j,
{
    if i < j {
        lemma_var_len_mono(layout, parts, i, (j - 1) as nat);
    }
}

/// A fault among the first `i` fields is the fault of every longer prefix.
pub proof fn lemma_fault_persists(layout: Seq<FieldKind>, bytes: Seq<u8>, i: nat, j: nat)
    requires
        i <= j,
        first_fault(layout, bytes, i) is Some,
    ensures
        first_fault(layout, bytes, j) == first_fault(layout, bytes, i),
    decreases j,
{
    if i < j {
        lemma_fault_persists(layout, bytes, i, (j - 1) as nat);
    }
}

/// The length of a container's fixed region, where it fits the machine's
/// word.
pub fn fixed_region_len(layout: &Vec<FieldKind>) -> (r: Option<usize>)
    ensures
        match r {
            Some(f) => f == fixed_len(layout@),
            None => fixed_len(layout@) > usize::MAX,
        },
{
    let mut total: usize = 0;
    let mut i: usize = 0;
    while i < layout.len()
        invariant
            i <= layout@.len(),
            total == fixed_len_upto(layout@, i as nat),
        decreases layout@.len() - i,
    {
        let w: usize = match layout[i] {
            FieldKind::Fixed(w) => w,
            FieldKind::Variable => 4,
        };
        proof {
            lemma_fixed_len_mono(layout@, (i + 1) as nat, layout@.len());
        }
        if w > usize::MAX - total {
            return None;
        }
        total += w;
        i += 1;
    }
    Some(total)
}

/// Encodes a container from the encodings of its fields, in declared order.
#[verifier::rlimit(50)]
pub fn encode_container(layout: &Vec<FieldKind>, parts: &Vec<Vec<u8>>) -> (out: Vec<u8>)
    requires
        parts_fit(layout@, byte_views(parts@)),
        fixed_len(layout@) + var_len_upto(layout@, byte_views(parts@), layout@.len())
            <= MAX_OFFSET,
    ensures
        out@ == container_bytes(layout@, byte_views(parts@)),
{
    let ghost pv = byte_views(parts@);
    let n: usize = layout.len();
    let base: usize = match fixed_region_len(layout) {
        Some(f) => f,
        None => 0,
    };
    let mut fixed: Vec<u8> = Vec::new();
    let mut var: Vec<u8> = Vec::new();
    let mut i: usize = 0;
    while i < n
        invariant
            i <= n == layout@.len(),
            pv == byte_views(parts@),
            parts_fit(layout@, pv),
            base == fixed_len(layout@),
            base + var_len_upto(layout@, pv, n as nat) <= MAX_OFFSET,
            fixed@ == fixed_region_upto(layout@, pv, base as nat, i as nat),
            var@ == var_region_upto(layout@, pv, i as nat),
            var@.len() == var_len_upto(layout@, pv, i as nat),
        decreases n - i,
    {
        proof {
            lemma_var_len_mono(layout@, pv, i as nat, n as nat);
            lemma_var_len_mono(layout@, pv, (i + 1) as nat, n as nat);
        }
        match layout[i] {
            FieldKind::Fixed(_) => {
                append_bytes(&mut fixed, parts[i].as_slice());
                assert(var@ + Seq::<u8>::empty() =~= var@);
            },
            FieldKind::Variable => {
                let slot: Vec<u8> = offset_bytes(base + var.len());
                append_bytes(&mut fixed, slot.as_slice());
                append_bytes(&mut var, parts[i].as_slice());
            },
        }
        i += 1;
    }
    append_bytes(&mut fixed, var.as_slice());
    fixed
}

/// Splits an encoded container into the bytes of its fields, in declared
/// order, after checking every offset.
#[verifier::rlimit(50)]
pub fn decode_container(layout: &Vec<FieldKind>, bytes: &[u8]) -> (r: Result<
    Vec<Vec<u8>>,
    DecodeError,
>)
    ensures
        match r {
            Ok(parts) => container_fields(layout@, bytes@) == Ok::<Seq<Seq<u8>>, DecodeError>(
                byte_views(parts@),
            ),
            Err(e) => container_fields(layout@, bytes@) == Err::<Seq<Seq<u8>>, DecodeError>(e),
        },
        r matches Ok(parts) ==> parts_fit(layout@, byte_views(parts@)),
{
    let n: usize = layout.len();
    let len: usize = bytes.len();
    let total: usize = match fixed_region_len(layout) {
        Some(f) => f,
        None => {
            return Err(DecodeError::LengthMismatch);
        },
    };
    if len < total {
        return Err(DecodeError::LengthMismatch);
    }
    let mut starts: Vec<usize> = Vec::new();
    let mut ends: Vec<usize> = Vec::new();
    let mut pos: usize = 0;
    let mut prev: Option<usize> = None;
    let mut i: usize = 0;
    while i < n
        invariant
            i <= n == layout@.len(),
            len == bytes@.len(),
            total == fixed_len(layout@),
            total <= len,
            pos == slot_pos(layout@, i as int),
            starts@.len() == i,
            ends@.len() == i,
            first_fault(layout@, bytes@, i as nat) is None,
            match prev {
                Some(p) => last_offset(layout@, bytes@, i as nat) == Some(p as nat),
                None => last_offset(layout@, bytes@, i as nat) is None,
            },
            forall|j: int| 0 <= j < i ==> #[trigger] starts@[j] == field_start(layout@, bytes@, j),
            forall|j: int| 0 <= j < i && layout@[j] is Variable ==> #[trigger] starts@[j] <= len,
            prev is None ==> forall|j: int| 0 <= j < i ==> #[trigger] layout@[j] is Fixed,
            prev is Some ==> has_variable(layout@),
            forall|j: int|
                0 <= j < i && layout@[j] is Variable && prev is Some ==> #[trigger] starts@[j]
                    <= prev->Some_0,
            forall|j: int, k: int|
                0 <= j < k < i && layout@[j] is Variable && layout@[k] is Variable
                    ==> #[trigger] starts@[j] <= #[trigger] starts@[k],
        decreases n - i,
    {
        proof {
            lemma_fixed_len_mono(layout@, (i + 1) as nat, n as nat);
        }
        match layout[i] {
            FieldKind::Fixed(w) => {
                starts.push(pos);
                pos += w;
            },
            FieldKind::Variable => {
                assert(layout@[i as int] is Variable);
                let slot: &[u8] = slice_subrange(bytes, pos, pos + 4);
                let off: usize = match read_offset(slot) {
                    Some(o) => o,
                    None => {
                        return Err(DecodeError::LengthMismatch);
                    },
                };
                proof {
                    assert(slot@.subrange(0, 4) =~= slot@);
                    lemma_le_value_bound(slot@);
                    lemma_pow256_four();
                }
                if off > len {
                    proof {
                        lemma_fault_persists(layout@, bytes@, (i + 1) as nat, n as nat);
                    }
                    return Err(DecodeError::OffsetOutOfBounds);
                }
                let ordered: bool = match prev {
                    None => off == total,
                    Some(p) => off >= p,
                };
                if !ordered {
                    proof {
                        lemma_fault_persists(layout@, bytes@, (i + 1) as nat, n as nat);
                    }
                    return Err(DecodeError::OffsetNotIncreasing);
                }
                starts.push(off);
                prev = Some(off);
                pos += 4;
            },
        }
        ends.push(0);
        i += 1;
    }
    if prev.is_none() && len != total {
        return Err(DecodeError::LengthMismatch);
    }
    let mut end: usize = len;
    let mut k: usize = n;
    while k > 0
        invariant
            k <= n == layout@.len(),
            len == bytes@.len(),
            fixed_len(layout@) <= len,
            starts@.len() == n,
            ends@.len() == n,
            end == next_start(layout@, bytes@, k as nat),
            end <= len,
            forall|j: int| 0 <= j < n ==> #[trigger] starts@[j] == field_start(layout@, bytes@, j),
            forall|j: int| 0 <= j < k && layout@[j] is Variable ==> #[trigger] starts@[j] <= end,
            forall|j: int, k: int|
                0 <= j < k < n && layout@[j] is Variable && layout@[k] is Variable
                    ==> #[trigger] starts@[j] <= #[trigger] starts@[k],
            forall|j: int|
                k <= j < n ==> #[trigger] ends@[j] == field_end(layout@, bytes@, j) && starts@[j]
                    <= ends@[j] <= len,
        decreases k,
    {
        k -= 1;
        proof {
            lemma_fixed_len_mono(layout@, (k + 1) as nat, n as nat);
        }
        match layout[k] {
            FieldKind::Fixed(w) => {
                ends.set(k, starts[k] + w);
            },
            FieldKind::Variable => {
                ends.set(k, end);
                end = starts[k];
            },
        }
    }
    let mut parts: Vec<Vec<u8>> = Vec::new();
    let mut m: usize = 0;
    while m < n
        invariant
            m <= n == layout@.len(),
            len == bytes@.len(),
            starts@.len() == n,
            ends@.len() == n,
            parts@.len() == m,
            forall|j: int| 0 <= j < n ==> #[trigger] starts@[j] == field_start(layout@, bytes@, j),
            forall|j: int|
                0 <= j < n ==> #[trigger] ends@[j] == field_end(layout@, bytes@, j) && starts@[j]
                    <= ends@[j] <= len,
            forall|j: int| 0 <= j < m ==> (#[trigger] parts@[j])@ == field_bytes(layout@, bytes@, j),
            forall|j: int| 0 <= j < m ==> (#[trigger] parts@[j])@.len() == ends@[j] - starts@[j],
        decreases n - m,
    {
        let part: Vec<u8> = copy_range(bytes, starts[m], ends[m]);
        parts.push(part);
        m += 1;
    }
    assert(byte_views(parts@) =~= Seq::new(
        layout@.len(),
        |i: int| field_bytes(layout@, bytes@, i),
    ));
    assert forall|i: int| 0 <= i < n implies (#[trigger] layout@[i] matches FieldKind::Fixed(w)
        ==> byte_views(parts@)[i].len() == w) by {
        assert(parts@[i]@.len() == ends@[i] - starts@[i]);
    }
    Ok(parts)
}

} // verus!
