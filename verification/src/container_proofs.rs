use vstd::prelude::*;
use crate::container::{
    container_bytes, container_fields, field_bytes, field_end, field_start, first_fault, fixed_len,
    fixed_len_upto, fixed_region_upto, has_variable, last_offset, lemma_fault_persists, lemma_fixed_len_mono,
    lemma_var_len_mono, next_start, offset_fault, parts_fit, slot_bytes, slot_len, slot_offset,
    slot_pos, var_len_upto, var_region_upto, FieldKind,
};
use crate::error::DecodeError;
use crate::primitive::{lemma_le_bytes_len, lemma_le_value_of_bytes, pow256};

verus! {

/// The fixed region that the first `k` fields leave is as long as their
/// slots together.
pub proof fn lemma_fixed_region_len(
    layout: Seq<FieldKind>,
    parts: Seq<Seq<u8>>,
    base: nat,
    k: nat,
)
    requires
        parts_fit(layout, parts),
        k <= layout.len(),
    ensures
        fixed_region_upto(layout, parts, base, k).len() == fixed_len_upto(layout, k),
    decreases k,
{
    if k > 0 {
        lemma_fixed_region_len(layout, parts, base, (k - 1) as nat);
        lemma_le_bytes_len(base + var_len_upto(layout, parts, (k - 1) as nat), 4);
        assert(slot_bytes(layout, parts, base, k - 1).len() == slot_len(layout[k - 1]));
    }
}

/// The variable region that the first `k` fields leave is as long as their
/// variable parts together.
pub proof fn lemma_var_region_len(layout: Seq<FieldKind>, parts: Seq<Seq<u8>>, k: nat)
    requires
        k <= layout.len(),
    ensures
        var_region_upto(layout, parts, k).len() == var_len_upto(layout, parts, k),
    decreases k,
{
    if k > 0 {
        lemma_var_region_len(layout, parts, (k - 1) as nat);
    }
}

/// In the fixed region, the slot of field `i` holds what the field left
/// there.
pub proof fn lemma_slot_in_fixed_region(
    layout: Seq<FieldKind>,
    parts: Seq<Seq<u8>>,
    base: nat,
    k: nat,
    i: int,
)
    requires
        parts_fit(layout, parts),
        0 <= i < k <= layout.len(),
    ensures
        fixed_region_upto(layout, parts, base, k).subrange(
            slot_pos(layout, i) as int,
            (slot_pos(layout, i) + slot_len(layout[i])) as int,
        ) == slot_bytes(layout, parts, base, i),
    decreases k,
{
    let before = fixed_region_upto(layout, parts, base, (k - 1) as nat);
    let last = slot_bytes(layout, parts, base, k - 1);
    lemma_fixed_region_len(layout, parts, base, (k - 1) as nat);
    lemma_fixed_region_len(layout, parts, base, k);
    let a = slot_pos(layout, i) as int;
    let b = (slot_pos(layout, i) + slot_len(layout[i])) as int;
    if i == k - 1 {
        assert((before + last).subrange(a, b) =~= last);
    } else {
        lemma_slot_in_fixed_region(layout, parts, base, (k - 1) as nat, i);
        lemma_fixed_len_mono(layout, (i + 1) as nat, (k - 1) as nat);
        assert((before + last).subrange(a, b) =~= before.subrange(a, b));
    }
}

/// In the variable region, the bytes of the variable field `i` lie after
/// those of the variable fields before it.
pub proof fn lemma_part_in_var_region(
    layout: Seq<FieldKind>,
    parts: Seq<Seq<u8>>,
    k: nat,
    i: int,
)
    requires
        0 <= i < k <= layout.len(),
        layout[i] is Variable,
    ensures
        var_region_upto(layout, parts, k).subrange(
            var_len_upto(layout, parts, i as nat) as int,
            var_len_upto(layout, parts, (i + 1) as nat) as int,
        ) == parts[i],
    decreases k,
{
    let before = var_region_upto(layout, parts, (k - 1) as nat);
    let last = match layout[k - 1] {
        FieldKind::Fixed(_) => Seq::<u8>::empty(),
        FieldKind::Variable => parts[k - 1],
    };
    lemma_var_region_len(layout, parts, (k - 1) as nat);
    let a = var_len_upto(layout, parts, i as nat) as int;
    let b = var_len_upto(layout, parts, (i + 1) as nat) as int;
    if i == k - 1 {
        assert((before + last).subrange(a, b) =~= last);
    } else {
        lemma_part_in_var_region(layout, parts, (k - 1) as nat, i);
        lemma_var_len_mono(layout, parts, (i + 1) as nat, (k - 1) as nat);
        assert((before + last).subrange(a, b) =~= before.subrange(a, b));
    }
}

/// In an encoded container the slot of a variable field holds the fixed
/// region's length plus what the variable fields before it take.
pub proof fn lemma_encoded_offset(layout: Seq<FieldKind>, parts: Seq<Seq<u8>>, i: int)
    requires
        parts_fit(layout, parts),
        fixed_len(layout) + var_len_upto(layout, parts, layout.len()) < pow256(4),
        0 <= i < layout.len(),
        layout[i] is Variable,
    ensures
        slot_offset(layout, container_bytes(layout, parts), i) == fixed_len(layout) + var_len_upto(
            layout,
            parts,
            i as nat,
        ),
{
    let n = layout.len();
    let base = fixed_len(layout);
    let fixed = fixed_region_upto(layout, parts, base, n);
    let var = var_region_upto(layout, parts, n);
    let a = slot_pos(layout, i) as int;
    lemma_fixed_region_len(layout, parts, base, n);
    lemma_slot_in_fixed_region(layout, parts, base, n, i);
    lemma_fixed_len_mono(layout, (i + 1) as nat, n);
    lemma_var_len_mono(layout, parts, i as nat, n);
    assert((fixed + var).subrange(a, a + 4) =~= fixed.subrange(a, a + 4));
    lemma_le_value_of_bytes(base + var_len_upto(layout, parts, i as nat), 4);
}

proof fn lemma_encoded_last_offset(layout: Seq<FieldKind>, parts: Seq<Seq<u8>>, k: nat)
    requires
        parts_fit(layout, parts),
        fixed_len(layout) + var_len_upto(layout, parts, layout.len()) < pow256(4),
        k <= layout.len(),
    ensures
        match last_offset(layout, container_bytes(layout, parts), k) {
            None => var_len_upto(layout, parts, k) == 0,
            Some(p) => p <= fixed_len(layout) + var_len_upto(layout, parts, k),
        },
    decreases k,
{
    if k > 0 {
        lemma_encoded_last_offset(layout, parts, (k - 1) as nat);
        if layout[k - 1] is Variable {
            lemma_encoded_offset(layout, parts, k - 1);
        }
    }
}

proof fn lemma_encoded_no_fault(layout: Seq<FieldKind>, parts: Seq<Seq<u8>>, k: nat)
    requires
        parts_fit(layout, parts),
        fixed_len(layout) + var_len_upto(layout, parts, layout.len()) < pow256(4),
        k <= layout.len(),
    ensures
        first_fault(layout, container_bytes(layout, parts), k) is None,
    decreases k,
{
    if k > 0 {
        lemma_encoded_no_fault(layout, parts, (k - 1) as nat);
        if layout[k - 1] is Variable {
            let n = layout.len();
            lemma_encoded_offset(layout, parts, k - 1);
            lemma_encoded_last_offset(layout, parts, (k - 1) as nat);
            lemma_var_len_mono(layout, parts, (k - 1) as nat, n);
            lemma_fixed_region_len(layout, parts, fixed_len(layout), n);
            lemma_var_region_len(layout, parts, n);
        }
    }
}

proof fn lemma_encoded_next_start(layout: Seq<FieldKind>, parts: Seq<Seq<u8>>, j: nat)
    requires
        parts_fit(layout, parts),
        fixed_len(layout) + var_len_upto(layout, parts, layout.len()) < pow256(4),
        j <= layout.len(),
    ensures
        next_start(layout, container_bytes(layout, parts), j) == fixed_len(layout) + var_len_upto(
            layout,
            parts,
            j,
        ),
    decreases layout.len() - j,
{
    let n = layout.len();
    if j >= n {
        lemma_fixed_region_len(layout, parts, fixed_len(layout), n);
        lemma_var_region_len(layout, parts, n);
    } else if layout[j as int] is Variable {
        lemma_encoded_offset(layout, parts, j as int);
    } else {
        lemma_encoded_next_start(layout, parts, j + 1);
    }
}

/// Where no field is variable, the variable region is empty.
pub proof fn lemma_no_variable_len(layout: Seq<FieldKind>, parts: Seq<Seq<u8>>, k: nat)
    requires
        k <= layout.len(),
        !has_variable(layout),
    ensures
        var_len_upto(layout, parts, k) == 0,
    decreases k,
{
    if k > 0 {
        lemma_no_variable_len(layout, parts, (k - 1) as nat);
        assert(!(layout[k - 1] is Variable));
    }
}

/// Decoding the encoding of a container gives back the bytes of every
/// field, whatever the layout and the fields are.
#[verifier::rlimit(50)]
pub proof fn lemma_container_round_trip(layout: Seq<FieldKind>, parts: Seq<Seq<u8>>)
    requires
        parts_fit(layout, parts),
        fixed_len(layout) + var_len_upto(layout, parts, layout.len()) < pow256(4),
    ensures
        container_fields(layout, container_bytes(layout, parts)) == Ok::<
            Seq<Seq<u8>>,
            DecodeError,
        >(parts),
{
    let n = layout.len();
    let base = fixed_len(layout);
    let bytes = container_bytes(layout, parts);
    let fixed = fixed_region_upto(layout, parts, base, n);
    let var = var_region_upto(layout, parts, n);
    lemma_fixed_region_len(layout, parts, base, n);
    lemma_var_region_len(layout, parts, n);
    lemma_encoded_no_fault(layout, parts, n);
    if !has_variable(layout) {
        lemma_no_variable_len(layout, parts, n);
    }
    assert forall|i: int| 0 <= i < n implies field_bytes(layout, bytes, i) == parts[i] by {
        lemma_fixed_len_mono(layout, (i + 1) as nat, n);
        lemma_var_len_mono(layout, parts, (i + 1) as nat, n);
        if layout[i] is Variable {
            lemma_encoded_offset(layout, parts, i);
            lemma_encoded_next_start(layout, parts, (i + 1) as nat);
            lemma_part_in_var_region(layout, parts, n, i);
            let a = var_len_upto(layout, parts, i as nat) as int;
            let b = var_len_upto(layout, parts, (i + 1) as nat) as int;
            assert((fixed + var).subrange(base + a, base + b) =~= var.subrange(a, b));
        } else {
            lemma_slot_in_fixed_region(layout, parts, base, n, i);
            let a = field_start(layout, bytes, i) as int;
            let b = field_end(layout, bytes, i) as int;
            assert((fixed + var).subrange(a, b) =~= fixed.subrange(a, b));
        }
    }
    assert(Seq::new(n, |i: int| field_bytes(layout, bytes, i)) =~= parts);
}

#[verifier::rlimit(50)]
proof fn lemma_fixed_prefix(layout: Seq<FieldKind>, bytes: Seq<u8>, base: nat, k: nat)
    requires
        !has_variable(layout),
        k <= layout.len(),
        fixed_len(layout) <= bytes.len(),
    ensures
        fixed_region_upto(
            layout,
            Seq::new(layout.len(), |i: int| field_bytes(layout, bytes, i)),
            base,
            k,
        ) == bytes.subrange(0, fixed_len_upto(layout, k) as int),
        var_region_upto(
            layout,
            Seq::new(layout.len(), |i: int| field_bytes(layout, bytes, i)),
            k,
        ) == Seq::<u8>::empty(),
    decreases k,
{
    let parts = Seq::new(layout.len(), |i: int| field_bytes(layout, bytes, i));
    lemma_fixed_len_mono(layout, k, layout.len());
    if k > 0 {
        lemma_fixed_prefix(layout, bytes, base, (k - 1) as nat);
        assert(!(layout[k - 1] is Variable));
        let a = fixed_len_upto(layout, (k - 1) as nat) as int;
        let b = fixed_len_upto(layout, k) as int;
        assert(parts[k - 1] == bytes.subrange(a, b));
        assert(bytes.subrange(0, a) + bytes.subrange(a, b) =~= bytes.subrange(0, b));
        assert(var_region_upto(layout, parts, k) =~= Seq::<u8>::empty());
    } else {
        assert(bytes.subrange(0, 0) =~= Seq::<u8>::empty());
    }
}

/// A container without variable fields has one encoding only: a buffer that
/// decodes is the encoding of the fields it decodes to.
pub proof fn lemma_fixed_container_canonical(layout: Seq<FieldKind>, bytes: Seq<u8>)
    requires
        !has_variable(layout),
        container_fields(layout, bytes) is Ok,
    ensures
        container_bytes(layout, container_fields(layout, bytes)->Ok_0) == bytes,
        bytes.len() == fixed_len(layout),
{
    lemma_fixed_prefix(layout, bytes, fixed_len(layout), layout.len());
    let parts = Seq::new(layout.len(), |i: int| field_bytes(layout, bytes, i));
    assert(container_bytes(layout, parts) =~= bytes);
}

/// The encoding of a container without variable fields is as long as its
/// fixed region.
pub proof fn lemma_fixed_container_len(layout: Seq<FieldKind>, parts: Seq<Seq<u8>>)
    requires
        !has_variable(layout),
        parts_fit(layout, parts),
    ensures
        container_bytes(layout, parts).len() == fixed_len(layout),
{
    lemma_fixed_region_len(layout, parts, fixed_len(layout), layout.len());
    lemma_var_region_len(layout, parts, layout.len());
    lemma_no_variable_len(layout, parts, layout.len());
}

/// A container is refused whenever the offset of a variable field is
/// smaller than the offset before it, or, for the first variable field,
/// differs from the length of the fixed region.
pub proof fn lemma_disordered_offset_refused(layout: Seq<FieldKind>, bytes: Seq<u8>, i: int)
    requires
        0 <= i < layout.len(),
        layout[i] is Variable,
        match last_offset(layout, bytes, i as nat) {
            None => slot_offset(layout, bytes, i) != fixed_len(layout),
            Some(p) => slot_offset(layout, bytes, i) < p,
        },
    ensures
        container_fields(layout, bytes) is Err,
{
    assert(offset_fault(layout, bytes, i) is Some);
    assert(first_fault(layout, bytes, (i + 1) as nat) is Some);
    lemma_fault_persists(layout, bytes, (i + 1) as nat, layout.len());
}

} // verus!
