use vstd::prelude::*;
use crate::primitive::{le_bytes, le_value};

verus! {

/// The number of bytes that one offset slot takes.
pub const OFFSET_LEN: usize = 4;

/// The largest offset that a slot can hold.
pub const MAX_OFFSET: usize = 0xffff_ffff;

/// Calls `ssz::encode_length`, which lays out the low four bytes of its
/// argument, least significant first. The contract claims exactly that, for
/// arguments that fit four bytes (above them the outside function asserts).
#[verifier::external_body]
pub(crate) fn offset_bytes(offset: usize) -> (out: Vec<u8>)
    requires
        offset <= MAX_OFFSET,
    ensures
        out@ == le_bytes(offset as nat, 4),
{
    ssz::encode_length(offset).to_vec()
}

/// Calls `ssz::read_offset`, which reads the first four bytes of its argument
/// as a little-endian number and fails when fewer than four are there. The
/// contract claims both.
#[verifier::external_body]
pub(crate) fn read_offset(bytes: &[u8]) -> (r: Option<usize>)
    ensures
        bytes@.len() < 4 ==> r is None,
        bytes@.len() >= 4 ==> r == Some(le_value(bytes@.subrange(0, 4)) as usize),
{
    ssz::read_offset(bytes).ok()
}

} // verus!
