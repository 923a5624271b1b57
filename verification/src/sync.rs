use vstd::prelude::*;
use crate::container::{
    byte_views, container_bytes, container_fields, decode_container, encode_container, fixed_len,
    fixed_len_upto, has_variable, parts_fit, FieldKind,
};
use crate::container_proofs::{
    lemma_container_round_trip, lemma_fixed_container_canonical, lemma_fixed_container_len,
    lemma_no_variable_len,
};
use crate::error::DecodeError;
use crate::vector::FixedVector;
use crate::bitpack::pack_bits;
use crate::bits::{bit_vector_fault, lemma_bit_vector_round_trip, lemma_pack_of_unpacked, BitVector};
use crate::primitive::{lemma_pow256_eight, lemma_pow256_four};

verus! {

/// The votes of the sync committee, one bit for each member, and their signature.
#[derive(Clone, Debug, PartialEq, Eq)]
pub struct SyncAggregate {
    pub sync_committee_bits: BitVector<512>,
    pub sync_committee_signature: FixedVector<u8, 96>,
}

impl SyncAggregate {
    /// Every field holds what its type asks for.
    pub open spec fn wf(&self) -> bool {
        self.sync_committee_bits.wf()
        && self.sync_committee_signature.wf()
    }

    /// Every field is zero.
    pub open spec fn is_zero(&self) -> bool {
        (forall|i: int| 0 <= i < self.sync_committee_bits@.len() ==> !#[trigger] self.sync_committee_bits@[i])
        && (forall|i: int| 0 <= i < self.sync_committee_signature@.len() ==> #[trigger] self.sync_committee_signature@[i] == 0)
    }

    /// The fields are all fixed in size; these are their widths.
    pub open spec fn layout() -> Seq<FieldKind> {
        seq![
            FieldKind::Fixed(64),
            FieldKind::Fixed(96),
        ]
    }

    /// The encodings of the fields, in declared order.
    pub open spec fn parts(&self) -> Seq<Seq<u8>> {
        seq![
            pack_bits(self.sync_committee_bits@),
            self.sync_committee_signature@,
        ]
    }

    /// The encoding of the record.
    pub open spec fn encoding(&self) -> Seq<u8> {
        container_bytes(Self::layout(), self.parts())
    }

    /// What is wrong with a buffer, if anything: the fault of the
    /// container itself, or else of the first field that is refused.
    pub open spec fn fault(bytes: Seq<u8>) -> Option<DecodeError> {
        match container_fields(Self::layout(), bytes) {
            Err(e) => Some(e),
            Ok(fields) => if bit_vector_fault(fields[0], 512) is Some { bit_vector_fault(fields[0], 512) } else { None },
        }
    }

    /// The fixed region has 160 bytes, and no field is variable.
    pub proof fn lemma_layout()
        ensures
            fixed_len(Self::layout()) == 160,
            !has_variable(Self::layout()),
            Self::layout().len() == 2,
    {
        reveal_with_fuel(fixed_len_upto, 3);
    }

    /// The fields' encodings fit the layout, and the encoding has 160
    /// bytes.
    pub proof fn lemma_parts(v: &SyncAggregate)
        requires
            v.wf(),
        ensures
            parts_fit(Self::layout(), v.parts()),
            v.encoding().len() == 160,
    {
        Self::lemma_layout();
        lemma_fixed_container_len(Self::layout(), v.parts());
    }

    /// Decoding the encoding of a record finds no fault and gives the
    /// fields again.
    #[verifier::rlimit(60)]
    #[verifier::spinoff_prover]
    pub proof fn lemma_round_trip(v: &SyncAggregate)
        requires
            v.wf(),
        ensures
            Self::fault(v.encoding()) is None,
            container_fields(Self::layout(), v.encoding()) == Ok::<Seq<Seq<u8>>, DecodeError>(
                v.parts(),
            ),
    {
        Self::lemma_parts(v);
        Self::lemma_layout();
        lemma_no_variable_len(Self::layout(), v.parts(), 2);
        lemma_pow256_four();
        lemma_container_round_trip(Self::layout(), v.parts());
        lemma_bit_vector_round_trip(v.sync_committee_bits@);
    }

    /// Whether every field holds what its type asks for.
    pub fn is_valid(&self) -> (r: bool)
        ensures
            r == self.wf(),
    {
        self.sync_committee_bits.len() == 512
            && self.sync_committee_signature.len() == 96
    }

    /// The record always takes the same number of bytes.
    pub fn is_fixed_size() -> (r: bool)
        ensures
            r,
    {
        true
    }

    /// The number of bytes that the encoding takes.
    pub fn fixed_byte_width() -> (r: usize)
        ensures
            r == fixed_len(Self::layout()),
    {
        proof {
            Self::lemma_layout();
        }
        160
    }

    /// The kinds of the fields, in declared order.
    pub fn field_kinds() -> (r: Vec<FieldKind>)
        ensures
            r@ == Self::layout(),
    {
        let r: Vec<FieldKind> = vec![
            FieldKind::Fixed(64),
            FieldKind::Fixed(96),
        ];
        assert(r@ =~= Self::layout());
        r
    }

    /// Encodes the fields in declared order.
    pub fn encode(&self) -> (out: Vec<u8>)
        requires
            self.wf(),
        ensures
            out@ == self.encoding(),
            out@.len() == 160,
    {
        proof {
            lemma_pow256_eight();
            Self::lemma_parts(self);
            Self::lemma_layout();
            lemma_no_variable_len(Self::layout(), self.parts(), 2);
        }
        let layout: Vec<FieldKind> = Self::field_kinds();
        let parts: Vec<Vec<u8>> = vec![
            self.sync_committee_bits.encode(),
            self.sync_committee_signature.encode(),
        ];
        assert(byte_views(parts@) =~= self.parts());
        encode_container(&layout, &parts)
    }

    /// Decodes a record from a buffer of exactly 160 bytes.
    #[verifier::rlimit(60)]
    #[verifier::spinoff_prover]
    pub fn decode(bytes: &[u8]) -> (r: Result<SyncAggregate, DecodeError>)
        ensures
            match r {
                Ok(v) => v.wf() && Self::fault(bytes@) is None && v.encoding() == bytes@
                    && container_fields(Self::layout(), bytes@) == Ok::<Seq<Seq<u8>>, DecodeError>(
                    v.parts(),
                ),
                Err(e) => Self::fault(bytes@) == Some(e),
            },
    {
        let layout: Vec<FieldKind> = Self::field_kinds();
        proof {
            Self::lemma_layout();
        }
        let parts: Vec<Vec<u8>> = match decode_container(&layout, bytes) {
            Ok(parts) => parts,
            Err(e) => {
                return Err(e);
            },
        };
        let ghost fields = byte_views(parts@);
        assert(fields.len() == 2 && parts@.len() == 2);
        assert(fields[0] == parts@[0]@ && fields[0].len() == 64);
        assert(fields[1] == parts@[1]@ && fields[1].len() == 96);
        let sync_committee_bits: BitVector<512> = match BitVector::<512>::decode(parts[0].as_slice()) {
            Ok(x) => x,
            Err(e) => {
                return Err(e);
            },
        };
        let sync_committee_signature: FixedVector<u8, 96> = match FixedVector::<u8, 96>::decode(parts[1].as_slice()) {
            Ok(x) => x,
            Err(e) => {
                return Err(e);
            },
        };
        let v = SyncAggregate { sync_committee_bits, sync_committee_signature };
        proof {
            lemma_pow256_eight();
            lemma_pack_of_unpacked(fields[0], 512);
            assert(v.parts() =~= fields);
            lemma_fixed_container_canonical(Self::layout(), bytes@);
        }
        Ok(v)
    }
}

impl Default for SyncAggregate {
    /// The record whose every field is zero.
    fn default() -> (r: Self)
        ensures
            r.wf(),
            r.is_zero(),
    {
        SyncAggregate {
            sync_committee_bits: BitVector::<512>::new(),
            sync_committee_signature: FixedVector::<u8, 96>::zeroed(),
        }
    }
}
} // verus!
