use vstd::prelude::*;
use crate::container::{
    byte_views, container_bytes, container_fields, decode_container, encode_container, fixed_len,
    fixed_len_upto, has_variable, parts_fit, FieldKind,
};
use crate::container_proofs::{
    lemma_container_round_trip, lemma_fixed_container_canonical, lemma_fixed_container_len,
    lemma_no_variable_len,
};
use crate::error::DecodeError;
use crate::bitpack::pack_bits;
use crate::bits::{bit_list_decoding, lemma_bit_list_round_trip, BitList};
use crate::container::var_len_upto;
use crate::container_proofs::{lemma_fixed_region_len, lemma_var_region_len};
use crate::vector::{
    lemma_u64_bytes_len, lemma_u64_list_round_trip, u64_bytes, u64_list_decoding, FixedVector,
    VariableList,
};
use crate::primitive::{
    decode_uint, encode_uint, le_bytes, lemma_le_bytes_len, lemma_le_bytes_of_value,
    lemma_pow256_eight, lemma_pow256_four,
};

verus! {

/// An epoch and the root of the block at its start.
#[derive(Clone, Debug, PartialEq, Eq)]
pub struct Checkpoint {
    pub epoch: u64,
    pub root: FixedVector<u8, 32>,
}

impl Checkpoint {
    /// Every field holds what its type asks for.
    pub open spec fn wf(&self) -> bool {
        self.root.wf()
    }

    /// Every field is zero.
    pub open spec fn is_zero(&self) -> bool {
        self.epoch == 0
        && (forall|i: int| 0 <= i < self.root@.len() ==> #[trigger] self.root@[i] == 0)
    }

    /// The fields are all fixed in size; these are their widths.
    pub open spec fn layout() -> Seq<FieldKind> {
        seq![
            FieldKind::Fixed(8),
            FieldKind::Fixed(32),
        ]
    }

    /// The encodings of the fields, in declared order.
    pub open spec fn parts(&self) -> Seq<Seq<u8>> {
        seq![
            le_bytes(self.epoch as nat, 8),
            self.root@,
        ]
    }

    /// The encoding of the record.
    pub open spec fn encoding(&self) -> Seq<u8> {
        container_bytes(Self::layout(), self.parts())
    }

    /// What is wrong with a buffer, if anything: the fault of the
    /// container itself, or else of the first field that is refused.
    pub open spec fn fault(bytes: Seq<u8>) -> Option<DecodeError> {
        match container_fields(Self::layout(), bytes) {
            Err(e) => Some(e),
            Ok(_) => None,
        }
    }

    /// The fixed region has 40 bytes, and no field is variable.
    pub proof fn lemma_layout()
        ensures
            fixed_len(Self::layout()) == 40,
            !has_variable(Self::layout()),
            Self::layout().len() == 2,
    {
        reveal_with_fuel(fixed_len_upto, 3);
    }

    /// The fields' encodings fit the layout, and the encoding has 40
    /// bytes.
    pub proof fn lemma_parts(v: &Checkpoint)
        requires
            v.wf(),
        ensures
            parts_fit(Self::layout(), v.parts()),
            v.encoding().len() == 40,
    {
        Self::lemma_layout();
        lemma_le_bytes_len(v.epoch as nat, 8);
        lemma_fixed_container_len(Self::layout(), v.parts());
    }

    /// Decoding the encoding of a record finds no fault and gives the
    /// fields again.
    #[verifier::rlimit(60)]
    #[verifier::spinoff_prover]
    pub proof fn lemma_round_trip(v: &Checkpoint)
        requires
            v.wf(),
        ensures
            Self::fault(v.encoding()) is None,
            container_fields(Self::layout(), v.encoding()) == Ok::<Seq<Seq<u8>>, DecodeError>(
                v.parts(),
            ),
    {
        Self::lemma_parts(v);
        Self::lemma_layout();
        lemma_no_variable_len(Self::layout(), v.parts(), 2);
        lemma_pow256_four();
        lemma_container_round_trip(Self::layout(), v.parts());
    }

    /// Whether every field holds what its type asks for.
    pub fn is_valid(&self) -> (r: bool)
        ensures
            r == self.wf(),
    {
        self.root.len() == 32
    }

    /// The record always takes the same number of bytes.
    pub fn is_fixed_size() -> (r: bool)
        ensures
            r,
    {
        true
    }

    /// The number of bytes that the encoding takes.
    pub fn fixed_byte_width() -> (r: usize)
        ensures
            r == fixed_len(Self::layout()),
    {
        proof {
            Self::lemma_layout();
        }
        40
    }

    /// The kinds of the fields, in declared order.
    pub fn field_kinds() -> (r: Vec<FieldKind>)
        ensures
            r@ == Self::layout(),
    {
        let r: Vec<FieldKind> = vec![
            FieldKind::Fixed(8),
            FieldKind::Fixed(32),
        ];
        assert(r@ =~= Self::layout());
        r
    }

    /// Encodes the fields in declared order.
    pub fn encode(&self) -> (out: Vec<u8>)
        requires
            self.wf(),
        ensures
            out@ == self.encoding(),
            out@.len() == 40,
    {
        proof {
            lemma_pow256_eight();
            Self::lemma_parts(self);
            Self::lemma_layout();
            lemma_no_variable_len(Self::layout(), self.parts(), 2);
        }
        let layout: Vec<FieldKind> = Self::field_kinds();
        let parts: Vec<Vec<u8>> = vec![
            encode_uint(self.epoch, 8),
            self.root.encode(),
        ];
        assert(byte_views(parts@) =~= self.parts());
        encode_container(&layout, &parts)
    }

    /// Decodes a record from a buffer of exactly 40 bytes.
    #[verifier::rlimit(60)]
    #[verifier::spinoff_prover]
    pub fn decode(bytes: &[u8]) -> (r: Result<Checkpoint, DecodeError>)
        ensures
            match r {
                Ok(v) => v.wf() && Self::fault(bytes@) is None && v.encoding() == bytes@
                    && container_fields(Self::layout(), bytes@) == Ok::<Seq<Seq<u8>>, DecodeError>(
                    v.parts(),
                ),
                Err(e) => Self::fault(bytes@) == Some(e),
            },
    {
        let layout: Vec<FieldKind> = Self::field_kinds();
        proof {
            Self::lemma_layout();
        }
        let parts: Vec<Vec<u8>> = match decode_container(&layout, bytes) {
            Ok(parts) => parts,
            Err(e) => {
                return Err(e);
            },
        };
        let ghost fields = byte_views(parts@);
        assert(fields.len() == 2 && parts@.len() == 2);
        assert(fields[0] == parts@[0]@ && fields[0].len() == 8);
        assert(fields[0].subrange(0, 8) =~= fields[0]);
        assert(fields[1] == parts@[1]@ && fields[1].len() == 32);
        let epoch: u64 = match decode_uint(parts[0].as_slice(), 8) {
            Ok(x) => x,
            Err(e) => {
                return Err(e);
            },
        };
        let root: FixedVector<u8, 32> = match FixedVector::<u8, 32>::decode(parts[1].as_slice()) {
            Ok(x) => x,
            Err(e) => {
                return Err(e);
            },
        };
        let v = Checkpoint { epoch, root };
        proof {
            lemma_pow256_eight();
            lemma_le_bytes_of_value(fields[0]);
            assert(v.parts() =~= fields);
            lemma_fixed_container_canonical(Self::layout(), bytes@);
        }
        Ok(v)
    }
}

impl Default for Checkpoint {
    /// The record whose every field is zero.
    fn default() -> (r: Self)
        ensures
            r.wf(),
            r.is_zero(),
    {
        Checkpoint {
            epoch: 0,
            root: FixedVector::<u8, 32>::zeroed(),
        }
    }
}

/// What an attestation votes for.
#[derive(Clone, Debug, PartialEq, Eq)]
pub struct AttestationData {
    pub slot: u64,
    pub index: u64,
    pub beacon_block_root: FixedVector<u8, 32>,
    pub source: Checkpoint,
    pub target: Checkpoint,
}

impl AttestationData {
    /// Every field holds what its type asks for.
    pub open spec fn wf(&self) -> bool {
        self.beacon_block_root.wf()
        && self.source.wf()
        && self.target.wf()
    }

    /// Every field is zero.
    pub open spec fn is_zero(&self) -> bool {
        self.slot == 0
        && self.index == 0
        && (forall|i: int| 0 <= i < self.beacon_block_root@.len() ==> #[trigger] self.beacon_block_root@[i] == 0)
        && self.source.is_zero()
        && self.target.is_zero()
    }

    /// The fields are all fixed in size; these are their widths.
    pub open spec fn layout() -> Seq<FieldKind> {
        seq![
            FieldKind::Fixed(8),
            FieldKind::Fixed(8),
            FieldKind::Fixed(32),
            FieldKind::Fixed(40),
            FieldKind::Fixed(40),
        ]
    }

    /// The encodings of the fields, in declared order.
    pub open spec fn parts(&self) -> Seq<Seq<u8>> {
        seq![
            le_bytes(self.slot as nat, 8),
            le_bytes(self.index as nat, 8),
            self.beacon_block_root@,
            self.source.encoding(),
            self.target.encoding(),
        ]
    }

    /// The encoding of the record.
    pub open spec fn encoding(&self) -> Seq<u8> {
        container_bytes(Self::layout(), self.parts())
    }

    /// What is wrong with a buffer, if anything: the fault of the
    /// container itself, or else of the first field that is refused.
    pub open spec fn fault(bytes: Seq<u8>) -> Option<DecodeError> {
        match container_fields(Self::layout(), bytes) {
            Err(e) => Some(e),
            Ok(fields) => if Checkpoint::fault(fields[3]) is Some { Checkpoint::fault(fields[3]) } else { if Checkpoint::fault(fields[4]) is Some { Checkpoint::fault(fields[4]) } else { None } },
        }
    }

    /// The fixed region has 128 bytes, and no field is variable.
    pub proof fn lemma_layout()
        ensures
            fixed_len(Self::layout()) == 128,
            !has_variable(Self::layout()),
            Self::layout().len() == 5,
    {
        reveal_with_fuel(fixed_len_upto, 6);
    }

    /// The fields' encodings fit the layout, and the encoding has 128
    /// bytes.
    pub proof fn lemma_parts(v: &AttestationData)
        requires
            v.wf(),
        ensures
            parts_fit(Self::layout(), v.parts()),
            v.encoding().len() == 128,
    {
        Self::lemma_layout();
        lemma_le_bytes_len(v.slot as nat, 8);
        lemma_le_bytes_len(v.index as nat, 8);
        Checkpoint::lemma_parts(&v.source);
        Checkpoint::lemma_parts(&v.target);
        lemma_fixed_container_len(Self::layout(), v.parts());
    }

    /// Decoding the encoding of a record finds no fault and gives the
    /// fields again.
    #[verifier::rlimit(60)]
    #[verifier::spinoff_prover]
    pub proof fn lemma_round_trip(v: &AttestationData)
        requires
            v.wf(),
        ensures
            Self::fault(v.encoding()) is None,
            container_fields(Self::layout(), v.encoding()) == Ok::<Seq<Seq<u8>>, DecodeError>(
                v.parts(),
            ),
    {
        Self::lemma_parts(v);
        Self::lemma_layout();
        lemma_no_variable_len(Self::layout(), v.parts(), 5);
        lemma_pow256_four();
        lemma_container_round_trip(Self::layout(), v.parts());
        Checkpoint::lemma_round_trip(&v.source);
        Checkpoint::lemma_round_trip(&v.target);
    }

    /// Whether every field holds what its type asks for.
    pub fn is_valid(&self) -> (r: bool)
        ensures
            r == self.wf(),
    {
        self.beacon_block_root.len() == 32
            && self.source.is_valid()
            && self.target.is_valid()
    }

    /// The record always takes the same number of bytes.
    pub fn is_fixed_size() -> (r: bool)
        ensures
            r,
    {
        true
    }

    /// The number of bytes that the encoding takes.
    pub fn fixed_byte_width() -> (r: usize)
        ensures
            r == fixed_len(Self::layout()),
    {
        proof {
            Self::lemma_layout();
        }
        128
    }

    /// The kinds of the fields, in declared order.
    pub fn field_kinds() -> (r: Vec<FieldKind>)
        ensures
            r@ == Self::layout(),
    {
        let r: Vec<FieldKind> = vec![
            FieldKind::Fixed(8),
            FieldKind::Fixed(8),
            FieldKind::Fixed(32),
            FieldKind::Fixed(40),
            FieldKind::Fixed(40),
        ];
        assert(r@ =~= Self::layout());
        r
    }

    /// Encodes the fields in declared order.
    pub fn encode(&self) -> (out: Vec<u8>)
        requires
            self.wf(),
        ensures
            out@ == self.encoding(),
            out@.len() == 128,
    {
        proof {
            lemma_pow256_eight();
            Self::lemma_parts(self);
            Self::lemma_layout();
            lemma_no_variable_len(Self::layout(), self.parts(), 5);
        }
        let layout: Vec<FieldKind> = Self::field_kinds();
        let parts: Vec<Vec<u8>> = vec![
            encode_uint(self.slot, 8),
            encode_uint(self.index, 8),
            self.beacon_block_root.encode(),
            self.source.encode(),
            self.target.encode(),
        ];
        assert(byte_views(parts@) =~= self.parts());
        encode_container(&layout, &parts)
    }

    /// Decodes a record from a buffer of exactly 128 bytes.
    #[verifier::rlimit(60)]
    #[verifier::spinoff_prover]
    pub fn decode(bytes: &[u8]) -> (r: Result<AttestationData, DecodeError>)
        ensures
            match r {
                Ok(v) => v.wf() && Self::fault(bytes@) is None && v.encoding() == bytes@
                    && container_fields(Self::layout(), bytes@) == Ok::<Seq<Seq<u8>>, DecodeError>(
                    v.parts(),
                ),
                Err(e) => Self::fault(bytes@) == Some(e),
            },
    {
        let layout: Vec<FieldKind> = Self::field_kinds();
        proof {
            Self::lemma_layout();
        }
        let parts: Vec<Vec<u8>> = match decode_container(&layout, bytes) {
            Ok(parts) => parts,
            Err(e) => {
                return Err(e);
            },
        };
        let ghost fields = byte_views(parts@);
        assert(fields.len() == 5 && parts@.len() == 5);
        assert(fields[0] == parts@[0]@ && fields[0].len() == 8);
        assert(fields[0].subrange(0, 8) =~= fields[0]);
        assert(fields[1] == parts@[1]@ && fields[1].len() == 8);
        assert(fields[1].subrange(0, 8) =~= fields[1]);
        assert(fields[2] == parts@[2]@ && fields[2].len() == 32);
        assert(fields[3] == parts@[3]@ && fields[3].len() == 40);
        assert(fields[4] == parts@[4]@ && fields[4].len() == 40);
        let slot: u64 = match decode_uint(parts[0].as_slice(), 8) {
            Ok(x) => x,
            Err(e) => {
                return Err(e);
            },
        };
        let index: u64 = match decode_uint(parts[1].as_slice(), 8) {
            Ok(x) => x,
            Err(e) => {
                return Err(e);
            },
        };
        let beacon_block_root: FixedVector<u8, 32> = match FixedVector::<u8, 32>::decode(parts[2].as_slice()) {
            Ok(x) => x,
            Err(e) => {
                return Err(e);
            },
        };
        let source: Checkpoint = match Checkpoint::decode(parts[3].as_slice()) {
            Ok(x) => x,
            Err(e) => {
                return Err(e);
            },
        };
        let target: Checkpoint = match Checkpoint::decode(parts[4].as_slice()) {
            Ok(x) => x,
            Err(e) => {
                return Err(e);
            },
        };
        let v = AttestationData { slot, index, beacon_block_root, source, target };
        proof {
            lemma_pow256_eight();
            lemma_le_bytes_of_value(fields[0]);
            lemma_le_bytes_of_value(fields[1]);
            assert(v.parts() =~= fields);
            lemma_fixed_container_canonical(Self::layout(), bytes@);
        }
        Ok(v)
    }
}

impl Default for AttestationData {
    /// The record whose every field is zero.
    fn default() -> (r: Self)
        ensures
            r.wf(),
            r.is_zero(),
    {
        AttestationData {
            slot: 0,
            index: 0,
            beacon_block_root: FixedVector::<u8, 32>::zeroed(),
            source: Checkpoint::default(),
            target: Checkpoint::default(),
        }
    }
}

/// A list of at most `N` bits that encodes as the bit list it holds.
#[derive(Clone, Debug, PartialEq, Eq)]
pub struct CustomBitList<const N: usize> {
    bits: BitList<N>,
}

impl<const N: usize> View for CustomBitList<N> {
    type V = Seq<bool>;

    closed spec fn view(&self) -> Seq<bool> {
        self.bits@
    }
}

impl<const N: usize> CustomBitList<N> {
    /// The list holds at most `N` bits.
    pub open spec fn wf(&self) -> bool {
        self@.len() <= N
    }

    /// Wraps a bit list.
    pub fn new(bits: BitList<N>) -> (r: Self)
        ensures
            r@ == bits@,
    {
        CustomBitList { bits }
    }

    /// The number of bits.
    pub fn len(&self) -> (r: usize)
        ensures
            r == self@.len(),
    {
        self.bits.len()
    }

    /// The bit list inside.
    pub fn as_bit_list(&self) -> (r: &BitList<N>)
        ensures
            r@ == self@,
    {
        &self.bits
    }

    /// The size of the encoding depends on the number of bits.
    pub fn is_fixed_size() -> (r: bool)
        ensures
            !r,
    {
        false
    }

    /// Encodes as the bit list inside does.
    pub fn encode(&self) -> (out: Vec<u8>)
        ensures
            out@ == pack_bits(self@.push(true)),
    {
        self.bits.encode()
    }

    /// Decodes as a bit list of at most `N` bits.
    pub fn decode(bytes: &[u8]) -> (r: Result<Self, DecodeError>)
        ensures
            match r {
                Ok(v) => v.wf() && bit_list_decoding(bytes@, N as nat) == Ok::<
                    Seq<bool>,
                    DecodeError,
                >(v@),
                Err(e) => bit_list_decoding(bytes@, N as nat) == Err::<Seq<bool>, DecodeError>(e),
            },
    {
        match BitList::<N>::decode(bytes) {
            Ok(bits) => Ok(CustomBitList { bits }),
            Err(e) => Err(e),
        }
    }
}

impl<const N: usize> Default for CustomBitList<N> {
    /// The empty list.
    fn default() -> (r: Self)
        ensures
            r.wf(),
            r@.len() == 0,
    {
        CustomBitList { bits: BitList::<N>::new() }
    }
}

/// An attestation that names the validators behind it by index.
#[derive(Clone, Debug, PartialEq, Eq)]
pub struct IndexedAttestation {
    pub attesting_indices: VariableList<u64, 2048>,
    pub data: AttestationData,
    pub signature: FixedVector<u8, 96>,
}

impl IndexedAttestation {
    /// Every field holds what its type asks for.
    pub open spec fn wf(&self) -> bool {
        self.attesting_indices.wf() && self.data.wf() && self.signature.wf()
    }

    /// The variable field is empty, and every other field is zero.
    pub open spec fn is_zero(&self) -> bool {
        &&& self.attesting_indices@.len() == 0
        &&& self.data.is_zero()
        &&& forall|i: int| 0 <= i < self.signature@.len() ==> #[trigger] self.signature@[i] == 0
    }

    /// One variable field, then two fixed ones.
    pub open spec fn layout() -> Seq<FieldKind> {
        seq![FieldKind::Variable, FieldKind::Fixed(128), FieldKind::Fixed(96)]
    }

    /// The encodings of the fields, in declared order.
    pub open spec fn parts(&self) -> Seq<Seq<u8>> {
        seq![u64_bytes(self.attesting_indices@), self.data.encoding(), self.signature@]
    }

    /// The encoding of the record.
    pub open spec fn encoding(&self) -> Seq<u8> {
        container_bytes(Self::layout(), self.parts())
    }

    /// What is wrong with a buffer, if anything: the fault of the
    /// container itself, or else of the first field that is refused.
    pub open spec fn fault(bytes: Seq<u8>) -> Option<DecodeError> {
        match container_fields(Self::layout(), bytes) {
            Err(e) => Some(e),
            Ok(fields) => match u64_list_decoding(fields[0], 2048) {
                Err(e) => Some(e),
                Ok(_) => AttestationData::fault(fields[1]),
            },
        }
    }

    /// The record is what the buffer holds: each field is what its bytes
    /// decode to.
    pub open spec fn decoded_from(&self, bytes: Seq<u8>) -> bool {
        let fields = container_fields(Self::layout(), bytes)->Ok_0;
        &&& container_fields(Self::layout(), bytes) is Ok
        &&& u64_list_decoding(fields[0], 2048) == Ok::<Seq<u64>, DecodeError>(self.attesting_indices@)
        &&& fields[1] == self.data.encoding()
        &&& fields[2] == self.signature@
    }

    /// The fixed region has 228 bytes: an offset slot and the two fixed
    /// fields.
    pub proof fn lemma_layout()
        ensures
            fixed_len(Self::layout()) == 228,
            has_variable(Self::layout()),
            Self::layout().len() == 3,
    {
        reveal_with_fuel(fixed_len_upto, 4);
        assert(Self::layout()[0] is Variable);
    }

    /// The fields' encodings fit the layout, and the variable field stays
    /// far below what an offset can hold.
    pub proof fn lemma_parts(v: &IndexedAttestation)
        requires
            v.wf(),
        ensures
            parts_fit(Self::layout(), v.parts()),
            var_len_upto(Self::layout(), v.parts(), 3) <= 16384,
            v.encoding().len() <= 228 + 16384,
    {
        reveal_with_fuel(var_len_upto, 4);
        AttestationData::lemma_parts(&v.data);
        lemma_u64_bytes_len(v.attesting_indices@);
        Self::lemma_layout();
        lemma_fixed_region_len(Self::layout(), v.parts(), 228, 3);
        lemma_var_region_len(Self::layout(), v.parts(), 3);
    }

    /// Decoding the encoding of a record finds no fault and gives every
    /// field again.
    #[verifier::rlimit(60)]
    #[verifier::spinoff_prover]
    pub proof fn lemma_round_trip(v: &IndexedAttestation)
        requires
            v.wf(),
        ensures
            Self::fault(v.encoding()) is None,
            container_fields(Self::layout(), v.encoding()) == Ok::<Seq<Seq<u8>>, DecodeError>(
                v.parts(),
            ),
            v.decoded_from(v.encoding()),
    {
        assert(container_fields(Self::layout(), v.encoding()) == Ok::<Seq<Seq<u8>>, DecodeError>(
            v.parts(),
        )) by {
            Self::lemma_parts(v);
            Self::lemma_layout();
            lemma_pow256_four();
            lemma_container_round_trip(Self::layout(), v.parts());
        }
        assert(AttestationData::fault(v.parts()[1]) is None) by {
            AttestationData::lemma_round_trip(&v.data);
        }
        assert(u64_list_decoding(v.parts()[0], 2048) == Ok::<Seq<u64>, DecodeError>(v.attesting_indices@)) by {
            lemma_u64_list_round_trip(v.attesting_indices@, 2048);
        }
    }

    /// Whether every field holds what its type asks for.
    pub fn is_valid(&self) -> (r: bool)
        ensures
            r == self.wf(),
    {
        self.attesting_indices.len() <= 2048 && self.data.is_valid() && self.signature.len() == 96
    }

    /// The size of the encoding depends on the value.
    pub fn is_fixed_size() -> (r: bool)
        ensures
            !r,
    {
        false
    }

    /// The kinds of the fields, in declared order.
    pub fn field_kinds() -> (r: Vec<FieldKind>)
        ensures
            r@ == Self::layout(),
    {
        let r: Vec<FieldKind> = vec![FieldKind::Variable, FieldKind::Fixed(128), FieldKind::Fixed(96)];
        assert(r@ =~= Self::layout());
        r
    }

    /// Encodes the fields in declared order: the offset of the variable
    /// field and the fixed fields first, the variable field's bytes last.
    pub fn encode(&self) -> (out: Vec<u8>)
        requires
            self.wf(),
        ensures
            out@ == self.encoding(),
    {
        proof {
            Self::lemma_parts(self);
            Self::lemma_layout();
        }
        let layout: Vec<FieldKind> = Self::field_kinds();
        let parts: Vec<Vec<u8>> = vec![
            self.attesting_indices.encode(),
            self.data.encode(),
            self.signature.encode(),
        ];
        assert(byte_views(parts@) =~= self.parts());
        encode_container(&layout, &parts)
    }

    /// Decodes a record: splits the buffer by the offset, then decodes each
    /// field from its bytes.
    #[verifier::rlimit(60)]
    #[verifier::spinoff_prover]
    pub fn decode(bytes: &[u8]) -> (r: Result<IndexedAttestation, DecodeError>)
        ensures
            match r {
                Ok(v) => v.wf() && Self::fault(bytes@) is None && v.decoded_from(bytes@),
                Err(e) => Self::fault(bytes@) == Some(e),
            },
    {
        let layout: Vec<FieldKind> = Self::field_kinds();
        proof {
            Self::lemma_layout();
        }
        let parts: Vec<Vec<u8>> = match decode_container(&layout, bytes) {
            Ok(parts) => parts,
            Err(e) => {
                return Err(e);
            },
        };
        let ghost fields = byte_views(parts@);
        assert(fields.len() == 3 && parts@.len() == 3);
        assert(fields[0] == parts@[0]@ && fields[1] == parts@[1]@ && fields[2] == parts@[2]@);
        assert(fields[1].len() == 128 && fields[2].len() == 96);
        let attesting_indices: VariableList<u64, 2048> = match VariableList::<u64, 2048>::decode(parts[0].as_slice()) {
            Ok(x) => x,
            Err(e) => {
                return Err(e);
            },
        };
        let data: AttestationData = match AttestationData::decode(parts[1].as_slice()) {
            Ok(x) => x,
            Err(e) => {
                return Err(e);
            },
        };
        let signature: FixedVector<u8, 96> = match FixedVector::<u8, 96>::decode(
            parts[2].as_slice(),
        ) {
            Ok(x) => x,
            Err(e) => {
                return Err(e);
            },
        };
        Ok(IndexedAttestation { attesting_indices, data, signature })
    }
}

impl Default for IndexedAttestation {
    /// The record with an empty variable field and every other field zero.
    fn default() -> (r: Self)
        ensures
            r.wf(),
            r.is_zero(),
    {
        IndexedAttestation {
            attesting_indices: VariableList::<u64, 2048>::empty(),
            data: AttestationData::default(),
            signature: FixedVector::<u8, 96>::zeroed(),
        }
    }
}

/// A vote with the bits of the committee members that cast it.
#[derive(Clone, Debug, PartialEq, Eq)]
pub struct Attestation {
    pub aggregation_bits: CustomBitList<2048>,
    pub data: AttestationData,
    pub signature: FixedVector<u8, 96>,
}

impl Attestation {
    /// Every field holds what its type asks for.
    pub open spec fn wf(&self) -> bool {
        self.aggregation_bits.wf() && self.data.wf() && self.signature.wf()
    }

    /// The variable field is empty, and every other field is zero.
    pub open spec fn is_zero(&self) -> bool {
        &&& self.aggregation_bits@.len() == 0
        &&& self.data.is_zero()
        &&& forall|i: int| 0 <= i < self.signature@.len() ==> #[trigger] self.signature@[i] == 0
    }

    /// One variable field, then two fixed ones.
    pub open spec fn layout() -> Seq<FieldKind> {
        seq![FieldKind::Variable, FieldKind::Fixed(128), FieldKind::Fixed(96)]
    }

    /// The encodings of the fields, in declared order.
    pub open spec fn parts(&self) -> Seq<Seq<u8>> {
        seq![pack_bits(self.aggregation_bits@.push(true)), self.data.encoding(), self.signature@]
    }

    /// The encoding of the record.
    pub open spec fn encoding(&self) -> Seq<u8> {
        container_bytes(Self::layout(), self.parts())
    }

    /// What is wrong with a buffer, if anything: the fault of the
    /// container itself, or else of the first field that is refused.
    pub open spec fn fault(bytes: Seq<u8>) -> Option<DecodeError> {
        match container_fields(Self::layout(), bytes) {
            Err(e) => Some(e),
            Ok(fields) => match bit_list_decoding(fields[0], 2048) {
                Err(e) => Some(e),
                Ok(_) => AttestationData::fault(fields[1]),
            },
        }
    }

    /// The record is what the buffer holds: each field is what its bytes
    /// decode to.
    pub open spec fn decoded_from(&self, bytes: Seq<u8>) -> bool {
        let fields = container_fields(Self::layout(), bytes)->Ok_0;
        &&& container_fields(Self::layout(), bytes) is Ok
        &&& bit_list_decoding(fields[0], 2048) == Ok::<Seq<bool>, DecodeError>(self.aggregation_bits@)
        &&& fields[1] == self.data.encoding()
        &&& fields[2] == self.signature@
    }

    /// The fixed region has 228 bytes: an offset slot and the two fixed
    /// fields.
    pub proof fn lemma_layout()
        ensures
            fixed_len(Self::layout()) == 228,
            has_variable(Self::layout()),
            Self::layout().len() == 3,
    {
        reveal_with_fuel(fixed_len_upto, 4);
        assert(Self::layout()[0] is Variable);
    }

    /// The fields' encodings fit the layout, and the variable field stays
    /// far below what an offset can hold.
    pub proof fn lemma_parts(v: &Attestation)
        requires
            v.wf(),
        ensures
            parts_fit(Self::layout(), v.parts()),
            var_len_upto(Self::layout(), v.parts(), 3) <= 257,
            v.encoding().len() <= 228 + 257,
    {
        reveal_with_fuel(var_len_upto, 4);
        AttestationData::lemma_parts(&v.data);
        
        Self::lemma_layout();
        lemma_fixed_region_len(Self::layout(), v.parts(), 228, 3);
        lemma_var_region_len(Self::layout(), v.parts(), 3);
    }

    /// Decoding the encoding of a record finds no fault and gives every
    /// field again.
    #[verifier::rlimit(60)]
    #[verifier::spinoff_prover]
    pub proof fn lemma_round_trip(v: &Attestation)
        requires
            v.wf(),
        ensures
            Self::fault(v.encoding()) is None,
            container_fields(Self::layout(), v.encoding()) == Ok::<Seq<Seq<u8>>, DecodeError>(
                v.parts(),
            ),
            v.decoded_from(v.encoding()),
    {
        assert(container_fields(Self::layout(), v.encoding()) == Ok::<Seq<Seq<u8>>, DecodeError>(
            v.parts(),
        )) by {
            Self::lemma_parts(v);
            Self::lemma_layout();
            lemma_pow256_four();
            lemma_container_round_trip(Self::layout(), v.parts());
        }
        assert(AttestationData::fault(v.parts()[1]) is None) by {
            AttestationData::lemma_round_trip(&v.data);
        }
        assert(bit_list_decoding(v.parts()[0], 2048) == Ok::<Seq<bool>, DecodeError>(v.aggregation_bits@)) by {
            lemma_bit_list_round_trip(v.aggregation_bits@, 2048);
        }
    }

    /// Whether every field holds what its type asks for.
    pub fn is_valid(&self) -> (r: bool)
        ensures
            r == self.wf(),
    {
        self.aggregation_bits.len() <= 2048 && self.data.is_valid() && self.signature.len() == 96
    }

    /// The size of the encoding depends on the value.
    pub fn is_fixed_size() -> (r: bool)
        ensures
            !r,
    {
        false
    }

    /// The kinds of the fields, in declared order.
    pub fn field_kinds() -> (r: Vec<FieldKind>)
        ensures
            r@ == Self::layout(),
    {
        let r: Vec<FieldKind> = vec![FieldKind::Variable, FieldKind::Fixed(128), FieldKind::Fixed(96)];
        assert(r@ =~= Self::layout());
        r
    }

    /// Encodes the fields in declared order: the offset of the variable
    /// field and the fixed fields first, the variable field's bytes last.
    pub fn encode(&self) -> (out: Vec<u8>)
        requires
            self.wf(),
        ensures
            out@ == self.encoding(),
    {
        proof {
            Self::lemma_parts(self);
            Self::lemma_layout();
        }
        let layout: Vec<FieldKind> = Self::field_kinds();
        let parts: Vec<Vec<u8>> = vec![
            self.aggregation_bits.encode(),
            self.data.encode(),
            self.signature.encode(),
        ];
        assert(byte_views(parts@) =~= self.parts());
        encode_container(&layout, &parts)
    }

    /// Decodes a record: splits the buffer by the offset, then decodes each
    /// field from its bytes.
    #[verifier::rlimit(60)]
    #[verifier::spinoff_prover]
    pub fn decode(bytes: &[u8]) -> (r: Result<Attestation, DecodeError>)
        ensures
            match r {
                Ok(v) => v.wf() && Self::fault(bytes@) is None && v.decoded_from(bytes@),
                Err(e) => Self::fault(bytes@) == Some(e),
            },
    {
        let layout: Vec<FieldKind> = Self::field_kinds();
        proof {
            Self::lemma_layout();
        }
        let parts: Vec<Vec<u8>> = match decode_container(&layout, bytes) {
            Ok(parts) => parts,
            Err(e) => {
                return Err(e);
            },
        };
        let ghost fields = byte_views(parts@);
        assert(fields.len() == 3 && parts@.len() == 3);
        assert(fields[0] == parts@[0]@ && fields[1] == parts@[1]@ && fields[2] == parts@[2]@);
        assert(fields[1].len() == 128 && fields[2].len() == 96);
        let aggregation_bits: CustomBitList<2048> = match CustomBitList::<2048>::decode(parts[0].as_slice()) {
            Ok(x) => x,
            Err(e) => {
                return Err(e);
            },
        };
        let data: AttestationData = match AttestationData::decode(parts[1].as_slice()) {
            Ok(x) => x,
            Err(e) => {
                return Err(e);
            },
        };
        let signature: FixedVector<u8, 96> = match FixedVector::<u8, 96>::decode(
            parts[2].as_slice(),
        ) {
            Ok(x) => x,
            Err(e) => {
                return Err(e);
            },
        };
        Ok(Attestation { aggregation_bits, data, signature })
    }
}

impl Default for Attestation {
    /// The record with an empty variable field and every other field zero.
    fn default() -> (r: Self)
        ensures
            r.wf(),
            r.is_zero(),
    {
        Attestation {
            aggregation_bits: CustomBitList::<2048>::default(),
            data: AttestationData::default(),
            signature: FixedVector::<u8, 96>::zeroed(),
        }
    }
}

/// Two attestations by which validators contradict themselves.
#[derive(Clone, Debug, PartialEq, Eq)]
pub struct AttesterSlashing {
    pub attestation_1: IndexedAttestation,
    pub attestation_2: IndexedAttestation,
}

impl AttesterSlashing {
    /// Every field holds what its type asks for.
    pub open spec fn wf(&self) -> bool {
        self.attestation_1.wf() && self.attestation_2.wf()
    }

    /// Both attestations are empty and zero.
    pub open spec fn is_zero(&self) -> bool {
        self.attestation_1.is_zero() && self.attestation_2.is_zero()
    }

    /// Two variable fields.
    pub open spec fn layout() -> Seq<FieldKind> {
        seq![FieldKind::Variable, FieldKind::Variable]
    }

    /// The encodings of the fields, in declared order.
    pub open spec fn parts(&self) -> Seq<Seq<u8>> {
        seq![self.attestation_1.encoding(), self.attestation_2.encoding()]
    }

    /// The encoding of the record.
    pub open spec fn encoding(&self) -> Seq<u8> {
        container_bytes(Self::layout(), self.parts())
    }

    /// What is wrong with a buffer, if anything: the fault of the
    /// container itself, or else of the first attestation that is refused.
    pub open spec fn fault(bytes: Seq<u8>) -> Option<DecodeError> {
        match container_fields(Self::layout(), bytes) {
            Err(e) => Some(e),
            Ok(fields) => if IndexedAttestation::fault(fields[0]) is Some {
                IndexedAttestation::fault(fields[0])
            } else {
                IndexedAttestation::fault(fields[1])
            },
        }
    }

    /// The record is what the buffer holds: each attestation is what its
    /// bytes decode to.
    pub open spec fn decoded_from(&self, bytes: Seq<u8>) -> bool {
        let fields = container_fields(Self::layout(), bytes)->Ok_0;
        &&& container_fields(Self::layout(), bytes) is Ok
        &&& self.attestation_1.decoded_from(fields[0])
        &&& self.attestation_2.decoded_from(fields[1])
    }

    /// The fixed region has the eight bytes of two offset slots.
    pub proof fn lemma_layout()
        ensures
            fixed_len(Self::layout()) == 8,
            has_variable(Self::layout()),
            Self::layout().len() == 2,
    {
        reveal_with_fuel(fixed_len_upto, 3);
        assert(Self::layout()[0] is Variable);
    }

    /// The fields' encodings fit the layout and stay far below what an
    /// offset can hold.
    pub proof fn lemma_parts(v: &AttesterSlashing)
        requires
            v.wf(),
        ensures
            parts_fit(Self::layout(), v.parts()),
            var_len_upto(Self::layout(), v.parts(), 2) <= 33224,
    {
        reveal_with_fuel(var_len_upto, 3);
        IndexedAttestation::lemma_parts(&v.attestation_1);
        IndexedAttestation::lemma_parts(&v.attestation_2);
    }

    /// Decoding the encoding of a record finds no fault and gives every
    /// field again.
    #[verifier::rlimit(60)]
    #[verifier::spinoff_prover]
    pub proof fn lemma_round_trip(v: &AttesterSlashing)
        requires
            v.wf(),
        ensures
            Self::fault(v.encoding()) is None,
            container_fields(Self::layout(), v.encoding()) == Ok::<Seq<Seq<u8>>, DecodeError>(
                v.parts(),
            ),
            v.decoded_from(v.encoding()),
    {
        assert(container_fields(Self::layout(), v.encoding()) == Ok::<Seq<Seq<u8>>, DecodeError>(
            v.parts(),
        )) by {
            Self::lemma_parts(v);
            Self::lemma_layout();
            lemma_pow256_four();
            lemma_container_round_trip(Self::layout(), v.parts());
        }
        IndexedAttestation::lemma_round_trip(&v.attestation_1);
        IndexedAttestation::lemma_round_trip(&v.attestation_2);
    }

    /// Whether every field holds what its type asks for.
    pub fn is_valid(&self) -> (r: bool)
        ensures
            r == self.wf(),
    {
        self.attestation_1.is_valid() && self.attestation_2.is_valid()
    }

    /// The size of the encoding depends on the value.
    pub fn is_fixed_size() -> (r: bool)
        ensures
            !r,
    {
        false
    }

    /// The kinds of the fields, in declared order.
    pub fn field_kinds() -> (r: Vec<FieldKind>)
        ensures
            r@ == Self::layout(),
    {
        let r: Vec<FieldKind> = vec![FieldKind::Variable, FieldKind::Variable];
        assert(r@ =~= Self::layout());
        r
    }

    /// Encodes the two offsets, then the two attestations.
    pub fn encode(&self) -> (out: Vec<u8>)
        requires
            self.wf(),
        ensures
            out@ == self.encoding(),
    {
        proof {
            Self::lemma_parts(self);
            Self::lemma_layout();
        }
        let layout: Vec<FieldKind> = Self::field_kinds();
        let parts: Vec<Vec<u8>> = vec![self.attestation_1.encode(), self.attestation_2.encode()];
        assert(byte_views(parts@) =~= self.parts());
        encode_container(&layout, &parts)
    }

    /// Decodes a record: splits the buffer by the two offsets, then decodes
    /// each attestation from its bytes.
    #[verifier::rlimit(60)]
    #[verifier::spinoff_prover]
    pub fn decode(bytes: &[u8]) -> (r: Result<AttesterSlashing, DecodeError>)
        ensures
            match r {
                Ok(v) => v.wf() && Self::fault(bytes@) is None && v.decoded_from(bytes@),
                Err(e) => Self::fault(bytes@) == Some(e),
            },
    {
        let layout: Vec<FieldKind> = Self::field_kinds();
        let parts: Vec<Vec<u8>> = match decode_container(&layout, bytes) {
            Ok(parts) => parts,
            Err(e) => {
                return Err(e);
            },
        };
        let ghost fields = byte_views(parts@);
        assert(fields.len() == 2 && parts@.len() == 2);
        assert(fields[0] == parts@[0]@ && fields[1] == parts@[1]@);
        let attestation_1: IndexedAttestation = match IndexedAttestation::decode(
            parts[0].as_slice(),
        ) {
            Ok(x) => x,
            Err(e) => {
                return Err(e);
            },
        };
        let attestation_2: IndexedAttestation = match IndexedAttestation::decode(
            parts[1].as_slice(),
        ) {
            Ok(x) => x,
            Err(e) => {
                return Err(e);
            },
        };
        Ok(AttesterSlashing { attestation_1, attestation_2 })
    }
}

impl Default for AttesterSlashing {
    /// The record of two empty attestations.
    fn default() -> (r: Self)
        ensures
            r.wf(),
            r.is_zero(),
    {
        AttesterSlashing {
            attestation_1: IndexedAttestation::default(),
            attestation_2: IndexedAttestation::default(),
        }
    }
}
} // verus!
