use vstd::prelude::*;
use crate::container::{
    byte_views, container_bytes, container_fields, decode_container, encode_container, fixed_len,
    fixed_len_upto, has_variable, parts_fit, FieldKind,
};
use crate::container_proofs::{
    lemma_container_round_trip, lemma_fixed_container_canonical, lemma_fixed_container_len,
    lemma_no_variable_len,
};
use crate::error::DecodeError;
use crate::vector::FixedVector;
use crate::primitive::{
    decode_uint, encode_uint, le_bytes, lemma_le_bytes_len, lemma_le_bytes_of_value,
    lemma_pow256_eight, lemma_pow256_four,
};

verus! {

/// What the chain knows of the deposit contract.
#[derive(Clone, Debug, PartialEq, Eq)]
pub struct Eth1Data {
    pub deposit_root: FixedVector<u8, 32>,
    pub deposit_count: u64,
    pub block_hash: FixedVector<u8, 32>,
}

impl Eth1Data {
    /// Every field holds what its type asks for.
    pub open spec fn wf(&self) -> bool {
        self.deposit_root.wf()
        && self.block_hash.wf()
    }

    /// Every field is zero.
    pub open spec fn is_zero(&self) -> bool {
        (forall|i: int| 0 <= i < self.deposit_root@.len() ==> #[trigger] self.deposit_root@[i] == 0)
        && self.deposit_count == 0
        && (forall|i: int| 0 <= i < self.block_hash@.len() ==> #[trigger] self.block_hash@[i] == 0)
    }

    /// The fields are all fixed in size; these are their widths.
    pub open spec fn layout() -> Seq<FieldKind> {
        seq![
            FieldKind::Fixed(32),
            FieldKind::Fixed(8),
            FieldKind::Fixed(32),
        ]
    }

    /// The encodings of the fields, in declared order.
    pub open spec fn parts(&self) -> Seq<Seq<u8>> {
        seq![
            self.deposit_root@,
            le_bytes(self.deposit_count as nat, 8),
            self.block_hash@,
        ]
    }

    /// The encoding of the record.
    pub open spec fn encoding(&self) -> Seq<u8> {
        container_bytes(Self::layout(), self.parts())
    }

    /// What is wrong with a buffer, if anything: the fault of the
    /// container itself, or else of the first field that is refused.
    pub open spec fn fault(bytes: Seq<u8>) -> Option<DecodeError> {
        match container_fields(Self::layout(), bytes) {
            Err(e) => Some(e),
            Ok(_) => None,
        }
    }

    /// The fixed region has 72 bytes, and no field is variable.
    pub proof fn lemma_layout()
        ensures
            fixed_len(Self::layout()) == 72,
            !has_variable(Self::layout()),
            Self::layout().len() == 3,
    {
        reveal_with_fuel(fixed_len_upto, 4);
    }

    /// The fields' encodings fit the layout, and the encoding has 72
    /// bytes.
    pub proof fn lemma_parts(v: &Eth1Data)
        requires
            v.wf(),
        ensures
            parts_fit(Self::layout(), v.parts()),
            v.encoding().len() == 72,
    {
        Self::lemma_layout();
        lemma_le_bytes_len(v.deposit_count as nat, 8);
        lemma_fixed_container_len(Self::layout(), v.parts());
    }

    /// Decoding the encoding of a record finds no fault and gives the
    /// fields again.
    #[verifier::rlimit(60)]
    #[verifier::spinoff_prover]
    pub proof fn lemma_round_trip(v: &Eth1Data)
        requires
            v.wf(),
        ensures
            Self::fault(v.encoding()) is None,
            container_fields(Self::layout(), v.encoding()) == Ok::<Seq<Seq<u8>>, DecodeError>(
                v.parts(),
            ),
    {
        Self::lemma_parts(v);
        Self::lemma_layout();
        lemma_no_variable_len(Self::layout(), v.parts(), 3);
        lemma_pow256_four();
        lemma_container_round_trip(Self::layout(), v.parts());
    }

    /// Whether every field holds what its type asks for.
    pub fn is_valid(&self) -> (r: bool)
        ensures
            r == self.wf(),
    {
        self.deposit_root.len() == 32
            && self.block_hash.len() == 32
    }

    /// The record always takes the same number of bytes.
    pub fn is_fixed_size() -> (r: bool)
        ensures
            r,
    {
        true
    }

    /// The number of bytes that the encoding takes.
    pub fn fixed_byte_width() -> (r: usize)
        ensures
            r == fixed_len(Self::layout()),
    {
        proof {
            Self::lemma_layout();
        }
        72
    }

    /// The kinds of the fields, in declared order.
    pub fn field_kinds() -> (r: Vec<FieldKind>)
        ensures
            r@ == Self::layout(),
    {
        let r: Vec<FieldKind> = vec![
            FieldKind::Fixed(32),
            FieldKind::Fixed(8),
            FieldKind::Fixed(32),
        ];
        assert(r@ =~= Self::layout());
        r
    }

    /// Encodes the fields in declared order.
    pub fn encode(&self) -> (out: Vec<u8>)
        requires
            self.wf(),
        ensures
            out@ == self.encoding(),
            out@.len() == 72,
    {
        proof {
            lemma_pow256_eight();
            Self::lemma_parts(self);
            Self::lemma_layout();
            lemma_no_variable_len(Self::layout(), self.parts(), 3);
        }
        let layout: Vec<FieldKind> = Self::field_kinds();
        let parts: Vec<Vec<u8>> = vec![
            self.deposit_root.encode(),
            encode_uint(self.deposit_count, 8),
            self.block_hash.encode(),
        ];
        assert(byte_views(parts@) =~= self.parts());
        encode_container(&layout, &parts)
    }

    /// Decodes a record from a buffer of exactly 72 bytes.
    #[verifier::rlimit(60)]
    #[verifier::spinoff_prover]
    pub fn decode(bytes: &[u8]) -> (r: Result<Eth1Data, DecodeError>)
        ensures
            match r {
                Ok(v) => v.wf() && Self::fault(bytes@) is None && v.encoding() == bytes@
                    && container_fields(Self::layout(), bytes@) == Ok::<Seq<Seq<u8>>, DecodeError>(
                    v.parts(),
                ),
                Err(e) => Self::fault(bytes@) == Some(e),
            },
    {
        let layout: Vec<FieldKind> = Self::field_kinds();
        proof {
            Self::lemma_layout();
        }
        let parts: Vec<Vec<u8>> = match decode_container(&layout, bytes) {
            Ok(parts) => parts,
            Err(e) => {
                return Err(e);
            },
        };
        let ghost fields = byte_views(parts@);
        assert(fields.len() == 3 && parts@.len() == 3);
        assert(fields[0] == parts@[0]@ && fields[0].len() == 32);
        assert(fields[1] == parts@[1]@ && fields[1].len() == 8);
        assert(fields[1].subrange(0, 8) =~= fields[1]);
        assert(fields[2] == parts@[2]@ && fields[2].len() == 32);
        let deposit_root: FixedVector<u8, 32> = match FixedVector::<u8, 32>::decode(parts[0].as_slice()) {
            Ok(x) => x,
            Err(e) => {
                return Err(e);
            },
        };
        let deposit_count: u64 = match decode_uint(parts[1].as_slice(), 8) {
            Ok(x) => x,
            Err(e) => {
                return Err(e);
            },
        };
        let block_hash: FixedVector<u8, 32> = match FixedVector::<u8, 32>::decode(parts[2].as_slice()) {
            Ok(x) => x,
            Err(e) => {
                return Err(e);
            },
        };
        let v = Eth1Data { deposit_root, deposit_count, block_hash };
        proof {
            lemma_pow256_eight();
            lemma_le_bytes_of_value(fields[1]);
            assert(v.parts() =~= fields);
            lemma_fixed_container_canonical(Self::layout(), bytes@);
        }
        Ok(v)
    }
}

impl Default for Eth1Data {
    /// The record whose every field is zero.
    fn default() -> (r: Self)
        ensures
            r.wf(),
            r.is_zero(),
    {
        Eth1Data {
            deposit_root: FixedVector::<u8, 32>::zeroed(),
            deposit_count: 0,
            block_hash: FixedVector::<u8, 32>::zeroed(),
        }
    }
}

/// A block with its body replaced by the body's root.
#[derive(Clone, Debug, PartialEq, Eq)]
pub struct BeaconBlockHeader {
    pub slot: u64,
    pub proposer_index: u64,
    pub parent_root: FixedVector<u8, 32>,
    pub state_root: FixedVector<u8, 32>,
    pub body_root: FixedVector<u8, 32>,
}

impl BeaconBlockHeader {
    /// Every field holds what its type asks for.
    pub open spec fn wf(&self) -> bool {
        self.parent_root.wf()
        && self.state_root.wf()
        && self.body_root.wf()
    }

    /// Every field is zero.
    pub open spec fn is_zero(&self) -> bool {
        self.slot == 0
        && self.proposer_index == 0
        && (forall|i: int| 0 <= i < self.parent_root@.len() ==> #[trigger] self.parent_root@[i] == 0)
        && (forall|i: int| 0 <= i < self.state_root@.len() ==> #[trigger] self.state_root@[i] == 0)
        && (forall|i: int| 0 <= i < self.body_root@.len() ==> #[trigger] self.body_root@[i] == 0)
    }

    /// The fields are all fixed in size; these are their widths.
    pub open spec fn layout() -> Seq<FieldKind> {
        seq![
            FieldKind::Fixed(8),
            FieldKind::Fixed(8),
            FieldKind::Fixed(32),
            FieldKind::Fixed(32),
            FieldKind::Fixed(32),
        ]
    }

    /// The encodings of the fields, in declared order.
    pub open spec fn parts(&self) -> Seq<Seq<u8>> {
        seq![
            le_bytes(self.slot as nat, 8),
            le_bytes(self.proposer_index as nat, 8),
            self.parent_root@,
            self.state_root@,
            self.body_root@,
        ]
    }

    /// The encoding of the record.
    pub open spec fn encoding(&self) -> Seq<u8> {
        container_bytes(Self::layout(), self.parts())
    }

    /// What is wrong with a buffer, if anything: the fault of the
    /// container itself, or else of the first field that is refused.
    pub open spec fn fault(bytes: Seq<u8>) -> Option<DecodeError> {
        match container_fields(Self::layout(), bytes) {
            Err(e) => Some(e),
            Ok(_) => None,
        }
    }

    /// The fixed region has 112 bytes, and no field is variable.
    pub proof fn lemma_layout()
        ensures
            fixed_len(Self::layout()) == 112,
            !has_variable(Self::layout()),
            Self::layout().len() == 5,
    {
        reveal_with_fuel(fixed_len_upto, 6);
    }

    /// The fields' encodings fit the layout, and the encoding has 112
    /// bytes.
    pub proof fn lemma_parts(v: &BeaconBlockHeader)
        requires
            v.wf(),
        ensures
            parts_fit(Self::layout(), v.parts()),
            v.encoding().len() == 112,
    {
        Self::lemma_layout();
        lemma_le_bytes_len(v.slot as nat, 8);
        lemma_le_bytes_len(v.proposer_index as nat, 8);
        lemma_fixed_container_len(Self::layout(), v.parts());
    }

    /// Decoding the encoding of a record finds no fault and gives the
    /// fields again.
    #[verifier::rlimit(60)]
    #[verifier::spinoff_prover]
    pub proof fn lemma_round_trip(v: &BeaconBlockHeader)
        requires
            v.wf(),
        ensures
            Self::fault(v.encoding()) is None,
            container_fields(Self::layout(), v.encoding()) == Ok::<Seq<Seq<u8>>, DecodeError>(
                v.parts(),
            ),
    {
        Self::lemma_parts(v);
        Self::lemma_layout();
        lemma_no_variable_len(Self::layout(), v.parts(), 5);
        lemma_pow256_four();
        lemma_container_round_trip(Self::layout(), v.parts());
    }

    /// Whether every field holds what its type asks for.
    pub fn is_valid(&self) -> (r: bool)
        ensures
            r == self.wf(),
    {
        self.parent_root.len() == 32
            && self.state_root.len() == 32
            && self.body_root.len() == 32
    }

    /// The record always takes the same number of bytes.
    pub fn is_fixed_size() -> (r: bool)
        ensures
            r,
    {
        true
    }

    /// The number of bytes that the encoding takes.
    pub fn fixed_byte_width() -> (r: usize)
        ensures
            r == fixed_len(Self::layout()),
    {
        proof {
            Self::lemma_layout();
        }
        112
    }

    /// The kinds of the fields, in declared order.
    pub fn field_kinds() -> (r: Vec<FieldKind>)
        ensures
            r@ == Self::layout(),
    {
        let r: Vec<FieldKind> = vec![
            FieldKind::Fixed(8),
            FieldKind::Fixed(8),
            FieldKind::Fixed(32),
            FieldKind::Fixed(32),
            FieldKind::Fixed(32),
        ];
        assert(r@ =~= Self::layout());
        r
    }

    /// Encodes the fields in declared order.
    pub fn encode(&self) -> (out: Vec<u8>)
        requires
            self.wf(),
        ensures
            out@ == self.encoding(),
            out@.len() == 112,
    {
        proof {
            lemma_pow256_eight();
            Self::lemma_parts(self);
            Self::lemma_layout();
            lemma_no_variable_len(Self::layout(), self.parts(), 5);
        }
        let layout: Vec<FieldKind> = Self::field_kinds();
        let parts: Vec<Vec<u8>> = vec![
            encode_uint(self.slot, 8),
            encode_uint(self.proposer_index, 8),
            self.parent_root.encode(),
            self.state_root.encode(),
            self.body_root.encode(),
        ];
        assert(byte_views(parts@) =~= self.parts());
        encode_container(&layout, &parts)
    }

    /// Decodes a record from a buffer of exactly 112 bytes.
    #[verifier::rlimit(60)]
    #[verifier::spinoff_prover]
    pub fn decode(bytes: &[u8]) -> (r: Result<BeaconBlockHeader, DecodeError>)
        ensures
            match r {
                Ok(v) => v.wf() && Self::fault(bytes@) is None && v.encoding() == bytes@
                    && container_fields(Self::layout(), bytes@) == Ok::<Seq<Seq<u8>>, DecodeError>(
                    v.parts(),
                ),
                Err(e) => Self::fault(bytes@) == Some(e),
            },
    {
        let layout: Vec<FieldKind> = Self::field_kinds();
        proof {
            Self::lemma_layout();
        }
        let parts: Vec<Vec<u8>> = match decode_container(&layout, bytes) {
            Ok(parts) => parts,
            Err(e) => {
                return Err(e);
            },
        };
        let ghost fields = byte_views(parts@);
        assert(fields.len() == 5 && parts@.len() == 5);
        assert(fields[0] == parts@[0]@ && fields[0].len() == 8);
        assert(fields[0].subrange(0, 8) =~= fields[0]);
        assert(fields[1] == parts@[1]@ && fields[1].len() == 8);
        assert(fields[1].subrange(0, 8) =~= fields[1]);
        assert(fields[2] == parts@[2]@ && fields[2].len() == 32);
        assert(fields[3] == parts@[3]@ && fields[3].len() == 32);
        assert(fields[4] == parts@[4]@ && fields[4].len() == 32);
        let slot: u64 = match decode_uint(parts[0].as_slice(), 8) {
            Ok(x) => x,
            Err(e) => {
                return Err(e);
            },
        };
        let proposer_index: u64 = match decode_uint(parts[1].as_slice(), 8) {
            Ok(x) => x,
            Err(e) => {
                return Err(e);
            },
        };
        let parent_root: FixedVector<u8, 32> = match FixedVector::<u8, 32>::decode(parts[2].as_slice()) {
            Ok(x) => x,
            Err(e) => {
                return Err(e);
            },
        };
        let state_root: FixedVector<u8, 32> = match FixedVector::<u8, 32>::decode(parts[3].as_slice()) {
            Ok(x) => x,
            Err(e) => {
                return Err(e);
            },
        };
        let body_root: FixedVector<u8, 32> = match FixedVector::<u8, 32>::decode(parts[4].as_slice()) {
            Ok(x) => x,
            Err(e) => {
                return Err(e);
            },
        };
        let v = BeaconBlockHeader { slot, proposer_index, parent_root, state_root, body_root };
        proof {
            lemma_pow256_eight();
            lemma_le_bytes_of_value(fields[0]);
            lemma_le_bytes_of_value(fields[1]);
            assert(v.parts() =~= fields);
            lemma_fixed_container_canonical(Self::layout(), bytes@);
        }
        Ok(v)
    }
}

impl Default for BeaconBlockHeader {
    /// The record whose every field is zero.
    fn default() -> (r: Self)
        ensures
            r.wf(),
            r.is_zero(),
    {
        BeaconBlockHeader {
            slot: 0,
            proposer_index: 0,
            parent_root: FixedVector::<u8, 32>::zeroed(),
            state_root: FixedVector::<u8, 32>::zeroed(),
            body_root: FixedVector::<u8, 32>::zeroed(),
        }
    }
}

/// A block header with the proposer's signature.
#[derive(Clone, Debug, PartialEq, Eq)]
pub struct SignedBeaconBlockHeader {
    pub message: BeaconBlockHeader,
    pub signature: FixedVector<u8, 96>,
}

impl SignedBeaconBlockHeader {
    /// Every field holds what its type asks for.
    pub open spec fn wf(&self) -> bool {
        self.message.wf()
        && self.signature.wf()
    }

    /// Every field is zero.
    pub open spec fn is_zero(&self) -> bool {
        self.message.is_zero()
        && (forall|i: int| 0 <= i < self.signature@.len() ==> #[trigger] self.signature@[i] == 0)
    }

    /// The fields are all fixed in size; these are their widths.
    pub open spec fn layout() -> Seq<FieldKind> {
        seq![
            FieldKind::Fixed(112),
            FieldKind::Fixed(96),
        ]
    }

    /// The encodings of the fields, in declared order.
    pub open spec fn parts(&self) -> Seq<Seq<u8>> {
        seq![
            self.message.encoding(),
            self.signature@,
        ]
    }

    /// The encoding of the record.
    pub open spec fn encoding(&self) -> Seq<u8> {
        container_bytes(Self::layout(), self.parts())
    }

    /// What is wrong with a buffer, if anything: the fault of the
    /// container itself, or else of the first field that is refused.
    pub open spec fn fault(bytes: Seq<u8>) -> Option<DecodeError> {
        match container_fields(Self::layout(), bytes) {
            Err(e) => Some(e),
            Ok(fields) => if BeaconBlockHeader::fault(fields[0]) is Some { BeaconBlockHeader::fault(fields[0]) } else { None },
        }
    }

    /// The fixed region has 208 bytes, and no field is variable.
    pub proof fn lemma_layout()
        ensures
            fixed_len(Self::layout()) == 208,
            !has_variable(Self::layout()),
            Self::layout().len() == 2,
    {
        reveal_with_fuel(fixed_len_upto, 3);
    }

    /// The fields' encodings fit the layout, and the encoding has 208
    /// bytes.
    pub proof fn lemma_parts(v: &SignedBeaconBlockHeader)
        requires
            v.wf(),
        ensures
            parts_fit(Self::layout(), v.parts()),
            v.encoding().len() == 208,
    {
        Self::lemma_layout();
        BeaconBlockHeader::lemma_parts(&v.message);
        lemma_fixed_container_len(Self::layout(), v.parts());
    }

    /// Decoding the encoding of a record finds no fault and gives the
    /// fields again.
    #[verifier::rlimit(60)]
    #[verifier::spinoff_prover]
    pub proof fn lemma_round_trip(v: &SignedBeaconBlockHeader)
        requires
            v.wf(),
        ensures
            Self::fault(v.encoding()) is None,
            container_fields(Self::layout(), v.encoding()) == Ok::<Seq<Seq<u8>>, DecodeError>(
                v.parts(),
            ),
    {
        Self::lemma_parts(v);
        Self::lemma_layout();
        lemma_no_variable_len(Self::layout(), v.parts(), 2);
        lemma_pow256_four();
        lemma_container_round_trip(Self::layout(), v.parts());
        BeaconBlockHeader::lemma_round_trip(&v.message);
    }

    /// Whether every field holds what its type asks for.
    pub fn is_valid(&self) -> (r: bool)
        ensures
            r == self.wf(),
    {
        self.message.is_valid()
            && self.signature.len() == 96
    }

    /// The record always takes the same number of bytes.
    pub fn is_fixed_size() -> (r: bool)
        ensures
            r,
    {
        true
    }

    /// The number of bytes that the encoding takes.
    pub fn fixed_byte_width() -> (r: usize)
        ensures
            r == fixed_len(Self::layout()),
    {
        proof {
            Self::lemma_layout();
        }
        208
    }

    /// The kinds of the fields, in declared order.
    pub fn field_kinds() -> (r: Vec<FieldKind>)
        ensures
            r@ == Self::layout(),
    {
        let r: Vec<FieldKind> = vec![
            FieldKind::Fixed(112),
            FieldKind::Fixed(96),
        ];
        assert(r@ =~= Self::layout());
        r
    }

    /// Encodes the fields in declared order.
    pub fn encode(&self) -> (out: Vec<u8>)
        requires
            self.wf(),
        ensures
            out@ == self.encoding(),
            out@.len() == 208,
    {
        proof {
            lemma_pow256_eight();
            Self::lemma_parts(self);
            Self::lemma_layout();
            lemma_no_variable_len(Self::layout(), self.parts(), 2);
        }
        let layout: Vec<FieldKind> = Self::field_kinds();
        let parts: Vec<Vec<u8>> = vec![
            self.message.encode(),
            self.signature.encode(),
        ];
        assert(byte_views(parts@) =~= self.parts());
        encode_container(&layout, &parts)
    }

    /// Decodes a record from a buffer of exactly 208 bytes.
    #[verifier::rlimit(60)]
    #[verifier::spinoff_prover]
    pub fn decode(bytes: &[u8]) -> (r: Result<SignedBeaconBlockHeader, DecodeError>)
        ensures
            match r {
                Ok(v) => v.wf() && Self::fault(bytes@) is None && v.encoding() == bytes@
                    && container_fields(Self::layout(), bytes@) == Ok::<Seq<Seq<u8>>, DecodeError>(
                    v.parts(),
                ),
                Err(e) => Self::fault(bytes@) == Some(e),
            },
    {
        let layout: Vec<FieldKind> = Self::field_kinds();
        proof {
            Self::lemma_layout();
        }
        let parts: Vec<Vec<u8>> = match decode_container(&layout, bytes) {
            Ok(parts) => parts,
            Err(e) => {
                return Err(e);
            },
        };
        let ghost fields = byte_views(parts@);
        assert(fields.len() == 2 && parts@.len() == 2);
        assert(fields[0] == parts@[0]@ && fields[0].len() == 112);
        assert(fields[1] == parts@[1]@ && fields[1].len() == 96);
        let message: BeaconBlockHeader = match BeaconBlockHeader::decode(parts[0].as_slice()) {
            Ok(x) => x,
            Err(e) => {
                return Err(e);
            },
        };
        let signature: FixedVector<u8, 96> = match FixedVector::<u8, 96>::decode(parts[1].as_slice()) {
            Ok(x) => x,
            Err(e) => {
                return Err(e);
            },
        };
        let v = SignedBeaconBlockHeader { message, signature };
        proof {
            lemma_pow256_eight();
            assert(v.parts() =~= fields);
            lemma_fixed_container_canonical(Self::layout(), bytes@);
        }
        Ok(v)
    }
}

impl Default for SignedBeaconBlockHeader {
    /// The record whose every field is zero.
    fn default() -> (r: Self)
        ensures
            r.wf(),
            r.is_zero(),
    {
        SignedBeaconBlockHeader {
            message: BeaconBlockHeader::default(),
            signature: FixedVector::<u8, 96>::zeroed(),
        }
    }
}

/// Two signed headers by which a proposer contradicts itself.
#[derive(Clone, Debug, PartialEq, Eq)]
pub struct ProposerSlashing {
    pub signed_header_1: SignedBeaconBlockHeader,
    pub signed_header_2: SignedBeaconBlockHeader,
}

impl ProposerSlashing {
    /// Every field holds what its type asks for.
    pub open spec fn wf(&self) -> bool {
        self.signed_header_1.wf()
        && self.signed_header_2.wf()
    }

    /// Every field is zero.
    pub open spec fn is_zero(&self) -> bool {
        self.signed_header_1.is_zero()
        && self.signed_header_2.is_zero()
    }

    /// The fields are all fixed in size; these are their widths.
    pub open spec fn layout() -> Seq<FieldKind> {
        seq![
            FieldKind::Fixed(208),
            FieldKind::Fixed(208),
        ]
    }

    /// The encodings of the fields, in declared order.
    pub open spec fn parts(&self) -> Seq<Seq<u8>> {
        seq![
            self.signed_header_1.encoding(),
            self.signed_header_2.encoding(),
        ]
    }

    /// The encoding of the record.
    pub open spec fn encoding(&self) -> Seq<u8> {
        container_bytes(Self::layout(), self.parts())
    }

    /// What is wrong with a buffer, if anything: the fault of the
    /// container itself, or else of the first field that is refused.
    pub open spec fn fault(bytes: Seq<u8>) -> Option<DecodeError> {
        match container_fields(Self::layout(), bytes) {
            Err(e) => Some(e),
            Ok(fields) => if SignedBeaconBlockHeader::fault(fields[0]) is Some { SignedBeaconBlockHeader::fault(fields[0]) } else { if SignedBeaconBlockHeader::fault(fields[1]) is Some { SignedBeaconBlockHeader::fault(fields[1]) } else { None } },
        }
    }

    /// The fixed region has 416 bytes, and no field is variable.
    pub proof fn lemma_layout()
        ensures
            fixed_len(Self::layout()) == 416,
            !has_variable(Self::layout()),
            Self::layout().len() == 2,
    {
        reveal_with_fuel(fixed_len_upto, 3);
    }

    /// The fields' encodings fit the layout, and the encoding has 416
    /// bytes.
    pub proof fn lemma_parts(v: &ProposerSlashing)
        requires
            v.wf(),
        ensures
            parts_fit(Self::layout(), v.parts()),
            v.encoding().len() == 416,
    {
        Self::lemma_layout();
        SignedBeaconBlockHeader::lemma_parts(&v.signed_header_1);
        SignedBeaconBlockHeader::lemma_parts(&v.signed_header_2);
        lemma_fixed_container_len(Self::layout(), v.parts());
    }

    /// Decoding the encoding of a record finds no fault and gives the
    /// fields again.
    #[verifier::rlimit(60)]
    #[verifier::spinoff_prover]
    pub proof fn lemma_round_trip(v: &ProposerSlashing)
        requires
            v.wf(),
        ensures
            Self::fault(v.encoding()) is None,
            container_fields(Self::layout(), v.encoding()) == Ok::<Seq<Seq<u8>>, DecodeError>(
                v.parts(),
            ),
    {
        Self::lemma_parts(v);
        Self::lemma_layout();
        lemma_no_variable_len(Self::layout(), v.parts(), 2);
        lemma_pow256_four();
        lemma_container_round_trip(Self::layout(), v.parts());
        SignedBeaconBlockHeader::lemma_round_trip(&v.signed_header_1);
        SignedBeaconBlockHeader::lemma_round_trip(&v.signed_header_2);
    }

    /// Whether every field holds what its type asks for.
    pub fn is_valid(&self) -> (r: bool)
        ensures
            r == self.wf(),
    {
        self.signed_header_1.is_valid()
            && self.signed_header_2.is_valid()
    }

    /// The record always takes the same number of bytes.
    pub fn is_fixed_size() -> (r: bool)
        ensures
            r,
    {
        true
    }

    /// The number of bytes that the encoding takes.
    pub fn fixed_byte_width() -> (r: usize)
        ensures
            r == fixed_len(Self::layout()),
    {
        proof {
            Self::lemma_layout();
        }
        416
    }

    /// The kinds of the fields, in declared order.
    pub fn field_kinds() -> (r: Vec<FieldKind>)
        ensures
            r@ == Self::layout(),
    {
        let r: Vec<FieldKind> = vec![
            FieldKind::Fixed(208),
            FieldKind::Fixed(208),
        ];
        assert(r@ =~= Self::layout());
        r
    }

    /// Encodes the fields in declared order.
    pub fn encode(&self) -> (out: Vec<u8>)
        requires
            self.wf(),
        ensures
            out@ == self.encoding(),
            out@.len() == 416,
    {
        proof {
            lemma_pow256_eight();
            Self::lemma_parts(self);
            Self::lemma_layout();
            lemma_no_variable_len(Self::layout(), self.parts(), 2);
        }
        let layout: Vec<FieldKind> = Self::field_kinds();
        let parts: Vec<Vec<u8>> = vec![
            self.signed_header_1.encode(),
            self.signed_header_2.encode(),
        ];
        assert(byte_views(parts@) =~= self.parts());
        encode_container(&layout, &parts)
    }

    /// Decodes a record from a buffer of exactly 416 bytes.
    #[verifier::rlimit(60)]
    #[verifier::spinoff_prover]
    pub fn decode(bytes: &[u8]) -> (r: Result<ProposerSlashing, DecodeError>)
        ensures
            match r {
                Ok(v) => v.wf() && Self::fault(bytes@) is None && v.encoding() == bytes@
                    && container_fields(Self::layout(), bytes@) == Ok::<Seq<Seq<u8>>, DecodeError>(
                    v.parts(),
                ),
                Err(e) => Self::fault(bytes@) == Some(e),
            },
    {
        let layout: Vec<FieldKind> = Self::field_kinds();
        proof {
            Self::lemma_layout();
        }
        let parts: Vec<Vec<u8>> = match decode_container(&layout, bytes) {
            Ok(parts) => parts,
            Err(e) => {
                return Err(e);
            },
        };
        let ghost fields = byte_views(parts@);
        assert(fields.len() == 2 && parts@.len() == 2);
        assert(fields[0] == parts@[0]@ && fields[0].len() == 208);
        assert(fields[1] == parts@[1]@ && fields[1].len() == 208);
        let signed_header_1: SignedBeaconBlockHeader = match SignedBeaconBlockHeader::decode(parts[0].as_slice()) {
            Ok(x) => x,
            Err(e) => {
                return Err(e);
            },
        };
        let signed_header_2: SignedBeaconBlockHeader = match SignedBeaconBlockHeader::decode(parts[1].as_slice()) {
            Ok(x) => x,
            Err(e) => {
                return Err(e);
            },
        };
        let v = ProposerSlashing { signed_header_1, signed_header_2 };
        proof {
            lemma_pow256_eight();
            assert(v.parts() =~= fields);
            lemma_fixed_container_canonical(Self::layout(), bytes@);
        }
        Ok(v)
    }
}

impl Default for ProposerSlashing {
    /// The record whose every field is zero.
    fn default() -> (r: Self)
        ensures
            r.wf(),
            r.is_zero(),
    {
        ProposerSlashing {
            signed_header_1: SignedBeaconBlockHeader::default(),
            signed_header_2: SignedBeaconBlockHeader::default(),
        }
    }
}
} // verus!
