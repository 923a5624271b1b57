use vstd::prelude::*;
use crate::container::{
    byte_views, container_bytes, container_fields, decode_container, encode_container, fixed_len,
    fixed_len_upto, has_variable, parts_fit, FieldKind,
};
use crate::container_proofs::{
    lemma_container_round_trip, lemma_fixed_container_canonical, lemma_fixed_container_len,
    lemma_no_variable_len,
};
use crate::error::DecodeError;
use crate::sequence::{
    concat, fixed_vector_fault, lemma_concat_len, lemma_concat_of_chunks,
    lemma_fixed_vector_round_trip, uniform,
};
use crate::vector::FixedVector;
use crate::primitive::{
    decode_uint, encode_uint, le_bytes, lemma_le_bytes_len, lemma_le_bytes_of_value,
    lemma_pow256_eight, lemma_pow256_four,
};

verus! {

/// A request of a validator to leave.
#[derive(Clone, Copy, Debug, PartialEq, Eq)]
pub struct VoluntaryExit {
    pub epoch: u64,
    pub validator_index: u64,
}

impl VoluntaryExit {
    /// Every field holds what its type asks for.
    pub open spec fn wf(&self) -> bool {
        true
    }

    /// Every field is zero.
    pub open spec fn is_zero(&self) -> bool {
        self.epoch == 0
        && self.validator_index == 0
    }

    /// The fields are all fixed in size; these are their widths.
    pub open spec fn layout() -> Seq<FieldKind> {
        seq![
            FieldKind::Fixed(8),
            FieldKind::Fixed(8),
        ]
    }

    /// The encodings of the fields, in declared order.
    pub open spec fn parts(&self) -> Seq<Seq<u8>> {
        seq![
            le_bytes(self.epoch as nat, 8),
            le_bytes(self.validator_index as nat, 8),
        ]
    }

    /// The encoding of the record.
    pub open spec fn encoding(&self) -> Seq<u8> {
        container_bytes(Self::layout(), self.parts())
    }

    /// What is wrong with a buffer, if anything: the fault of the
    /// container itself, or else of the first field that is refused.
    pub open spec fn fault(bytes: Seq<u8>) -> Option<DecodeError> {
        match container_fields(Self::layout(), bytes) {
            Err(e) => Some(e),
            Ok(_) => None,
        }
    }

    /// The fixed region has 16 bytes, and no field is variable.
    pub proof fn lemma_layout()
        ensures
            fixed_len(Self::layout()) == 16,
            !has_variable(Self::layout()),
            Self::layout().len() == 2,
    {
        reveal_with_fuel(fixed_len_upto, 3);
    }

    /// The fields' encodings fit the layout, and the encoding has 16
    /// bytes.
    pub proof fn lemma_parts(v: &VoluntaryExit)
        requires
            v.wf(),
        ensures
            parts_fit(Self::layout(), v.parts()),
            v.encoding().len() == 16,
    {
        Self::lemma_layout();
        lemma_le_bytes_len(v.epoch as nat, 8);
        lemma_le_bytes_len(v.validator_index as nat, 8);
        lemma_fixed_container_len(Self::layout(), v.parts());
    }

    /// Decoding the encoding of a record finds no fault and gives the
    /// fields again.
    #[verifier::rlimit(60)]
    #[verifier::spinoff_prover]
    pub proof fn lemma_round_trip(v: &VoluntaryExit)
        requires
            v.wf(),
        ensures
            Self::fault(v.encoding()) is None,
            container_fields(Self::layout(), v.encoding()) == Ok::<Seq<Seq<u8>>, DecodeError>(
                v.parts(),
            ),
    {
        Self::lemma_parts(v);
        Self::lemma_layout();
        lemma_no_variable_len(Self::layout(), v.parts(), 2);
        lemma_pow256_four();
        lemma_container_round_trip(Self::layout(), v.parts());
    }

    /// Whether every field holds what its type asks for.
    pub fn is_valid(&self) -> (r: bool)
        ensures
            r == self.wf(),
    {
        true
    }

    /// The record always takes the same number of bytes.
    pub fn is_fixed_size() -> (r: bool)
        ensures
            r,
    {
        true
    }

    /// The number of bytes that the encoding takes.
    pub fn fixed_byte_width() -> (r: usize)
        ensures
            r == fixed_len(Self::layout()),
    {
        proof {
            Self::lemma_layout();
        }
        16
    }

    /// The kinds of the fields, in declared order.
    pub fn field_kinds() -> (r: Vec<FieldKind>)
        ensures
            r@ == Self::layout(),
    {
        let r: Vec<FieldKind> = vec![
            FieldKind::Fixed(8),
            FieldKind::Fixed(8),
        ];
        assert(r@ =~= Self::layout());
        r
    }

    /// Encodes the fields in declared order.
    pub fn encode(&self) -> (out: Vec<u8>)
        requires
            self.wf(),
        ensures
            out@ == self.encoding(),
            out@.len() == 16,
    {
        proof {
            lemma_pow256_eight();
            Self::lemma_parts(self);
            Self::lemma_layout();
            lemma_no_variable_len(Self::layout(), self.parts(), 2);
        }
        let layout: Vec<FieldKind> = Self::field_kinds();
        let parts: Vec<Vec<u8>> = vec![
            encode_uint(self.epoch, 8),
            encode_uint(self.validator_index, 8),
        ];
        assert(byte_views(parts@) =~= self.parts());
        encode_container(&layout, &parts)
    }

    /// Decodes a record from a buffer of exactly 16 bytes.
    #[verifier::rlimit(60)]
    #[verifier::spinoff_prover]
    pub fn decode(bytes: &[u8]) -> (r: Result<VoluntaryExit, DecodeError>)
        ensures
            match r {
                Ok(v) => v.wf() && Self::fault(bytes@) is None && v.encoding() == bytes@
                    && container_fields(Self::layout(), bytes@) == Ok::<Seq<Seq<u8>>, DecodeError>(
                    v.parts(),
                ),
                Err(e) => Self::fault(bytes@) == Some(e),
            },
    {
        let layout: Vec<FieldKind> = Self::field_kinds();
        proof {
            Self::lemma_layout();
        }
        let parts: Vec<Vec<u8>> = match decode_container(&layout, bytes) {
            Ok(parts) => parts,
            Err(e) => {
                return Err(e);
            },
        };
        let ghost fields = byte_views(parts@);
        assert(fields.len() == 2 && parts@.len() == 2);
        assert(fields[0] == parts@[0]@ && fields[0].len() == 8);
        assert(fields[0].subrange(0, 8) =~= fields[0]);
        assert(fields[1] == parts@[1]@ && fields[1].len() == 8);
        assert(fields[1].subrange(0, 8) =~= fields[1]);
        let epoch: u64 = match decode_uint(parts[0].as_slice(), 8) {
            Ok(x) => x,
            Err(e) => {
                return Err(e);
            },
        };
        let validator_index: u64 = match decode_uint(parts[1].as_slice(), 8) {
            Ok(x) => x,
            Err(e) => {
                return Err(e);
            },
        };
        let v = VoluntaryExit { epoch, validator_index };
        proof {
            lemma_pow256_eight();
            lemma_le_bytes_of_value(fields[0]);
            lemma_le_bytes_of_value(fields[1]);
            assert(v.parts() =~= fields);
            lemma_fixed_container_canonical(Self::layout(), bytes@);
        }
        Ok(v)
    }
}

impl Default for VoluntaryExit {
    /// The record whose every field is zero.
    fn default() -> (r: Self)
        ensures
            r.wf(),
            r.is_zero(),
    {
        VoluntaryExit {
            epoch: 0,
            validator_index: 0,
        }
    }
}

/// A request to leave with the validator's signature.
#[derive(Clone, Debug, PartialEq, Eq)]
pub struct SignedVoluntaryExit {
    pub message: VoluntaryExit,
    pub signature: FixedVector<u8, 96>,
}

impl SignedVoluntaryExit {
    /// Every field holds what its type asks for.
    pub open spec fn wf(&self) -> bool {
        self.message.wf()
        && self.signature.wf()
    }

    /// Every field is zero.
    pub open spec fn is_zero(&self) -> bool {
        self.message.is_zero()
        && (forall|i: int| 0 <= i < self.signature@.len() ==> #[trigger] self.signature@[i] == 0)
    }

    /// The fields are all fixed in size; these are their widths.
    pub open spec fn layout() -> Seq<FieldKind> {
        seq![
            FieldKind::Fixed(16),
            FieldKind::Fixed(96),
        ]
    }

    /// The encodings of the fields, in declared order.
    pub open spec fn parts(&self) -> Seq<Seq<u8>> {
        seq![
            self.message.encoding(),
            self.signature@,
        ]
    }

    /// The encoding of the record.
    pub open spec fn encoding(&self) -> Seq<u8> {
        container_bytes(Self::layout(), self.parts())
    }

    /// What is wrong with a buffer, if anything: the fault of the
    /// container itself, or else of the first field that is refused.
    pub open spec fn fault(bytes: Seq<u8>) -> Option<DecodeError> {
        match container_fields(Self::layout(), bytes) {
            Err(e) => Some(e),
            Ok(fields) => if VoluntaryExit::fault(fields[0]) is Some { VoluntaryExit::fault(fields[0]) } else { None },
        }
    }

    /// The fixed region has 112 bytes, and no field is variable.
    pub proof fn lemma_layout()
        ensures
            fixed_len(Self::layout()) == 112,
            !has_variable(Self::layout()),
            Self::layout().len() == 2,
    {
        reveal_with_fuel(fixed_len_upto, 3);
    }

    /// The fields' encodings fit the layout, and the encoding has 112
    /// bytes.
    pub proof fn lemma_parts(v: &SignedVoluntaryExit)
        requires
            v.wf(),
        ensures
            parts_fit(Self::layout(), v.parts()),
            v.encoding().len() == 112,
    {
        Self::lemma_layout();
        VoluntaryExit::lemma_parts(&v.message);
        lemma_fixed_container_len(Self::layout(), v.parts());
    }

    /// Decoding the encoding of a record finds no fault and gives the
    /// fields again.
    #[verifier::rlimit(60)]
    #[verifier::spinoff_prover]
    pub proof fn lemma_round_trip(v: &SignedVoluntaryExit)
        requires
            v.wf(),
        ensures
            Self::fault(v.encoding()) is None,
            container_fields(Self::layout(), v.encoding()) == Ok::<Seq<Seq<u8>>, DecodeError>(
                v.parts(),
            ),
    {
        Self::lemma_parts(v);
        Self::lemma_layout();
        lemma_no_variable_len(Self::layout(), v.parts(), 2);
        lemma_pow256_four();
        lemma_container_round_trip(Self::layout(), v.parts());
        VoluntaryExit::lemma_round_trip(&v.message);
    }

    /// Whether every field holds what its type asks for.
    pub fn is_valid(&self) -> (r: bool)
        ensures
            r == self.wf(),
    {
        self.message.is_valid()
            && self.signature.len() == 96
    }

    /// The record always takes the same number of bytes.
    pub fn is_fixed_size() -> (r: bool)
        ensures
            r,
    {
        true
    }

    /// The number of bytes that the encoding takes.
    pub fn fixed_byte_width() -> (r: usize)
        ensures
            r == fixed_len(Self::layout()),
    {
        proof {
            Self::lemma_layout();
        }
        112
    }

    /// The kinds of the fields, in declared order.
    pub fn field_kinds() -> (r: Vec<FieldKind>)
        ensures
            r@ == Self::layout(),
    {
        let r: Vec<FieldKind> = vec![
            FieldKind::Fixed(16),
            FieldKind::Fixed(96),
        ];
        assert(r@ =~= Self::layout());
        r
    }

    /// Encodes the fields in declared order.
    pub fn encode(&self) -> (out: Vec<u8>)
        requires
            self.wf(),
        ensures
            out@ == self.encoding(),
            out@.len() == 112,
    {
        proof {
            lemma_pow256_eight();
            Self::lemma_parts(self);
            Self::lemma_layout();
            lemma_no_variable_len(Self::layout(), self.parts(), 2);
        }
        let layout: Vec<FieldKind> = Self::field_kinds();
        let parts: Vec<Vec<u8>> = vec![
            self.message.encode(),
            self.signature.encode(),
        ];
        assert(byte_views(parts@) =~= self.parts());
        encode_container(&layout, &parts)
    }

    /// Decodes a record from a buffer of exactly 112 bytes.
    #[verifier::rlimit(60)]
    #[verifier::spinoff_prover]
    pub fn decode(bytes: &[u8]) -> (r: Result<SignedVoluntaryExit, DecodeError>)
        ensures
            match r {
                Ok(v) => v.wf() && Self::fault(bytes@) is None && v.encoding() == bytes@
                    && container_fields(Self::layout(), bytes@) == Ok::<Seq<Seq<u8>>, DecodeError>(
                    v.parts(),
                ),
                Err(e) => Self::fault(bytes@) == Some(e),
            },
    {
        let layout: Vec<FieldKind> = Self::field_kinds();
        proof {
            Self::lemma_layout();
        }
        let parts: Vec<Vec<u8>> = match decode_container(&layout, bytes) {
            Ok(parts) => parts,
            Err(e) => {
                return Err(e);
            },
        };
        let ghost fields = byte_views(parts@);
        assert(fields.len() == 2 && parts@.len() == 2);
        assert(fields[0] == parts@[0]@ && fields[0].len() == 16);
        assert(fields[1] == parts@[1]@ && fields[1].len() == 96);
        let message: VoluntaryExit = match VoluntaryExit::decode(parts[0].as_slice()) {
            Ok(x) => x,
            Err(e) => {
                return Err(e);
            },
        };
        let signature: FixedVector<u8, 96> = match FixedVector::<u8, 96>::decode(parts[1].as_slice()) {
            Ok(x) => x,
            Err(e) => {
                return Err(e);
            },
        };
        let v = SignedVoluntaryExit { message, signature };
        proof {
            lemma_pow256_eight();
            assert(v.parts() =~= fields);
            lemma_fixed_container_canonical(Self::layout(), bytes@);
        }
        Ok(v)
    }
}

impl Default for SignedVoluntaryExit {
    /// The record whose every field is zero.
    fn default() -> (r: Self)
        ensures
            r.wf(),
            r.is_zero(),
    {
        SignedVoluntaryExit {
            message: VoluntaryExit::default(),
            signature: FixedVector::<u8, 96>::zeroed(),
        }
    }
}

/// What a deposit says: who deposits, for whom, and how much.
#[derive(Clone, Debug, PartialEq, Eq)]
pub struct DepositData {
    pub pubkey: FixedVector<u8, 48>,
    pub withdrawal_credentials: FixedVector<u8, 32>,
    pub amount: u64,
    pub signature: FixedVector<u8, 96>,
}

impl DepositData {
    /// Every field holds what its type asks for.
    pub open spec fn wf(&self) -> bool {
        self.pubkey.wf()
        && self.withdrawal_credentials.wf()
        && self.signature.wf()
    }

    /// Every field is zero.
    pub open spec fn is_zero(&self) -> bool {
        (forall|i: int| 0 <= i < self.pubkey@.len() ==> #[trigger] self.pubkey@[i] == 0)
        && (forall|i: int| 0 <= i < self.withdrawal_credentials@.len() ==> #[trigger] self.withdrawal_credentials@[i] == 0)
        && self.amount == 0
        && (forall|i: int| 0 <= i < self.signature@.len() ==> #[trigger] self.signature@[i] == 0)
    }

    /// The fields are all fixed in size; these are their widths.
    pub open spec fn layout() -> Seq<FieldKind> {
        seq![
            FieldKind::Fixed(48),
            FieldKind::Fixed(32),
            FieldKind::Fixed(8),
            FieldKind::Fixed(96),
        ]
    }

    /// The encodings of the fields, in declared order.
    pub open spec fn parts(&self) -> Seq<Seq<u8>> {
        seq![
            self.pubkey@,
            self.withdrawal_credentials@,
            le_bytes(self.amount as nat, 8),
            self.signature@,
        ]
    }

    /// The encoding of the record.
    pub open spec fn encoding(&self) -> Seq<u8> {
        container_bytes(Self::layout(), self.parts())
    }

    /// What is wrong with a buffer, if anything: the fault of the
    /// container itself, or else of the first field that is refused.
    pub open spec fn fault(bytes: Seq<u8>) -> Option<DecodeError> {
        match container_fields(Self::layout(), bytes) {
            Err(e) => Some(e),
            Ok(_) => None,
        }
    }

    /// The fixed region has 184 bytes, and no field is variable.
    pub proof fn lemma_layout()
        ensures
            fixed_len(Self::layout()) == 184,
            !has_variable(Self::layout()),
            Self::layout().len() == 4,
    {
        reveal_with_fuel(fixed_len_upto, 5);
    }

    /// The fields' encodings fit the layout, and the encoding has 184
    /// bytes.
    pub proof fn lemma_parts(v: &DepositData)
        requires
            v.wf(),
        ensures
            parts_fit(Self::layout(), v.parts()),
            v.encoding().len() == 184,
    {
        Self::lemma_layout();
        lemma_le_bytes_len(v.amount as nat, 8);
        lemma_fixed_container_len(Self::layout(), v.parts());
    }

    /// Decoding the encoding of a record finds no fault and gives the
    /// fields again.
    #[verifier::rlimit(60)]
    #[verifier::spinoff_prover]
    pub proof fn lemma_round_trip(v: &DepositData)
        requires
            v.wf(),
        ensures
            Self::fault(v.encoding()) is None,
            container_fields(Self::layout(), v.encoding()) == Ok::<Seq<Seq<u8>>, DecodeError>(
                v.parts(),
            ),
    {
        Self::lemma_parts(v);
        Self::lemma_layout();
        lemma_no_variable_len(Self::layout(), v.parts(), 4);
        lemma_pow256_four();
        lemma_container_round_trip(Self::layout(), v.parts());
    }

    /// Whether every field holds what its type asks for.
    pub fn is_valid(&self) -> (r: bool)
        ensures
            r == self.wf(),
    {
        self.pubkey.len() == 48
            && self.withdrawal_credentials.len() == 32
            && self.signature.len() == 96
    }

    /// The record always takes the same number of bytes.
    pub fn is_fixed_size() -> (r: bool)
        ensures
            r,
    {
        true
    }

    /// The number of bytes that the encoding takes.
    pub fn fixed_byte_width() -> (r: usize)
        ensures
            r == fixed_len(Self::layout()),
    {
        proof {
            Self::lemma_layout();
        }
        184
    }

    /// The kinds of the fields, in declared order.
    pub fn field_kinds() -> (r: Vec<FieldKind>)
        ensures
            r@ == Self::layout(),
    {
        let r: Vec<FieldKind> = vec![
            FieldKind::Fixed(48),
            FieldKind::Fixed(32),
            FieldKind::Fixed(8),
            FieldKind::Fixed(96),
        ];
        assert(r@ =~= Self::layout());
        r
    }

    /// Encodes the fields in declared order.
    pub fn encode(&self) -> (out: Vec<u8>)
        requires
            self.wf(),
        ensures
            out@ == self.encoding(),
            out@.len() == 184,
    {
        proof {
            lemma_pow256_eight();
            Self::lemma_parts(self);
            Self::lemma_layout();
            lemma_no_variable_len(Self::layout(), self.parts(), 4);
        }
        let layout: Vec<FieldKind> = Self::field_kinds();
        let parts: Vec<Vec<u8>> = vec![
            self.pubkey.encode(),
            self.withdrawal_credentials.encode(),
            encode_uint(self.amount, 8),
            self.signature.encode(),
        ];
        assert(byte_views(parts@) =~= self.parts());
        encode_container(&layout, &parts)
    }

    /// Decodes a record from a buffer of exactly 184 bytes.
    #[verifier::rlimit(60)]
    #[verifier::spinoff_prover]
    pub fn decode(bytes: &[u8]) -> (r: Result<DepositData, DecodeError>)
        ensures
            match r {
                Ok(v) => v.wf() && Self::fault(bytes@) is None && v.encoding() == bytes@
                    && container_fields(Self::layout(), bytes@) == Ok::<Seq<Seq<u8>>, DecodeError>(
                    v.parts(),
                ),
                Err(e) => Self::fault(bytes@) == Some(e),
            },
    {
        let layout: Vec<FieldKind> = Self::field_kinds();
        proof {
            Self::lemma_layout();
        }
        let parts: Vec<Vec<u8>> = match decode_container(&layout, bytes) {
            Ok(parts) => parts,
            Err(e) => {
                return Err(e);
            },
        };
        let ghost fields = byte_views(parts@);
        assert(fields.len() == 4 && parts@.len() == 4);
        assert(fields[0] == parts@[0]@ && fields[0].len() == 48);
        assert(fields[1] == parts@[1]@ && fields[1].len() == 32);
        assert(fields[2] == parts@[2]@ && fields[2].len() == 8);
        assert(fields[2].subrange(0, 8) =~= fields[2]);
        assert(fields[3] == parts@[3]@ && fields[3].len() == 96);
        let pubkey: FixedVector<u8, 48> = match FixedVector::<u8, 48>::decode(parts[0].as_slice()) {
            Ok(x) => x,
            Err(e) => {
                return Err(e);
            },
        };
        let withdrawal_credentials: FixedVector<u8, 32> = match FixedVector::<u8, 32>::decode(parts[1].as_slice()) {
            Ok(x) => x,
            Err(e) => {
                return Err(e);
            },
        };
        let amount: u64 = match decode_uint(parts[2].as_slice(), 8) {
            Ok(x) => x,
            Err(e) => {
                return Err(e);
            },
        };
        let signature: FixedVector<u8, 96> = match FixedVector::<u8, 96>::decode(parts[3].as_slice()) {
            Ok(x) => x,
            Err(e) => {
                return Err(e);
            },
        };
        let v = DepositData { pubkey, withdrawal_credentials, amount, signature };
        proof {
            lemma_pow256_eight();
            lemma_le_bytes_of_value(fields[2]);
            assert(v.parts() =~= fields);
            lemma_fixed_container_canonical(Self::layout(), bytes@);
        }
        Ok(v)
    }
}

impl Default for DepositData {
    /// The record whose every field is zero.
    fn default() -> (r: Self)
        ensures
            r.wf(),
            r.is_zero(),
    {
        DepositData {
            pubkey: FixedVector::<u8, 48>::zeroed(),
            withdrawal_credentials: FixedVector::<u8, 32>::zeroed(),
            amount: 0,
            signature: FixedVector::<u8, 96>::zeroed(),
        }
    }
}

/// A deposit with the proof that the deposit contract holds it.
#[derive(Clone, Debug, PartialEq, Eq)]
pub struct Deposit {
    pub proof: FixedVector<FixedVector<u8, 32>, 32>,
    pub data: DepositData,
}

impl Deposit {
    /// Every field holds what its type asks for.
    pub open spec fn wf(&self) -> bool {
        self.proof.rows_wf()
        && self.data.wf()
    }

    /// Every field is zero.
    pub open spec fn is_zero(&self) -> bool {
        self.proof.rows_zero()
        && self.data.is_zero()
    }

    /// The fields are all fixed in size; these are their widths.
    pub open spec fn layout() -> Seq<FieldKind> {
        seq![
            FieldKind::Fixed(1024),
            FieldKind::Fixed(184),
        ]
    }

    /// The encodings of the fields, in declared order.
    pub open spec fn parts(&self) -> Seq<Seq<u8>> {
        seq![
            concat(self.proof.rows()),
            self.data.encoding(),
        ]
    }

    /// The encoding of the record.
    pub open spec fn encoding(&self) -> Seq<u8> {
        container_bytes(Self::layout(), self.parts())
    }

    /// What is wrong with a buffer, if anything: the fault of the
    /// container itself, or else of the first field that is refused.
    pub open spec fn fault(bytes: Seq<u8>) -> Option<DecodeError> {
        match container_fields(Self::layout(), bytes) {
            Err(e) => Some(e),
            Ok(fields) => if fixed_vector_fault(fields[0], 32, 32) is Some { fixed_vector_fault(fields[0], 32, 32) } else { if DepositData::fault(fields[1]) is Some { DepositData::fault(fields[1]) } else { None } },
        }
    }

    /// The fixed region has 1208 bytes, and no field is variable.
    pub proof fn lemma_layout()
        ensures
            fixed_len(Self::layout()) == 1208,
            !has_variable(Self::layout()),
            Self::layout().len() == 2,
    {
        reveal_with_fuel(fixed_len_upto, 3);
    }

    /// The fields' encodings fit the layout, and the encoding has 1208
    /// bytes.
    pub proof fn lemma_parts(v: &Deposit)
        requires
            v.wf(),
        ensures
            parts_fit(Self::layout(), v.parts()),
            v.encoding().len() == 1208,
    {
        Self::lemma_layout();
        assert(uniform(v.proof.rows(), 32));
        lemma_concat_len(v.proof.rows(), 32);
        DepositData::lemma_parts(&v.data);
        lemma_fixed_container_len(Self::layout(), v.parts());
    }

    /// Decoding the encoding of a record finds no fault and gives the
    /// fields again.
    #[verifier::rlimit(60)]
    #[verifier::spinoff_prover]
    pub proof fn lemma_round_trip(v: &Deposit)
        requires
            v.wf(),
        ensures
            Self::fault(v.encoding()) is None,
            container_fields(Self::layout(), v.encoding()) == Ok::<Seq<Seq<u8>>, DecodeError>(
                v.parts(),
            ),
    {
        Self::lemma_parts(v);
        Self::lemma_layout();
        lemma_no_variable_len(Self::layout(), v.parts(), 2);
        lemma_pow256_four();
        lemma_container_round_trip(Self::layout(), v.parts());
        DepositData::lemma_round_trip(&v.data);
        assert(uniform(v.proof.rows(), 32));
        lemma_fixed_vector_round_trip(v.proof.rows(), 32);
    }

    /// Whether every field holds what its type asks for.
    pub fn is_valid(&self) -> (r: bool)
        ensures
            r == self.wf(),
    {
        self.proof.rows_valid()
            && self.data.is_valid()
    }

    /// The record always takes the same number of bytes.
    pub fn is_fixed_size() -> (r: bool)
        ensures
            r,
    {
        true
    }

    /// The number of bytes that the encoding takes.
    pub fn fixed_byte_width() -> (r: usize)
        ensures
            r == fixed_len(Self::layout()),
    {
        proof {
            Self::lemma_layout();
        }
        1208
    }

    /// The kinds of the fields, in declared order.
    pub fn field_kinds() -> (r: Vec<FieldKind>)
        ensures
            r@ == Self::layout(),
    {
        let r: Vec<FieldKind> = vec![
            FieldKind::Fixed(1024),
            FieldKind::Fixed(184),
        ];
        assert(r@ =~= Self::layout());
        r
    }

    /// Encodes the fields in declared order.
    pub fn encode(&self) -> (out: Vec<u8>)
        requires
            self.wf(),
        ensures
            out@ == self.encoding(),
            out@.len() == 1208,
    {
        proof {
            lemma_pow256_eight();
            Self::lemma_parts(self);
            Self::lemma_layout();
            lemma_no_variable_len(Self::layout(), self.parts(), 2);
        }
        let layout: Vec<FieldKind> = Self::field_kinds();
        let parts: Vec<Vec<u8>> = vec![
            self.proof.encode_rows(),
            self.data.encode(),
        ];
        assert(byte_views(parts@) =~= self.parts());
        encode_container(&layout, &parts)
    }

    /// Decodes a record from a buffer of exactly 1208 bytes.
    #[verifier::rlimit(60)]
    #[verifier::spinoff_prover]
    pub fn decode(bytes: &[u8]) -> (r: Result<Deposit, DecodeError>)
        ensures
            match r {
                Ok(v) => v.wf() && Self::fault(bytes@) is None && v.encoding() == bytes@
                    && container_fields(Self::layout(), bytes@) == Ok::<Seq<Seq<u8>>, DecodeError>(
                    v.parts(),
                ),
                Err(e) => Self::fault(bytes@) == Some(e),
            },
    {
        let layout: Vec<FieldKind> = Self::field_kinds();
        proof {
            Self::lemma_layout();
        }
        let parts: Vec<Vec<u8>> = match decode_container(&layout, bytes) {
            Ok(parts) => parts,
            Err(e) => {
                return Err(e);
            },
        };
        let ghost fields = byte_views(parts@);
        assert(fields.len() == 2 && parts@.len() == 2);
        assert(fields[0] == parts@[0]@ && fields[0].len() == 1024);
        assert(fields[1] == parts@[1]@ && fields[1].len() == 184);
        let proof: FixedVector<FixedVector<u8, 32>, 32> = match FixedVector::<FixedVector<u8, 32>, 32>::decode_rows(parts[0].as_slice()) {
            Ok(x) => x,
            Err(e) => {
                return Err(e);
            },
        };
        let data: DepositData = match DepositData::decode(parts[1].as_slice()) {
            Ok(x) => x,
            Err(e) => {
                return Err(e);
            },
        };
        let v = Deposit { proof, data };
        proof {
            lemma_pow256_eight();
            lemma_concat_of_chunks(fields[0], 32, 32);
            assert(fields[0].subrange(0, 1024) =~= fields[0]);
            assert(v.parts() =~= fields);
            lemma_fixed_container_canonical(Self::layout(), bytes@);
        }
        Ok(v)
    }
}

impl Default for Deposit {
    /// The record whose every field is zero.
    fn default() -> (r: Self)
        ensures
            r.wf(),
            r.is_zero(),
    {
        Deposit {
            proof: FixedVector::<FixedVector<u8, 32>, 32>::zeroed_rows(),
            data: DepositData::default(),
        }
    }
}

/// A payment out of a validator's balance.
#[derive(Clone, Debug, PartialEq, Eq)]
pub struct Withdrawal {
    pub index: u64,
    pub validator_index: u64,
    pub address: FixedVector<u8, 20>,
    pub amount: u64,
}

impl Withdrawal {
    /// Every field holds what its type asks for.
    pub open spec fn wf(&self) -> bool {
        self.address.wf()
    }

    /// Every field is zero.
    pub open spec fn is_zero(&self) -> bool {
        self.index == 0
        && self.validator_index == 0
        && (forall|i: int| 0 <= i < self.address@.len() ==> #[trigger] self.address@[i] == 0)
        && self.amount == 0
    }

    /// The fields are all fixed in size; these are their widths.
    pub open spec fn layout() -> Seq<FieldKind> {
        seq![
            FieldKind::Fixed(8),
            FieldKind::Fixed(8),
            FieldKind::Fixed(20),
            FieldKind::Fixed(8),
        ]
    }

    /// The encodings of the fields, in declared order.
    pub open spec fn parts(&self) -> Seq<Seq<u8>> {
        seq![
            le_bytes(self.index as nat, 8),
            le_bytes(self.validator_index as nat, 8),
            self.address@,
            le_bytes(self.amount as nat, 8),
        ]
    }

    /// The encoding of the record.
    pub open spec fn encoding(&self) -> Seq<u8> {
        container_bytes(Self::layout(), self.parts())
    }

    /// What is wrong with a buffer, if anything: the fault of the
    /// container itself, or else of the first field that is refused.
    pub open spec fn fault(bytes: Seq<u8>) -> Option<DecodeError> {
        match container_fields(Self::layout(), bytes) {
            Err(e) => Some(e),
            Ok(_) => None,
        }
    }

    /// The fixed region has 44 bytes, and no field is variable.
    pub proof fn lemma_layout()
        ensures
            fixed_len(Self::layout()) == 44,
            !has_variable(Self::layout()),
            Self::layout().len() == 4,
    {
        reveal_with_fuel(fixed_len_upto, 5);
    }

    /// The fields' encodings fit the layout, and the encoding has 44
    /// bytes.
    pub proof fn lemma_parts(v: &Withdrawal)
        requires
            v.wf(),
        ensures
            parts_fit(Self::layout(), v.parts()),
            v.encoding().len() == 44,
    {
        Self::lemma_layout();
        lemma_le_bytes_len(v.index as nat, 8);
        lemma_le_bytes_len(v.validator_index as nat, 8);
        lemma_le_bytes_len(v.amount as nat, 8);
        lemma_fixed_container_len(Self::layout(), v.parts());
    }

    /// Decoding the encoding of a record finds no fault and gives the
    /// fields again.
    #[verifier::rlimit(60)]
    #[verifier::spinoff_prover]
    pub proof fn lemma_round_trip(v: &Withdrawal)
        requires
            v.wf(),
        ensures
            Self::fault(v.encoding()) is None,
            container_fields(Self::layout(), v.encoding()) == Ok::<Seq<Seq<u8>>, DecodeError>(
                v.parts(),
            ),
    {
        Self::lemma_parts(v);
        Self::lemma_layout();
        lemma_no_variable_len(Self::layout(), v.parts(), 4);
        lemma_pow256_four();
        lemma_container_round_trip(Self::layout(), v.parts());
    }

    /// Whether every field holds what its type asks for.
    pub fn is_valid(&self) -> (r: bool)
        ensures
            r == self.wf(),
    {
        self.address.len() == 20
    }

    /// The record always takes the same number of bytes.
    pub fn is_fixed_size() -> (r: bool)
        ensures
            r,
    {
        true
    }

    /// The number of bytes that the encoding takes.
    pub fn fixed_byte_width() -> (r: usize)
        ensures
            r == fixed_len(Self::layout()),
    {
        proof {
            Self::lemma_layout();
        }
        44
    }

    /// The kinds of the fields, in declared order.
    pub fn field_kinds() -> (r: Vec<FieldKind>)
        ensures
            r@ == Self::layout(),
    {
        let r: Vec<FieldKind> = vec![
            FieldKind::Fixed(8),
            FieldKind::Fixed(8),
            FieldKind::Fixed(20),
            FieldKind::Fixed(8),
        ];
        assert(r@ =~= Self::layout());
        r
    }

    /// Encodes the fields in declared order.
    pub fn encode(&self) -> (out: Vec<u8>)
        requires
            self.wf(),
        ensures
            out@ == self.encoding(),
            out@.len() == 44,
    {
        proof {
            lemma_pow256_eight();
            Self::lemma_parts(self);
            Self::lemma_layout();
            lemma_no_variable_len(Self::layout(), self.parts(), 4);
        }
        let layout: Vec<FieldKind> = Self::field_kinds();
        let parts: Vec<Vec<u8>> = vec![
            encode_uint(self.index, 8),
            encode_uint(self.validator_index, 8),
            self.address.encode(),
            encode_uint(self.amount, 8),
        ];
        assert(byte_views(parts@) =~= self.parts());
        encode_container(&layout, &parts)
    }

    /// Decodes a record from a buffer of exactly 44 bytes.
    #[verifier::rlimit(60)]
    #[verifier::spinoff_prover]
    pub fn decode(bytes: &[u8]) -> (r: Result<Withdrawal, DecodeError>)
        ensures
            match r {
                Ok(v) => v.wf() && Self::fault(bytes@) is None && v.encoding() == bytes@
                    && container_fields(Self::layout(), bytes@) == Ok::<Seq<Seq<u8>>, DecodeError>(
                    v.parts(),
                ),
                Err(e) => Self::fault(bytes@) == Some(e),
            },
    {
        let layout: Vec<FieldKind> = Self::field_kinds();
        proof {
            Self::lemma_layout();
        }
        let parts: Vec<Vec<u8>> = match decode_container(&layout, bytes) {
            Ok(parts) => parts,
            Err(e) => {
                return Err(e);
            },
        };
        let ghost fields = byte_views(parts@);
        assert(fields.len() == 4 && parts@.len() == 4);
        assert(fields[0] == parts@[0]@ && fields[0].len() == 8);
        assert(fields[0].subrange(0, 8) =~= fields[0]);
        assert(fields[1] == parts@[1]@ && fields[1].len() == 8);
        assert(fields[1].subrange(0, 8) =~= fields[1]);
        assert(fields[2] == parts@[2]@ && fields[2].len() == 20);
        assert(fields[3] == parts@[3]@ && fields[3].len() == 8);
        assert(fields[3].subrange(0, 8) =~= fields[3]);
        let index: u64 = match decode_uint(parts[0].as_slice(), 8) {
            Ok(x) => x,
            Err(e) => {
                return Err(e);
            },
        };
        let validator_index: u64 = match decode_uint(parts[1].as_slice(), 8) {
            Ok(x) => x,
            Err(e) => {
                return Err(e);
            },
        };
        let address: FixedVector<u8, 20> = match FixedVector::<u8, 20>::decode(parts[2].as_slice()) {
            Ok(x) => x,
            Err(e) => {
                return Err(e);
            },
        };
        let amount: u64 = match decode_uint(parts[3].as_slice(), 8) {
            Ok(x) => x,
            Err(e) => {
                return Err(e);
            },
        };
        let v = Withdrawal { index, validator_index, address, amount };
        proof {
            lemma_pow256_eight();
            lemma_le_bytes_of_value(fields[0]);
            lemma_le_bytes_of_value(fields[1]);
            lemma_le_bytes_of_value(fields[3]);
            assert(v.parts() =~= fields);
            lemma_fixed_container_canonical(Self::layout(), bytes@);
        }
        Ok(v)
    }
}

impl Default for Withdrawal {
    /// The record whose every field is zero.
    fn default() -> (r: Self)
        ensures
            r.wf(),
            r.is_zero(),
    {
        Withdrawal {
            index: 0,
            validator_index: 0,
            address: FixedVector::<u8, 20>::zeroed(),
            amount: 0,
        }
    }
}

/// A change of a validator's withdrawal credentials to an address.
#[derive(Clone, Debug, PartialEq, Eq)]
pub struct BlsToExecutionChange {
    pub validator_index: u64,
    pub from_bls_pubkey: FixedVector<u8, 48>,
    pub to_execution_address: FixedVector<u8, 20>,
}

impl BlsToExecutionChange {
    /// Every field holds what its type asks for.
    pub open spec fn wf(&self) -> bool {
        self.from_bls_pubkey.wf()
        && self.to_execution_address.wf()
    }

    /// Every field is zero.
    pub open spec fn is_zero(&self) -> bool {
        self.validator_index == 0
        && (forall|i: int| 0 <= i < self.from_bls_pubkey@.len() ==> #[trigger] self.from_bls_pubkey@[i] == 0)
        && (forall|i: int| 0 <= i < self.to_execution_address@.len() ==> #[trigger] self.to_execution_address@[i] == 0)
    }

    /// The fields are all fixed in size; these are their widths.
    pub open spec fn layout() -> Seq<FieldKind> {
        seq![
            FieldKind::Fixed(8),
            FieldKind::Fixed(48),
            FieldKind::Fixed(20),
        ]
    }

    /// The encodings of the fields, in declared order.
    pub open spec fn parts(&self) -> Seq<Seq<u8>> {
        seq![
            le_bytes(self.validator_index as nat, 8),
            self.from_bls_pubkey@,
            self.to_execution_address@,
        ]
    }

    /// The encoding of the record.
    pub open spec fn encoding(&self) -> Seq<u8> {
        container_bytes(Self::layout(), self.parts())
    }

    /// What is wrong with a buffer, if anything: the fault of the
    /// container itself, or else of the first field that is refused.
    pub open spec fn fault(bytes: Seq<u8>) -> Option<DecodeError> {
        match container_fields(Self::layout(), bytes) {
            Err(e) => Some(e),
            Ok(_) => None,
        }
    }

    /// The fixed region has 76 bytes, and no field is variable.
    pub proof fn lemma_layout()
        ensures
            fixed_len(Self::layout()) == 76,
            !has_variable(Self::layout()),
            Self::layout().len() == 3,
    {
        reveal_with_fuel(fixed_len_upto, 4);
    }

    /// The fields' encodings fit the layout, and the encoding has 76
    /// bytes.
    pub proof fn lemma_parts(v: &BlsToExecutionChange)
        requires
            v.wf(),
        ensures
            parts_fit(Self::layout(), v.parts()),
            v.encoding().len() == 76,
    {
        Self::lemma_layout();
        lemma_le_bytes_len(v.validator_index as nat, 8);
        lemma_fixed_container_len(Self::layout(), v.parts());
    }

    /// Decoding the encoding of a record finds no fault and gives the
    /// fields again.
    #[verifier::rlimit(60)]
    #[verifier::spinoff_prover]
    pub proof fn lemma_round_trip(v: &BlsToExecutionChange)
        requires
            v.wf(),
        ensures
            Self::fault(v.encoding()) is None,
            container_fields(Self::layout(), v.encoding()) == Ok::<Seq<Seq<u8>>, DecodeError>(
                v.parts(),
            ),
    {
        Self::lemma_parts(v);
        Self::lemma_layout();
        lemma_no_variable_len(Self::layout(), v.parts(), 3);
        lemma_pow256_four();
        lemma_container_round_trip(Self::layout(), v.parts());
    }

    /// Whether every field holds what its type asks for.
    pub fn is_valid(&self) -> (r: bool)
        ensures
            r == self.wf(),
    {
        self.from_bls_pubkey.len() == 48
            && self.to_execution_address.len() == 20
    }

    /// The record always takes the same number of bytes.
    pub fn is_fixed_size() -> (r: bool)
        ensures
            r,
    {
        true
    }

    /// The number of bytes that the encoding takes.
    pub fn fixed_byte_width() -> (r: usize)
        ensures
            r == fixed_len(Self::layout()),
    {
        proof {
            Self::lemma_layout();
        }
        76
    }

    /// The kinds of the fields, in declared order.
    pub fn field_kinds() -> (r: Vec<FieldKind>)
        ensures
            r@ == Self::layout(),
    {
        let r: Vec<FieldKind> = vec![
            FieldKind::Fixed(8),
            FieldKind::Fixed(48),
            FieldKind::Fixed(20),
        ];
        assert(r@ =~= Self::layout());
        r
    }

    /// Encodes the fields in declared order.
    pub fn encode(&self) -> (out: Vec<u8>)
        requires
            self.wf(),
        ensures
            out@ == self.encoding(),
            out@.len() == 76,
    {
        proof {
            lemma_pow256_eight();
            Self::lemma_parts(self);
            Self::lemma_layout();
            lemma_no_variable_len(Self::layout(), self.parts(), 3);
        }
        let layout: Vec<FieldKind> = Self::field_kinds();
        let parts: Vec<Vec<u8>> = vec![
            encode_uint(self.validator_index, 8),
            self.from_bls_pubkey.encode(),
            self.to_execution_address.encode(),
        ];
        assert(byte_views(parts@) =~= self.parts());
        encode_container(&layout, &parts)
    }

    /// Decodes a record from a buffer of exactly 76 bytes.
    #[verifier::rlimit(60)]
    #[verifier::spinoff_prover]
    pub fn decode(bytes: &[u8]) -> (r: Result<BlsToExecutionChange, DecodeError>)
        ensures
            match r {
                Ok(v) => v.wf() && Self::fault(bytes@) is None && v.encoding() == bytes@
                    && container_fields(Self::layout(), bytes@) == Ok::<Seq<Seq<u8>>, DecodeError>(
                    v.parts(),
                ),
                Err(e) => Self::fault(bytes@) == Some(e),
            },
    {
        let layout: Vec<FieldKind> = Self::field_kinds();
        proof {
            Self::lemma_layout();
        }
        let parts: Vec<Vec<u8>> = match decode_container(&layout, bytes) {
            Ok(parts) => parts,
            Err(e) => {
                return Err(e);
            },
        };
        let ghost fields = byte_views(parts@);
        assert(fields.len() == 3 && parts@.len() == 3);
        assert(fields[0] == parts@[0]@ && fields[0].len() == 8);
        assert(fields[0].subrange(0, 8) =~= fields[0]);
        assert(fields[1] == parts@[1]@ && fields[1].len() == 48);
        assert(fields[2] == parts@[2]@ && fields[2].len() == 20);
        let validator_index: u64 = match decode_uint(parts[0].as_slice(), 8) {
            Ok(x) => x,
            Err(e) => {
                return Err(e);
            },
        };
        let from_bls_pubkey: FixedVector<u8, 48> = match FixedVector::<u8, 48>::decode(parts[1].as_slice()) {
            Ok(x) => x,
            Err(e) => {
                return Err(e);
            },
        };
        let to_execution_address: FixedVector<u8, 20> = match FixedVector::<u8, 20>::decode(parts[2].as_slice()) {
            Ok(x) => x,
            Err(e) => {
                return Err(e);
            },
        };
        let v = BlsToExecutionChange { validator_index, from_bls_pubkey, to_execution_address };
        proof {
            lemma_pow256_eight();
            lemma_le_bytes_of_value(fields[0]);
            assert(v.parts() =~= fields);
            lemma_fixed_container_canonical(Self::layout(), bytes@);
        }
        Ok(v)
    }
}

impl Default for BlsToExecutionChange {
    /// The record whose every field is zero.
    fn default() -> (r: Self)
        ensures
            r.wf(),
            r.is_zero(),
    {
        BlsToExecutionChange {
            validator_index: 0,
            from_bls_pubkey: FixedVector::<u8, 48>::zeroed(),
            to_execution_address: FixedVector::<u8, 20>::zeroed(),
        }
    }
}

/// A change of withdrawal credentials with its signature.
#[derive(Clone, Debug, PartialEq, Eq)]
pub struct SignedBlsToExecutionChange {
    pub message: BlsToExecutionChange,
    pub signature: FixedVector<u8, 96>,
}

impl SignedBlsToExecutionChange {
    /// Every field holds what its type asks for.
    pub open spec fn wf(&self) -> bool {
        self.message.wf()
        && self.signature.wf()
    }

    /// Every field is zero.
    pub open spec fn is_zero(&self) -> bool {
        self.message.is_zero()
        && (forall|i: int| 0 <= i < self.signature@.len() ==> #[trigger] self.signature@[i] == 0)
    }

    /// The fields are all fixed in size; these are their widths.
    pub open spec fn layout() -> Seq<FieldKind> {
        seq![
            FieldKind::Fixed(76),
            FieldKind::Fixed(96),
        ]
    }

    /// The encodings of the fields, in declared order.
    pub open spec fn parts(&self) -> Seq<Seq<u8>> {
        seq![
            self.message.encoding(),
            self.signature@,
        ]
    }

    /// The encoding of the record.
    pub open spec fn encoding(&self) -> Seq<u8> {
        container_bytes(Self::layout(), self.parts())
    }

    /// What is wrong with a buffer, if anything: the fault of the
    /// container itself, or else of the first field that is refused.
    pub open spec fn fault(bytes: Seq<u8>) -> Option<DecodeError> {
        match container_fields(Self::layout(), bytes) {
            Err(e) => Some(e),
            Ok(fields) => if BlsToExecutionChange::fault(fields[0]) is Some { BlsToExecutionChange::fault(fields[0]) } else { None },
        }
    }

    /// The fixed region has 172 bytes, and no field is variable.
    pub proof fn lemma_layout()
        ensures
            fixed_len(Self::layout()) == 172,
            !has_variable(Self::layout()),
            Self::layout().len() == 2,
    {
        reveal_with_fuel(fixed_len_upto, 3);
    }

    /// The fields' encodings fit the layout, and the encoding has 172
    /// bytes.
    pub proof fn lemma_parts(v: &SignedBlsToExecutionChange)
        requires
            v.wf(),
        ensures
            parts_fit(Self::layout(), v.parts()),
            v.encoding().len() == 172,
    {
        Self::lemma_layout();
        BlsToExecutionChange::lemma_parts(&v.message);
        lemma_fixed_container_len(Self::layout(), v.parts());
    }

    /// Decoding the encoding of a record finds no fault and gives the
    /// fields again.
    #[verifier::rlimit(60)]
    #[verifier::spinoff_prover]
    pub proof fn lemma_round_trip(v: &SignedBlsToExecutionChange)
        requires
            v.wf(),
        ensures
            Self::fault(v.encoding()) is None,
            container_fields(Self::layout(), v.encoding()) == Ok::<Seq<Seq<u8>>, DecodeError>(
                v.parts(),
            ),
    {
        Self::lemma_parts(v);
        Self::lemma_layout();
        lemma_no_variable_len(Self::layout(), v.parts(), 2);
        lemma_pow256_four();
        lemma_container_round_trip(Self::layout(), v.parts());
        BlsToExecutionChange::lemma_round_trip(&v.message);
    }

    /// Whether every field holds what its type asks for.
    pub fn is_valid(&self) -> (r: bool)
        ensures
            r == self.wf(),
    {
        self.message.is_valid()
            && self.signature.len() == 96
    }

    /// The record always takes the same number of bytes.
    pub fn is_fixed_size() -> (r: bool)
        ensures
            r,
    {
        true
    }

    /// The number of bytes that the encoding takes.
    pub fn fixed_byte_width() -> (r: usize)
        ensures
            r == fixed_len(Self::layout()),
    {
        proof {
            Self::lemma_layout();
        }
        172
    }

    /// The kinds of the fields, in declared order.
    pub fn field_kinds() -> (r: Vec<FieldKind>)
        ensures
            r@ == Self::layout(),
    {
        let r: Vec<FieldKind> = vec![
            FieldKind::Fixed(76),
            FieldKind::Fixed(96),
        ];
        assert(r@ =~= Self::layout());
        r
    }

    /// Encodes the fields in declared order.
    pub fn encode(&self) -> (out: Vec<u8>)
        requires
            self.wf(),
        ensures
            out@ == self.encoding(),
            out@.len() == 172,
    {
        proof {
            lemma_pow256_eight();
            Self::lemma_parts(self);
            Self::lemma_layout();
            lemma_no_variable_len(Self::layout(), self.parts(), 2);
        }
        let layout: Vec<FieldKind> = Self::field_kinds();
        let parts: Vec<Vec<u8>> = vec![
            self.message.encode(),
            self.signature.encode(),
        ];
        assert(byte_views(parts@) =~= self.parts());
        encode_container(&layout, &parts)
    }

    /// Decodes a record from a buffer of exactly 172 bytes.
    #[verifier::rlimit(60)]
    #[verifier::spinoff_prover]
    pub fn decode(bytes: &[u8]) -> (r: Result<SignedBlsToExecutionChange, DecodeError>)
        ensures
            match r {
                Ok(v) => v.wf() && Self::fault(bytes@) is None && v.encoding() == bytes@
                    && container_fields(Self::layout(), bytes@) == Ok::<Seq<Seq<u8>>, DecodeError>(
                    v.parts(),
                ),
                Err(e) => Self::fault(bytes@) == Some(e),
            },
    {
        let layout: Vec<FieldKind> = Self::field_kinds();
        proof {
            Self::lemma_layout();
        }
        let parts: Vec<Vec<u8>> = match decode_container(&layout, bytes) {
            Ok(parts) => parts,
            Err(e) => {
                return Err(e);
            },
        };
        let ghost fields = byte_views(parts@);
        assert(fields.len() == 2 && parts@.len() == 2);
        assert(fields[0] == parts@[0]@ && fields[0].len() == 76);
        assert(fields[1] == parts@[1]@ && fields[1].len() == 96);
        let message: BlsToExecutionChange = match BlsToExecutionChange::decode(parts[0].as_slice()) {
            Ok(x) => x,
            Err(e) => {
                return Err(e);
            },
        };
        let signature: FixedVector<u8, 96> = match FixedVector::<u8, 96>::decode(parts[1].as_slice()) {
            Ok(x) => x,
            Err(e) => {
                return Err(e);
            },
        };
        let v = SignedBlsToExecutionChange { message, signature };
        proof {
            lemma_pow256_eight();
            assert(v.parts() =~= fields);
            lemma_fixed_container_canonical(Self::layout(), bytes@);
        }
        Ok(v)
    }
}

impl Default for SignedBlsToExecutionChange {
    /// The record whose every field is zero.
    fn default() -> (r: Self)
        ensures
            r.wf(),
            r.is_zero(),
    {
        SignedBlsToExecutionChange {
            message: BlsToExecutionChange::default(),
            signature: FixedVector::<u8, 96>::zeroed(),
        }
    }
}
} // verus!
