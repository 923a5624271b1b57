use beacon_ssz::attestation::{
    Attestation, AttestationData, AttesterSlashing, Checkpoint, CustomBitList, IndexedAttestation,
};
use beacon_ssz::bits::{BitList, BitVector};
use beacon_ssz::sync::SyncAggregate;
use beacon_ssz::container::FieldKind;
use beacon_ssz::error::DecodeError;
use beacon_ssz::header::{BeaconBlockHeader, Eth1Data, ProposerSlashing, SignedBeaconBlockHeader};
use beacon_ssz::operations::{
    BlsToExecutionChange, Deposit, DepositData, SignedBlsToExecutionChange, SignedVoluntaryExit,
    VoluntaryExit, Withdrawal,
};
use beacon_ssz::vector::{FixedVector, VariableList};
use ssz::{Encode, SszEncoder};

fn root(fill: u8) -> FixedVector<u8, 32> {
    FixedVector::<u8, 32>::new(vec![fill; 32]).unwrap()
}

fn signature(fill: u8) -> FixedVector<u8, 96> {
    FixedVector::<u8, 96>::new(vec![fill; 96]).unwrap()
}

fn sample_data() -> AttestationData {
    AttestationData {
        slot: 5,
        index: 6,
        beacon_block_root: root(0xaa),
        source: Checkpoint { epoch: 1, root: root(0xbb) },
        target: Checkpoint { epoch: 2, root: root(0xcc) },
    }
}

#[test]
fn fixed_records_have_their_widths() {
    assert_eq!(VoluntaryExit::fixed_byte_width(), 16);
    assert_eq!(SignedVoluntaryExit::fixed_byte_width(), 112);
    assert_eq!(DepositData::fixed_byte_width(), 184);
    assert_eq!(Withdrawal::fixed_byte_width(), 44);
    assert_eq!(BlsToExecutionChange::fixed_byte_width(), 76);
    assert_eq!(SignedBlsToExecutionChange::fixed_byte_width(), 172);
    assert_eq!(Eth1Data::fixed_byte_width(), 72);
    assert_eq!(BeaconBlockHeader::fixed_byte_width(), 112);
    assert_eq!(SignedBeaconBlockHeader::fixed_byte_width(), 208);
    assert_eq!(ProposerSlashing::fixed_byte_width(), 416);
    assert_eq!(Checkpoint::fixed_byte_width(), 40);
    assert_eq!(AttestationData::fixed_byte_width(), 128);
    assert!(Checkpoint::is_fixed_size());
    assert!(!IndexedAttestation::is_fixed_size());
    assert!(!Attestation::is_fixed_size());
    assert!(!CustomBitList::<2048>::is_fixed_size());
}

#[test]
fn field_kinds_follow_the_declaration() {
    assert_eq!(Checkpoint::field_kinds(), vec![FieldKind::Fixed(8), FieldKind::Fixed(32)]);
    assert_eq!(
        IndexedAttestation::field_kinds(),
        vec![FieldKind::Variable, FieldKind::Fixed(128), FieldKind::Fixed(96)]
    );
}

#[test]
fn checkpoint_round_trips() {
    let v = Checkpoint { epoch: 0x0102, root: root(7) };
    let bytes = v.encode();
    let mut expected = vec![2u8, 1, 0, 0, 0, 0, 0, 0];
    expected.extend(vec![7u8; 32]);
    assert_eq!(bytes, expected);
    assert_eq!(Checkpoint::decode(&bytes), Ok(v));
    assert_eq!(Checkpoint::decode(&bytes[0..39]), Err(DecodeError::LengthMismatch));
    let mut longer = bytes.clone();
    longer.push(0);
    assert_eq!(Checkpoint::decode(&longer), Err(DecodeError::LengthMismatch));
}

#[test]
fn defaults_are_all_zero() {
    assert_eq!(Checkpoint::default().encode(), vec![0u8; 40]);
    assert_eq!(AttestationData::default().encode(), vec![0u8; 128]);
    assert_eq!(ProposerSlashing::default().encode(), vec![0u8; 416]);
    assert_eq!(SignedBlsToExecutionChange::default().encode(), vec![0u8; 172]);
    assert_eq!(Withdrawal::default(), Withdrawal {
        index: 0,
        validator_index: 0,
        address: FixedVector::<u8, 20>::zeroed(),
        amount: 0,
    });
    let mut empty = vec![228u8, 0, 0, 0];
    empty.extend(vec![0u8; 224]);
    assert_eq!(IndexedAttestation::default().encode(), empty);
    empty.push(1);
    assert_eq!(Attestation::default().encode(), empty);
    assert_eq!(CustomBitList::<8>::default().encode(), vec![1]);
}

#[test]
fn nested_fixed_records_round_trip() {
    let header = BeaconBlockHeader {
        slot: 9,
        proposer_index: 10,
        parent_root: root(1),
        state_root: root(2),
        body_root: root(3),
    };
    let signed = SignedBeaconBlockHeader { message: header.clone(), signature: signature(4) };
    let slashing =
        ProposerSlashing { signed_header_1: signed.clone(), signed_header_2: signed.clone() };
    let bytes = slashing.encode();
    assert_eq!(bytes.len(), 416);
    assert_eq!(&bytes[0..112], &header.encode()[..]);
    assert_eq!(&bytes[208..416], &signed.encode()[..]);
    assert_eq!(ProposerSlashing::decode(&bytes), Ok(slashing));
    assert_eq!(ProposerSlashing::decode(&bytes[1..]), Err(DecodeError::LengthMismatch));
    let data = sample_data();
    assert_eq!(AttestationData::decode(&data.encode()), Ok(data));
    let exit = SignedVoluntaryExit {
        message: VoluntaryExit { epoch: 1, validator_index: 2 },
        signature: signature(9),
    };
    assert_eq!(SignedVoluntaryExit::decode(&exit.encode()), Ok(exit));
    let deposit = DepositData {
        pubkey: FixedVector::<u8, 48>::new(vec![5; 48]).unwrap(),
        withdrawal_credentials: root(6),
        amount: 32_000_000_000,
        signature: signature(7),
    };
    assert_eq!(DepositData::decode(&deposit.encode()), Ok(deposit));
    let eth1 = Eth1Data { deposit_root: root(1), deposit_count: 77, block_hash: root(2) };
    assert_eq!(Eth1Data::decode(&eth1.encode()), Ok(eth1));
}

#[test]
fn indexed_attestation_round_trips() {
    let v = IndexedAttestation {
        attesting_indices: VariableList::<u64, 2048>::new(vec![3, 4]).unwrap(),
        data: sample_data(),
        signature: signature(0xee),
    };
    let bytes = v.encode();
    assert_eq!(bytes.len(), 228 + 16);
    assert_eq!(&bytes[0..4], &[228, 0, 0, 0]);
    assert_eq!(&bytes[4..132], &sample_data().encode()[..]);
    assert_eq!(&bytes[132..228], &[0xee; 96]);
    assert_eq!(&bytes[228..], &[3, 0, 0, 0, 0, 0, 0, 0, 4, 0, 0, 0, 0, 0, 0, 0]);
    assert_eq!(IndexedAttestation::decode(&bytes), Ok(v));
}

#[test]
fn indexed_attestation_faults() {
    let v = IndexedAttestation {
        attesting_indices: VariableList::<u64, 2048>::new(vec![3, 4]).unwrap(),
        data: sample_data(),
        signature: signature(0xee),
    };
    let bytes = v.encode();
    assert_eq!(IndexedAttestation::decode(&bytes[0..227]), Err(DecodeError::LengthMismatch));
    assert_eq!(IndexedAttestation::decode(&bytes[0..243]), Err(DecodeError::LengthMismatch));
    let mut wrong_first = bytes.clone();
    wrong_first[0] = 229;
    assert_eq!(IndexedAttestation::decode(&wrong_first), Err(DecodeError::OffsetNotIncreasing));
    wrong_first[0] = 245;
    assert_eq!(IndexedAttestation::decode(&wrong_first), Err(DecodeError::OffsetOutOfBounds));
    let mut too_many = bytes[0..228].to_vec();
    too_many.extend(vec![0u8; 8 * 2049]);
    assert_eq!(IndexedAttestation::decode(&too_many), Err(DecodeError::InvalidBoundedLength));
}

#[test]
fn attestation_round_trips() {
    let bits = BitList::<2048>::from_bits(vec![true, false, true]).unwrap();
    let v = Attestation {
        aggregation_bits: CustomBitList::<2048>::new(bits),
        data: sample_data(),
        signature: signature(1),
    };
    let bytes = v.encode();
    assert_eq!(bytes.len(), 229);
    assert_eq!(bytes[228], 0x0d);
    let back = Attestation::decode(&bytes).unwrap();
    assert_eq!(back.aggregation_bits.as_bit_list().as_bits(), &vec![true, false, true]);
    assert_eq!(back, v);
    assert_eq!(Attestation::decode(&bytes[0..228]), Err(DecodeError::MissingDelimiter));
    let mut extra = bytes.clone();
    extra.push(0);
    assert_eq!(Attestation::decode(&extra), Err(DecodeError::ExtraBitsAfterDelimiter));
}

#[test]
fn container_matches_the_outside_encoder() {
    let v = IndexedAttestation {
        attesting_indices: VariableList::<u64, 2048>::new(vec![11, 12, 13]).unwrap(),
        data: sample_data(),
        signature: signature(0x42),
    };
    let indices: Vec<u64> = vec![11, 12, 13];
    let mut data = [0u8; 128];
    data.copy_from_slice(&sample_data().encode());
    let sig = [0x42u8; 96];
    let mut buf: Vec<u8> = Vec::new();
    let mut encoder = SszEncoder::container(&mut buf, 228);
    encoder.append(&indices);
    encoder.append(&data);
    encoder.append(&sig);
    encoder.finalize();
    assert_eq!(v.encode(), buf);
    assert_eq!(sample_data().slot.as_ssz_bytes(), &v.encode()[4..12]);
}

#[test]
fn attester_slashing_round_trips() {
    let one = IndexedAttestation {
        attesting_indices: VariableList::<u64, 2048>::new(vec![1]).unwrap(),
        data: sample_data(),
        signature: signature(1),
    };
    let two = IndexedAttestation {
        attesting_indices: VariableList::<u64, 2048>::new(vec![2, 3]).unwrap(),
        data: sample_data(),
        signature: signature(2),
    };
    let v = AttesterSlashing { attestation_1: one.clone(), attestation_2: two.clone() };
    assert!(v.is_valid());
    let bytes = v.encode();
    assert_eq!(bytes.len(), 8 + 236 + 244);
    assert_eq!(&bytes[0..8], &[8, 0, 0, 0, 244, 0, 0, 0]);
    assert_eq!(&bytes[8..244], &one.encode()[..]);
    assert_eq!(&bytes[244..], &two.encode()[..]);
    assert_eq!(AttesterSlashing::decode(&bytes), Ok(v));
    let mut swapped = bytes.clone();
    swapped[4] = 7;
    assert_eq!(AttesterSlashing::decode(&swapped), Err(DecodeError::OffsetNotIncreasing));
    assert_eq!(AttesterSlashing::decode(&bytes[0..487]), Err(DecodeError::LengthMismatch));
    assert_eq!(AttesterSlashing::decode(&bytes[0..7]), Err(DecodeError::LengthMismatch));
    assert!(!AttesterSlashing::is_fixed_size());
}

#[test]
fn sync_aggregate_round_trips() {
    let mut bits = vec![false; 512];
    bits[0] = true;
    bits[511] = true;
    let v = SyncAggregate {
        sync_committee_bits: BitVector::<512>::from_bits(bits).unwrap(),
        sync_committee_signature: signature(3),
    };
    assert!(v.is_valid());
    let bytes = v.encode();
    assert_eq!(bytes.len(), 160);
    assert_eq!(bytes[0], 0x01);
    assert_eq!(bytes[63], 0x80);
    assert_eq!(&bytes[64..], &[3u8; 96]);
    assert_eq!(SyncAggregate::decode(&bytes), Ok(v));
    assert_eq!(SyncAggregate::fixed_byte_width(), 160);
    assert_eq!(SyncAggregate::default().encode(), vec![0u8; 160]);
    assert_eq!(SyncAggregate::decode(&bytes[0..159]), Err(DecodeError::LengthMismatch));
}

#[test]
fn records_know_whether_they_are_valid() {
    assert!(Checkpoint::default().is_valid());
    assert!(IndexedAttestation::default().is_valid());
    assert!(Attestation::default().is_valid());
    assert!(VoluntaryExit { epoch: 1, validator_index: 2 }.is_valid());
}

#[test]
fn deposit_round_trips() {
    let rows: Vec<FixedVector<u8, 32>> = (0..32u8).map(root).collect();
    let proof = FixedVector::<FixedVector<u8, 32>, 32>::new(rows).unwrap();
    assert!(proof.rows_valid());
    let data = DepositData {
        pubkey: FixedVector::<u8, 48>::new(vec![5; 48]).unwrap(),
        withdrawal_credentials: root(6),
        amount: 32,
        signature: signature(7),
    };
    let v = Deposit { proof, data: data.clone() };
    let bytes = v.encode();
    assert_eq!(bytes.len(), 1208);
    assert_eq!(Deposit::fixed_byte_width(), 1208);
    assert_eq!(&bytes[0..32], &[0u8; 32]);
    assert_eq!(&bytes[992..1024], &[31u8; 32]);
    assert_eq!(&bytes[1024..], &data.encode()[..]);
    assert_eq!(Deposit::decode(&bytes), Ok(v));
    assert_eq!(Deposit::decode(&bytes[0..1207]), Err(DecodeError::LengthMismatch));
    assert_eq!(Deposit::default().encode(), vec![0u8; 1208]);
}

#[test]
fn vector_of_rows_wrong_count_is_refused() {
    let rows: Vec<FixedVector<u8, 32>> = (0..31u8).map(root).collect();
    assert!(matches!(
        FixedVector::<FixedVector<u8, 32>, 32>::new(rows),
        Err(DecodeError::LengthMismatch)
    ));
    assert!(matches!(
        FixedVector::<FixedVector<u8, 2>, 2>::decode_rows(&[1, 2, 3]),
        Err(DecodeError::LengthMismatch)
    ));
    let v = FixedVector::<FixedVector<u8, 2>, 2>::decode_rows(&[1, 2, 3, 4]).unwrap();
    assert_eq!(v.encode_rows(), vec![1, 2, 3, 4]);
    assert_eq!(FixedVector::<FixedVector<u8, 2>, 2>::zeroed_rows().encode_rows(), vec![0; 4]);
}
