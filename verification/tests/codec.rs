use beacon_ssz::bits::{BitList, BitVector};
use beacon_ssz::container::{decode_container, encode_container, fixed_region_len, FieldKind};
use beacon_ssz::error::DecodeError;
use beacon_ssz::primitive::{decode_uint, encode_uint};
use beacon_ssz::operations::VoluntaryExit;
use beacon_ssz::sequence::{
    concat_parts, decode_fixed_list, decode_fixed_vector, decode_variable_list,
    encode_variable_list,
};
use beacon_ssz::vector::{FixedVector, VariableList};
use ssz::{Decode, Encode};

#[test]
fn uint_is_little_endian() {
    assert_eq!(encode_uint(0x12, 1), vec![0x12]);
    assert_eq!(encode_uint(0x0102, 2), vec![0x02, 0x01]);
    assert_eq!(encode_uint(0x01020304, 4), vec![0x04, 0x03, 0x02, 0x01]);
    assert_eq!(encode_uint(7, 8), vec![7, 0, 0, 0, 0, 0, 0, 0]);
    assert_eq!(encode_uint(u64::MAX, 8), vec![0xff; 8]);
}

#[test]
fn uint_decodes_what_it_encoded() {
    assert_eq!(decode_uint(&[0x02, 0x01], 2), Ok(0x0102));
    assert_eq!(decode_uint(&[0xff; 8], 8), Ok(u64::MAX));
    assert_eq!(decode_uint(&encode_uint(0xdead_beef, 4), 4), Ok(0xdead_beef));
}

#[test]
fn uint_too_short_is_length_mismatch() {
    assert_eq!(decode_uint(&[1, 2, 3], 4), Err(DecodeError::LengthMismatch));
    assert_eq!(decode_uint(&[], 1), Err(DecodeError::LengthMismatch));
}

#[test]
fn uint_matches_the_outside_codec() {
    assert_eq!(encode_uint(0x0807_0605_0403_0201, 8), 0x0807_0605_0403_0201u64.as_ssz_bytes());
    assert_eq!(encode_uint(0xbeef, 2), 0xbeefu16.as_ssz_bytes());
    assert_eq!(decode_uint(&77u32.as_ssz_bytes(), 4), Ok(77));
}

#[test]
fn bit_vector_of_eight_bits() {
    let bits = vec![true, false, false, false, false, false, false, true];
    let v = BitVector::<8>::from_bits(bits.clone()).unwrap();
    assert_eq!(v.encode(), vec![0x81]);
    let back = BitVector::<8>::decode(&[0x81]).unwrap();
    assert_eq!(back.as_bits(), &bits);
}

#[test]
fn bit_order_is_least_significant_first() {
    let mut bits = vec![false; 16];
    bits[0] = true;
    bits[9] = true;
    let v = BitVector::<16>::from_bits(bits).unwrap();
    assert_eq!(v.encode(), vec![0x01, 0x02]);
    assert_eq!(v.get(9), Some(true));
    assert_eq!(v.get(8), Some(false));
    assert_eq!(v.get(16), None);
}

#[test]
fn bit_vector_wrong_count_is_refused() {
    assert!(matches!(BitVector::<8>::from_bits(vec![true; 7]), Err(DecodeError::LengthMismatch)));
    assert!(matches!(BitVector::<8>::decode(&[1, 0]), Err(DecodeError::LengthMismatch)));
    assert!(matches!(BitVector::<8>::decode(&[]), Err(DecodeError::LengthMismatch)));
}

#[test]
fn bit_vector_padding_must_be_zero() {
    assert!(matches!(BitVector::<4>::decode(&[0x10]), Err(DecodeError::InvalidPadding)));
    assert!(matches!(BitVector::<4>::decode(&[0x80]), Err(DecodeError::InvalidPadding)));
    let v = BitVector::<4>::decode(&[0x0f]).unwrap();
    assert_eq!(v.as_bits(), &vec![true; 4]);
}

#[test]
fn bit_vector_default_is_zero() {
    let v = BitVector::<512>::new();
    assert_eq!(v.encode(), vec![0u8; 64]);
    assert_eq!(BitVector::<512>::fixed_byte_width(), 64);
    assert!(BitVector::<512>::is_fixed_size());
    assert_eq!(BitVector::<9>::fixed_byte_width(), 2);
}

#[test]
fn bit_list_of_three_bits() {
    let bits = vec![true, true, false];
    let v = BitList::<4>::from_bits(bits.clone()).unwrap();
    assert_eq!(v.encode(), vec![0x0B]);
    let back = BitList::<4>::decode(&[0x0B]).unwrap();
    assert_eq!(back.len(), 3);
    assert_eq!(back.as_bits(), &bits);
}

#[test]
fn bit_list_delimiter_opens_a_new_byte() {
    let v = BitList::<16>::from_bits(vec![true; 8]).unwrap();
    assert_eq!(v.encode(), vec![0xff, 0x01]);
    let back = BitList::<16>::decode(&[0xff, 0x01]).unwrap();
    assert_eq!(back.as_bits(), &vec![true; 8]);
    assert_eq!(BitList::<16>::new().encode(), vec![0x01]);
    assert_eq!(BitList::<16>::decode(&[0x01]).unwrap().len(), 0);
    assert!(!BitList::<16>::is_fixed_size());
}

#[test]
fn bit_list_without_delimiter() {
    assert!(matches!(BitList::<8>::decode(&[0x00]), Err(DecodeError::MissingDelimiter)));
    assert!(matches!(BitList::<8>::decode(&[]), Err(DecodeError::MissingDelimiter)));
    assert!(matches!(BitList::<8>::decode(&[0, 0, 0, 0]), Err(DecodeError::MissingDelimiter)));
}

#[test]
fn bit_list_with_zero_bytes_above_delimiter() {
    assert!(matches!(
        BitList::<8>::decode(&[0x01, 0x00]),
        Err(DecodeError::ExtraBitsAfterDelimiter)
    ));
}

#[test]
fn bit_list_bound_is_enforced() {
    assert!(matches!(
        BitList::<4>::from_bits(vec![false; 5]),
        Err(DecodeError::InvalidBoundedLength)
    ));
    // five data bits and the delimiter at position five
    assert!(matches!(BitList::<4>::decode(&[0x20]), Err(DecodeError::InvalidBoundedLength)));
    assert_eq!(BitList::<4>::decode(&[0x10]).unwrap().len(), 4);
    assert!(matches!(
        BitList::<8>::decode(&[0xff, 0x02]),
        Err(DecodeError::InvalidBoundedLength)
    ));
    assert_eq!(BitList::<8>::decode(&[0xff, 0x01]).unwrap().len(), 8);
}

#[test]
fn fixed_vector_of_four_bytes() {
    let v = FixedVector::<u8, 4>::new(vec![1, 2, 3, 4]).unwrap();
    assert_eq!(v.encode(), vec![1, 2, 3, 4]);
    assert!(matches!(FixedVector::<u8, 4>::decode(&[1, 2, 3]), Err(DecodeError::LengthMismatch)));
    assert!(matches!(
        FixedVector::<u8, 4>::decode(&[1, 2, 3, 4, 5]),
        Err(DecodeError::LengthMismatch)
    ));
    let back = FixedVector::<u8, 4>::decode(&[1, 2, 3, 4]).unwrap();
    assert_eq!(back.as_vec(), &vec![1, 2, 3, 4]);
    assert_eq!(FixedVector::<u8, 4>::fixed_byte_width(), 4);
    assert_eq!(FixedVector::<u8, 32>::zeroed().encode(), vec![0u8; 32]);
}

#[test]
fn fixed_vector_wrong_count_is_refused() {
    assert!(matches!(FixedVector::<u64, 4>::new(vec![1, 2, 3]), Err(DecodeError::LengthMismatch)));
    assert!(matches!(
        FixedVector::<u64, 4>::new(vec![1, 2, 3, 4, 5]),
        Err(DecodeError::LengthMismatch)
    ));
}

#[test]
fn fixed_vector_of_numbers_round_trips() {
    let v = FixedVector::<u64, 4>::new(vec![1, 0x0102, u64::MAX, 0]).unwrap();
    let bytes = v.encode();
    assert_eq!(bytes.len(), 32);
    assert_eq!(&bytes[0..10], &[1, 0, 0, 0, 0, 0, 0, 0, 2, 1]);
    let back = FixedVector::<u64, 4>::decode(&bytes).unwrap();
    assert_eq!(back.as_vec(), v.as_vec());
    assert_eq!(back.len(), 4);
    assert!(matches!(
        FixedVector::<u64, 4>::decode(&bytes[0..31]),
        Err(DecodeError::LengthMismatch)
    ));
    assert!(matches!(
        FixedVector::<u64, 4>::decode(&bytes[0..24]),
        Err(DecodeError::LengthMismatch)
    ));
}

#[test]
fn list_of_numbers_over_the_bound() {
    let bytes = vec![0u8; 101 * 8];
    assert!(matches!(
        VariableList::<u64, 100>::decode(&bytes),
        Err(DecodeError::InvalidBoundedLength)
    ));
    let ok = VariableList::<u64, 100>::decode(&bytes[0..800]).unwrap();
    assert_eq!(ok.len(), 100);
    assert!(matches!(
        VariableList::<u64, 100>::decode(&bytes[0..799]),
        Err(DecodeError::LengthMismatch)
    ));
}

#[test]
fn list_construction_never_truncates() {
    assert!(matches!(
        VariableList::<u64, 2>::new(vec![1, 2, 3]),
        Err(DecodeError::InvalidBoundedLength)
    ));
    assert!(matches!(
        VariableList::<u8, 2>::decode(&[1, 2, 3]),
        Err(DecodeError::InvalidBoundedLength)
    ));
    let mut list = VariableList::<u64, 2>::empty();
    assert_eq!(list.push(5), Ok(()));
    assert_eq!(list.push(6), Ok(()));
    assert_eq!(list.push(7), Err(DecodeError::InvalidBoundedLength));
    assert_eq!(list.as_vec(), &vec![5, 6]);
}

#[test]
fn list_of_numbers_matches_the_outside_codec() {
    let items: Vec<u64> = vec![3, 1 << 40, 0, 99];
    let list = VariableList::<u64, 8>::new(items.clone()).unwrap();
    assert_eq!(list.encode(), items.as_ssz_bytes());
    let back = VariableList::<u64, 8>::decode(&items.as_ssz_bytes()).unwrap();
    assert_eq!(back.as_vec(), &items);
}

#[test]
fn chunks_of_fixed_size() {
    let bytes = [1u8, 2, 3, 4, 5, 6];
    assert_eq!(decode_fixed_vector(&bytes, 2, 3), Ok(vec![vec![1, 2], vec![3, 4], vec![5, 6]]));
    assert_eq!(decode_fixed_vector(&bytes, 2, 2), Err(DecodeError::LengthMismatch));
    assert_eq!(decode_fixed_vector(&bytes, 4, 1), Err(DecodeError::LengthMismatch));
    assert_eq!(decode_fixed_list(&bytes, 3, 2), Ok(vec![vec![1, 2, 3], vec![4, 5, 6]]));
    assert_eq!(decode_fixed_list(&bytes, 3, 1), Err(DecodeError::InvalidBoundedLength));
    assert_eq!(decode_fixed_list(&bytes, 4, 9), Err(DecodeError::LengthMismatch));
    assert_eq!(decode_fixed_list(&[], 4, 9), Ok(vec![]));
    assert_eq!(concat_parts(&vec![vec![1, 2, 3], vec![4, 5, 6]]), bytes.to_vec());
}

#[test]
fn container_with_one_variable_field() {
    let layout = vec![FieldKind::Fixed(8), FieldKind::Variable];
    let b = VariableList::<u8, 16>::new(vec![9, 9]).unwrap();
    let parts = vec![encode_uint(7, 8), b.encode()];
    let bytes = encode_container(&layout, &parts);
    assert_eq!(bytes, vec![7, 0, 0, 0, 0, 0, 0, 0, 12, 0, 0, 0, 9, 9]);
    assert_eq!(fixed_region_len(&layout), Some(12));
    let fields = decode_container(&layout, &bytes).unwrap();
    assert_eq!(decode_uint(&fields[0], 8), Ok(7));
    assert_eq!(VariableList::<u8, 16>::decode(&fields[1]).unwrap().as_vec(), &vec![9, 9]);
    assert_eq!(decode_container(&layout, &bytes[0..11]), Err(DecodeError::LengthMismatch));
    assert_eq!(decode_container(&layout, &bytes[0..12]), Ok(vec![encode_uint(7, 8), vec![]]));
}

#[test]
fn container_offsets_track_the_variable_region() {
    let layout = vec![FieldKind::Variable, FieldKind::Fixed(2), FieldKind::Variable];
    let parts = vec![vec![1, 2, 3], vec![0xaa, 0xbb], vec![4]];
    let bytes = encode_container(&layout, &parts);
    assert_eq!(bytes, vec![10, 0, 0, 0, 0xaa, 0xbb, 13, 0, 0, 0, 1, 2, 3, 4]);
    assert_eq!(decode_container(&layout, &bytes), Ok(parts));
}

#[test]
fn container_first_offset_must_be_the_fixed_length() {
    let layout = vec![FieldKind::Fixed(8), FieldKind::Variable];
    let mut bytes = vec![7, 0, 0, 0, 0, 0, 0, 0, 13, 0, 0, 0, 9, 9];
    assert_eq!(decode_container(&layout, &bytes), Err(DecodeError::OffsetNotIncreasing));
    bytes[8] = 11;
    assert_eq!(decode_container(&layout, &bytes), Err(DecodeError::OffsetNotIncreasing));
    bytes[8] = 15;
    assert_eq!(decode_container(&layout, &bytes), Err(DecodeError::OffsetOutOfBounds));
}

#[test]
fn container_offsets_must_not_decrease() {
    let layout = vec![FieldKind::Variable, FieldKind::Variable];
    let good = vec![8, 0, 0, 0, 10, 0, 0, 0, 1, 2, 3];
    assert_eq!(decode_container(&layout, &good), Ok(vec![vec![1, 2], vec![3]]));
    let equal = vec![8, 0, 0, 0, 8, 0, 0, 0, 1, 2, 3];
    assert_eq!(decode_container(&layout, &equal), Ok(vec![vec![], vec![1, 2, 3]]));
    let mut bad = vec![8, 0, 0, 0, 10, 0, 0, 0, 1, 2, 3];
    bad[0] = 10;
    bad[4] = 9;
    let layout3 = vec![FieldKind::Fixed(2), FieldKind::Variable, FieldKind::Variable];
    let swapped = vec![0, 0, 10, 0, 0, 0, 11, 0, 0, 0, 1, 2];
    assert_eq!(decode_container(&layout3, &swapped), Ok(vec![vec![0, 0], vec![1], vec![2]]));
    let out_of_order = vec![0, 0, 10, 0, 0, 0, 9, 0, 0, 0, 1, 2];
    assert_eq!(decode_container(&layout3, &out_of_order), Err(DecodeError::OffsetNotIncreasing));
    let past_end = vec![0, 0, 10, 0, 0, 0, 13, 0, 0, 0, 1, 2];
    assert_eq!(decode_container(&layout3, &past_end), Err(DecodeError::OffsetOutOfBounds));
    assert_eq!(decode_container(&layout, &bad), Err(DecodeError::OffsetNotIncreasing));
}

#[test]
fn container_of_fixed_fields_has_exact_length() {
    let layout = vec![FieldKind::Fixed(1), FieldKind::Fixed(2)];
    assert_eq!(decode_container(&layout, &[1, 2, 3]), Ok(vec![vec![1], vec![2, 3]]));
    assert_eq!(decode_container(&layout, &[1, 2]), Err(DecodeError::LengthMismatch));
    assert_eq!(decode_container(&layout, &[1, 2, 3, 4]), Err(DecodeError::LengthMismatch));
    assert_eq!(encode_container(&layout, &vec![vec![1], vec![2, 3]]), vec![1, 2, 3]);
}

#[test]
fn variable_list_round_trips() {
    let items = vec![vec![1u8, 2], vec![], vec![3, 4, 5]];
    let bytes = encode_variable_list(&items);
    assert_eq!(bytes, vec![12, 0, 0, 0, 14, 0, 0, 0, 14, 0, 0, 0, 1, 2, 3, 4, 5]);
    assert_eq!(decode_variable_list(&bytes, 3), Ok(items));
    assert_eq!(decode_variable_list(&bytes, 2), Err(DecodeError::InvalidBoundedLength));
    assert_eq!(encode_variable_list(&vec![]), Vec::<u8>::new());
    assert_eq!(decode_variable_list(&[], 0), Ok(vec![]));
}

#[test]
fn variable_list_matches_the_outside_codec() {
    let items: Vec<Vec<u8>> = vec![vec![7; 5], vec![], vec![1], vec![2, 3]];
    let theirs = items.as_ssz_bytes();
    assert_eq!(encode_variable_list(&items), theirs);
    assert_eq!(decode_variable_list(&theirs, 4), Ok(items.clone()));
    assert_eq!(Vec::<Vec<u8>>::from_ssz_bytes(&encode_variable_list(&items)).unwrap(), items);
}

#[test]
fn variable_list_faults() {
    assert_eq!(decode_variable_list(&[4, 0], 4), Err(DecodeError::LengthMismatch));
    assert_eq!(decode_variable_list(&[0, 0, 0, 0], 4), Err(DecodeError::LengthMismatch));
    assert_eq!(decode_variable_list(&[6, 0, 0, 0, 0, 0], 4), Err(DecodeError::LengthMismatch));
    assert_eq!(decode_variable_list(&[9, 0, 0, 0], 4), Err(DecodeError::OffsetOutOfBounds));
    assert_eq!(
        decode_variable_list(&[8, 0, 0, 0, 7, 0, 0, 0, 1], 4),
        Err(DecodeError::OffsetNotIncreasing)
    );
    assert_eq!(
        decode_variable_list(&[8, 0, 0, 0, 10, 0, 0, 0, 1], 4),
        Err(DecodeError::OffsetOutOfBounds)
    );
}

#[test]
fn voluntary_exit_round_trips() {
    let v = VoluntaryExit { epoch: 3, validator_index: 0x0102 };
    let bytes = v.encode();
    assert_eq!(bytes, vec![3, 0, 0, 0, 0, 0, 0, 0, 2, 1, 0, 0, 0, 0, 0, 0]);
    assert_eq!(VoluntaryExit::decode(&bytes), Ok(v));
    assert_eq!(VoluntaryExit::decode(&bytes[0..15]), Err(DecodeError::LengthMismatch));
    assert_eq!(VoluntaryExit::fixed_byte_width(), 16);
    assert!(VoluntaryExit::is_fixed_size());
    assert_eq!(VoluntaryExit::default(), VoluntaryExit { epoch: 0, validator_index: 0 });
    assert_eq!(VoluntaryExit::default().encode(), vec![0u8; 16]);
}

#[test]
fn sequences_know_their_size_class() {
    assert!(FixedVector::<u8, 32>::is_fixed_size());
    assert!(FixedVector::<u64, 4>::is_fixed_size());
    assert_eq!(FixedVector::<u64, 4>::fixed_byte_width(), 32);
    assert!(!VariableList::<u8, 32>::is_fixed_size());
    assert!(!VariableList::<u64, 2048>::is_fixed_size());
}
