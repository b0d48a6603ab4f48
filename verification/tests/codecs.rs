use immuxsys::storage::ecc::{ErrorCorrectionError, IdentityCode, TripleRedundancyCode};
use immuxsys::storage::executor::grouping_label::{GroupingLabel, GroupingLabelError};
use immuxsys::storage::executor::unit_key::{UnitKey, UnitKeyError};
use immuxsys::storage::kvkey::{KVKey, KVKeyError};
use immuxsys::storage::kvvalue::KVValue;
use immuxsys::utils::varint::VarIntError;

#[test]
fn test_error_reversibility() {
    let expected_errors = vec![
        ErrorCorrectionError::DataWidthNotDivisibleByModulus(10),
        ErrorCorrectionError::ParseErrorCorrectionErrorError,
    ];
    for error in expected_errors {
        let error_bytes = error.marshal();
        let (actual_error, _) = ErrorCorrectionError::parse(&error_bytes).unwrap();
        assert_eq!(error, actual_error);
    }
}

#[test]
fn test_identity_encode() {
    let input = [1, 20, 200];
    let codec = IdentityCode::new();
    let encoded = codec.encode(&input);
    assert_eq!(encoded, input)
}

#[test]
fn test_tmr_decode() {
    let input = [1, 20, 200];
    let codec = IdentityCode::new();
    let decoded = codec.decode(&input).unwrap();
    assert_eq!(decoded, input)
}

#[test]
fn test_tmr_encode() {
    let data = [1, 20, 200];
    let codec = TripleRedundancyCode::new();
    let encoded = codec.encode(&data);
    assert_eq!(encoded, [1, 20, 200, 1, 20, 200, 1, 20, 200])
}

#[test]
fn ecc_test_tmr_decode() {
    let table: Vec<(Vec<u8>, Vec<u8>)> = vec![
        (
            vec![0x11, 0x55, 0xff, 0x42, 0x11, 0x55, 0xff, 0x42, 0x11, 0x55, 0xff, 0x42],
            vec![0x11, 0x55, 0xff, 0x42],
        ),
        (
            vec![0x00, 0x55, 0xff, 0x42, 0x11, 0x55, 0x00, 0x42, 0x11, 0x00, 0xff, 0x42],
            vec![0x11, 0x55, 0xff, 0x42],
        ),
    ];
    let codec = TripleRedundancyCode::new();
    for row in table {
        let (input, expected_original) = row;
        let decoded = codec.decode(&input).unwrap();
        assert_eq!(decoded, expected_original)
    }
}

#[test]
#[should_panic]
fn test_tmr_incorrect_width() {
    let codec = TripleRedundancyCode::new();
    codec.decode(&[1, 2, 3, 4]).unwrap();
}

#[test]
fn test_tmr_codec_reversibility() {
    for i in 0..10 {
        let input: Vec<u8> = [1, 2, 3].repeat(i).iter().map(|n| n * i as u8).collect();
        let codec = TripleRedundancyCode::new();
        let output = codec.encode(&input);
        let input_recovered = codec.decode(&output).unwrap();
        assert_eq!(input, input_recovered);
    }
}

#[test]
fn test_tar_resistance_to_single_corruption() {
    let input = vec![0, 1, 2, 3, 255];
    let codec = TripleRedundancyCode::new();
    let output = codec.encode(&input);
    for corrupt_position in 0..output.len() {
        for corrupt_value in 0..255 {
            let mut corrupted_output = output.clone();
            corrupted_output[corrupt_position] = corrupt_value;
            let input_recovered = codec.decode(&corrupted_output).unwrap();
            assert_eq!(input, input_recovered);
        }
    }
}

#[test]
fn tmr_decode_of_bad_width_names_the_width() {
    let codec = TripleRedundancyCode::new();
    assert_eq!(
        codec.decode(&[1, 2, 3, 4]),
        Err(ErrorCorrectionError::DataWidthNotDivisibleByModulus(4))
    );
}

#[test]
fn grouping_label_error_reversibility() {
    let grouping_label_errors = vec![
        GroupingLabelError::VarIntError(VarIntError::UnexpectedFormat),
        GroupingLabelError::VarIntError(VarIntError::ParseVarIntErrorError),
        GroupingLabelError::ParseGroupingLabelErrorError,
    ];
    for expected_error in grouping_label_errors {
        let error_bytes = expected_error.marshal();
        let (actual_error, _) = GroupingLabelError::parse(&error_bytes).unwrap();
        assert_eq!(expected_error, actual_error);
    }
}

#[test]
fn test_marshal() {
    let data = [0x00, 0x01, 0x02, 0x03];
    let grouping = GroupingLabel::new(&data);
    let actual_output = grouping.marshal();
    let expected_output = [0x04, 0x00, 0x01, 0x02, 0x03].to_vec();
    assert_eq!(expected_output, actual_output);
}

#[test]
fn test_parse() {
    let data = [0x06, 0x00, 0x01, 0x02, 0x03, 0x04, 0x05];
    let (actual_output, offset) = GroupingLabel::parse(&data).unwrap();
    let expected_output = GroupingLabel::new(&[0x00, 0x01, 0x02, 0x03, 0x04, 0x05]);
    assert_eq!(actual_output, expected_output);
    assert_eq!(offset, data.len());
}

#[test]
fn test_reversible() {
    let data = "any_grouping".as_bytes();
    let expected_output = GroupingLabel::new(&data);
    let marshal_data = expected_output.marshal();
    let (actual_output, offset) = GroupingLabel::parse(&marshal_data).unwrap();
    assert_eq!(actual_output, expected_output);
    assert_eq!(offset, 13);
}

#[test]
fn grouping_label_with_bad_width_is_refused() {
    assert_eq!(
        GroupingLabel::parse(&[0xfd, 0x01]),
        Err(GroupingLabelError::VarIntError(VarIntError::UnexpectedFormat))
    );
}

#[test]
fn unit_key_error_reversibility() {
    let unit_key_errors = vec![
        UnitKeyError::VarIntError(VarIntError::UnexpectedFormat),
        UnitKeyError::VarIntError(VarIntError::ParseVarIntErrorError),
        UnitKeyError::ParseUnitKeyErrorError,
    ];
    for expected_error in unit_key_errors {
        let error_bytes = expected_error.marshal();
        let (actual_error, _) = UnitKeyError::parse(&error_bytes).unwrap();
        assert_eq!(actual_error, expected_error);
    }
}

#[test]
fn test_unit_key_marshal_parse() {
    let expected_output = UnitKey::new(&vec![3, 2, 1, 0]);
    let key_bytes = expected_output.marshal();
    let (actual_output, offset) = UnitKey::parse(&key_bytes).unwrap();
    assert_eq!(expected_output, actual_output);
    assert_eq!(key_bytes.len(), offset);
}

#[test]
fn unit_key_test_from_vec() {
    let input = vec![1, 2, 3];
    let key = UnitKey::from(input.clone());
    assert_eq!(key.as_bytes(), input.as_slice())
}

#[test]
fn unit_key_test_from_slice() {
    let input = vec![3, 2, 1, 0];
    let key = UnitKey::from(input.as_slice());
    assert_eq!(key.as_bytes(), input.as_slice())
}

#[test]
fn unit_key_test_from_str() {
    let thing = "abc";
    let key = UnitKey::from(thing);
    assert_eq!(key.as_bytes(), &[97, 98, 99])
}

#[test]
fn unit_key_test_to_vec() {
    let key = UnitKey::new(&[1, 2, 3]);
    let v: Vec<u8> = key.into();
    assert_eq!(v, vec![1, 2, 3])
}

#[test]
fn kvkey_error_reversibility() {
    let kvkey_errors = vec![
        KVKeyError::VarIntError(VarIntError::UnexpectedFormat),
        KVKeyError::VarIntError(VarIntError::ParseVarIntErrorError),
        KVKeyError::ParseKVKeyErrorError,
    ];
    for expected_error in kvkey_errors {
        let error_bytes = expected_error.marshal();
        let (actual_error, _) = KVKeyError::parse(&error_bytes).unwrap();
        assert_eq!(actual_error, expected_error);
    }
}

#[test]
fn kvkey_test_from_vec() {
    let input = vec![1, 2, 3];
    let key = KVKey::from(input.clone());
    assert_eq!(key.as_bytes(), input.as_slice())
}

#[test]
fn kvkey_test_from_slice() {
    let input = vec![3, 2, 1, 0];
    let key = KVKey::from(input.as_slice());
    assert_eq!(key.as_bytes(), input.as_slice())
}

#[test]
fn kvkey_test_from_str() {
    let thing = "abc";
    let key = KVKey::from(thing);
    assert_eq!(key.as_bytes(), &[97, 98, 99])
}

#[test]
fn kvkey_test_to_vec() {
    let key = KVKey::new(&[1, 2, 3]);
    let v: Vec<u8> = key.into();
    assert_eq!(v, vec![1, 2, 3])
}

#[test]
fn kvkey_splits_into_grouping_and_unit_key() {
    let grouping = GroupingLabel::from("fruit");
    let unit_key = UnitKey::from("apple");
    let key = KVKey::from_grouping_and_unit_key(&grouping, &unit_key);
    assert_eq!(key.as_bytes(), &[5, 102, 114, 117, 105, 116, 97, 112, 112, 108, 101]);
    let (g, u) = KVKey::parse(key.as_bytes()).unwrap();
    assert_eq!(g, grouping);
    assert_eq!(u, unit_key);
}

#[test]
fn test_creation() {
    let data = [1, 2, 3];
    let value = KVValue::new(&data);
    assert_eq!(value.as_bytes(), &data)
}

#[test]
fn test_from_bytes() {
    let data = vec![1, 2, 3];
    let value_1 = KVValue::from(data.as_slice());
    let value_2 = KVValue::from(data);
    assert_eq!(value_1, value_2);
    assert_eq!(value_1.as_bytes(), &[1, 2, 3])
}

#[test]
fn kvvalue_test_from_str() {
    let value = KVValue::from("aaa");
    assert_eq!(value.as_bytes(), &[97, 97, 97])
}
