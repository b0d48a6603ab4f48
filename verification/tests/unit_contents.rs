use immuxsys::storage::executor::unit_content::{UnitContent, UnitContentError};
use immuxsys::utils::varint::varint_encode;
use std::cmp::Ordering;

fn number(x: f64) -> UnitContent {
    UnitContent::Float64(x.to_bits())
}

fn permutation<T: Clone>(array: &[T]) -> Vec<Vec<T>> {
    if array.len() <= 1 {
        return vec![array.to_vec()];
    }

    let mut result = vec![];

    for (index, pivot) in array.iter().enumerate() {
        let mut new_array = vec![];
        new_array.extend_from_slice(&array[0..index]);
        new_array.extend_from_slice(&array[index + 1..]);

        let temp_result = permutation(&new_array);

        for arr in temp_result.iter() {
            let mut temp_arr = vec![];
            temp_arr.push(pivot.clone());
            temp_arr.extend_from_slice(arr.as_slice());
            result.push(temp_arr);
        }
    }

    return result;
}

#[test]
fn unit_content_marshal_parse_reversibility() {
    let map_content = UnitContent::Mapping(vec![
        (String::from("brand"), UnitContent::String(String::from("apple"))),
        (String::from("price"), number(4000.0)),
    ]);

    let contents = vec![
        map_content,
        UnitContent::String(String::from("this is a string")),
        UnitContent::Bool(true),
        UnitContent::Bool(false),
        UnitContent::Nil,
        UnitContent::String(String::from("true")),
        UnitContent::String(String::from("false")),
        UnitContent::String(String::from("Nil")),
        UnitContent::Array(vec![number(1.0), UnitContent::String(String::from("Andy"))]),
    ];

    for content in contents {
        let expected_output = &content;
        let content_bytes = content.marshal();
        let (actual_output, offset) = UnitContent::parse(&content_bytes).unwrap();
        assert_eq!(expected_output, &actual_output);
        assert_eq!(content_bytes.len(), offset);
    }
}

#[test]
fn weak_permutation_test() {
    let array = [1, 2, 3];
    let actual_result = permutation(&array);
    let expected_result = vec![
        [1, 2, 3],
        [1, 3, 2],
        [2, 1, 3],
        [2, 3, 1],
        [3, 1, 2],
        [3, 2, 1],
    ];

    assert_eq!(actual_result, expected_result);
}

fn unit_content_map_key_value_pairs() -> Vec<(String, UnitContent)> {
    vec![
        (String::from("a"), UnitContent::Nil),
        (String::from("b"), UnitContent::String("hello".to_string())),
        (String::from("c"), UnitContent::Bool(true)),
        (String::from("d"), number(1.5)),
        (
            String::from("e"),
            UnitContent::Array(vec![
                UnitContent::String("world".to_string()),
                number(1.5),
                UnitContent::Array(vec![UnitContent::Bool(true), UnitContent::Bool(false)]),
            ]),
        ),
    ]
}

fn permutation_content_map_bytes() -> Vec<Vec<u8>> {
    let key_value_pairs = unit_content_map_key_value_pairs();
    let indices: Vec<usize> = (0..key_value_pairs.len()).collect();
    let orders: Vec<Vec<usize>> = permutation(&indices);
    let mut result: Vec<Vec<u8>> = vec![];

    for order in orders.iter() {
        let mut possible_output: Vec<u8> = vec![0x21, 0x35];

        for index in order {
            let (key, value) = &key_value_pairs[*index];
            let key_length = varint_encode(key.len() as u64);
            let key_bytes = key.as_bytes();
            let content_bytes = value.marshal();

            possible_output.extend_from_slice(&key_length);
            possible_output.extend_from_slice(key_bytes);
            possible_output.extend_from_slice(&content_bytes);
        }

        result.push(possible_output);
    }

    return result;
}

fn fixture() -> Vec<(Option<UnitContent>, Vec<Vec<u8>>)> {
    let content_map = UnitContent::Mapping(unit_content_map_key_value_pairs());
    let permutation_content_map_bytes = permutation_content_map_bytes();

    vec![
        (Some(UnitContent::Nil), vec![vec![0x00]]),
        (Some(UnitContent::Bool(true)), vec![vec![0x11, 0x01]]),
        (Some(UnitContent::Bool(false)), vec![vec![0x11, 0x00]]),
        (Some(number(1.5)), vec![vec![0x12, 0, 0, 0, 0, 0, 0, 0xf8, 0x3f]]),
        (
            Some(UnitContent::String(String::from("hello"))),
            vec![vec![0x10, 0x05, 0x68, 0x65, 0x6c, 0x6c, 0x6f]],
        ),
        (
            Some(UnitContent::Array(vec![
                UnitContent::Nil,
                UnitContent::String(String::from("hello")),
                UnitContent::Bool(true),
                number(1.5),
                UnitContent::Array(vec![UnitContent::Nil]),
            ])),
            vec![vec![
                0x20, /*Array prefix*/
                0x16, /*Length*/
                0x00, /*Nil*/
                0x10, 0x05, 0x68, 0x65, 0x6c, 0x6c, 0x6f, /*String*/
                0x11, 0x01, /*bool true*/
                0x12, 0, 0, 0, 0, 0, 0, 0xf8, 0x3f, /*float*/
                0x20, /*Array prefix*/
                0x01, /*Length*/
                0x00, /*Nil*/
            ]],
        ),
        (Some(content_map), permutation_content_map_bytes),
        // Non-existing type
        (None, vec![vec![0xaa, 0x01, 0x02, 0x03]]),
        // Malformed boolean
        (None, vec![vec![0x11]]),
        // Malformed bytes with wrong varint length
        (None, vec![vec![0xff, 0xff, 0x10]]),
        // Empty input
        (None, vec![]),
    ]
}

#[test]
fn test_serialize() {
    let table = fixture();
    assert!(table.len() > 0);
    for row in table {
        if let (Some(content), expected) = row {
            let serialized = content.marshal();
            assert!(expected.contains(&serialized));
        } else {
            // Malformed bytes, skip
        }
    }
}

#[test]
fn test_deserialize() {
    let table = fixture();
    assert!(table.len() > 0);
    for row in table {
        let (expected, bytes_vec) = row;
        if let Some(expected_content) = expected {
            for bytes in bytes_vec {
                let (parsed, actual_size) = UnitContent::parse(&bytes).unwrap();
                let expected_size = expected_content.marshal().len();

                assert_eq!(expected_content, parsed);
                assert_eq!(expected_size, actual_size);
            }
        } else {
            for bytes in bytes_vec {
                match UnitContent::parse(&bytes) {
                    Ok(_) => panic!("Should not be able to parse {:?}", bytes),
                    Err(_) => (),
                }
            }
        }
    }
}

#[test]
fn parse_errors_name_their_cause() {
    assert_eq!(UnitContent::parse(&[]), Err(UnitContentError::EmptyInput));
    assert_eq!(UnitContent::parse(&[0x11]), Err(UnitContentError::MissingDataBytes));
    assert_eq!(UnitContent::parse(&[0xaa, 0x01]), Err(UnitContentError::UnexpectedTypePrefix(0xaa)));
    assert_eq!(UnitContent::parse(&[0x12, 1, 2, 3]), Err(UnitContentError::MissingDataBytes));
}

#[test]
fn maps_equal_whatever_their_order() {
    let a = UnitContent::Mapping(vec![
        (String::from("x"), number(1.0)),
        (String::from("y"), UnitContent::Nil),
    ]);
    let b = UnitContent::Mapping(vec![
        (String::from("y"), UnitContent::Nil),
        (String::from("x"), number(1.0)),
    ]);
    assert_eq!(a, b);
    assert_ne!(a, UnitContent::Mapping(vec![(String::from("x"), number(1.0))]));
    assert_eq!(number(0.0), number(-0.0));
    assert_ne!(number(f64::NAN), number(f64::NAN));
}

#[test]
fn only_numbers_are_ordered() {

    assert!(number(1.0) < number(2.0));
    assert_eq!(number(2.0).partial_cmp(&number(2.0)), Some(Ordering::Equal));
    assert_eq!(number(f64::NAN).partial_cmp(&number(1.0)), None);
    assert_eq!(
        UnitContent::String(String::from("a")).partial_cmp(&UnitContent::String(String::from("b"))),
        None
    );
}

#[test]
fn parsing_a_map_keeps_each_key_once() {
    // A map written with the key "a" twice reads back with "a" once, holding the later unit.
    let doubled = UnitContent::Mapping(vec![
        (String::from("a"), UnitContent::Bool(true)),
        (String::from("b"), UnitContent::Nil),
        (String::from("a"), UnitContent::Bool(false)),
    ]);
    let (parsed, _) = UnitContent::parse(&doubled.marshal()).unwrap();
    assert_eq!(
        parsed,
        UnitContent::Mapping(vec![(String::from("a"), UnitContent::Bool(false)), (String::from("b"), UnitContent::Nil)])
    );
}
