use immuxsys::storage::buffer_parser::InstructionBufferParser;
use immuxsys::storage::chain_height::ChainHeight;
use immuxsys::storage::ecc::ECCMode;
use immuxsys::storage::instruction::{pack_instruction, unpack_instruction, Instruction, InstructionError};
use immuxsys::storage::instruction_iterator::InstructionLogIterator;
use immuxsys::storage::kvkey::KVKey;
use immuxsys::storage::kvvalue::KVValue;
use immuxsys::storage::preferences::DBPreferences;
use immuxsys::storage::transaction_manager::TransactionId;

#[test]
fn parse_set_instruction() {
    let key = KVKey::new(&[0x00, 0x01]);
    let value = KVValue::new(&[0xff, 0xf2, 0xfe]);
    let expected_instruction = Instruction::Put { key, value };

    let instruction_bytes: Vec<u8> = expected_instruction.serialize();
    let (actual_instruction, _) = Instruction::parse(&instruction_bytes).unwrap();

    assert_eq!(expected_instruction, actual_instruction);
}

#[test]
fn serialize_revert_one_instruction() {
    let key = KVKey::new(&[0x00, 0x01]);
    let height = ChainHeight::new(32);
    let expected_instruction = Instruction::RevertOne { key, height };

    let instruction_bytes: Vec<u8> = expected_instruction.serialize();
    let (actual_instruction, _) = Instruction::parse(&instruction_bytes).unwrap();

    assert_eq!(expected_instruction, actual_instruction);
}

#[test]
fn serialize_revert_all_instruction() {
    let height = ChainHeight::new(32);
    let expected_instruction = Instruction::RevertAll { height };

    let instruction_bytes: Vec<u8> = expected_instruction.serialize();
    let (actual_instruction, _) = Instruction::parse(&instruction_bytes).unwrap();

    assert_eq!(expected_instruction, actual_instruction);
}

#[test]
fn serialize_remove_instruction() {
    let key = KVKey::new(&[0x00, 0x01]);
    let expected_instruction = Instruction::RemoveOne { key };

    let instruction_bytes: Vec<u8> = expected_instruction.serialize();
    let (actual_instruction, _) = Instruction::parse(&instruction_bytes).unwrap();

    assert_eq!(expected_instruction, actual_instruction);
}

#[test]
fn serialize_remove_all_instruction() {
    let expected_instruction = Instruction::RemoveAll;

    let instruction_bytes: Vec<u8> = expected_instruction.serialize();
    let (actual_instruction, _) = Instruction::parse(&instruction_bytes).unwrap();

    assert_eq!(expected_instruction, actual_instruction);
}

#[test]
fn serialize_transactional_instructions() {
    let key = KVKey::from("k");
    let transaction_id = TransactionId::new(300);
    let instructions = vec![
        Instruction::TransactionStart { transaction_id },
        Instruction::TransactionalSet { key: key.clone(), value: KVValue::from("v"), transaction_id },
        Instruction::TransactionalRevertOne { key: key.clone(), height: ChainHeight::new(2), transaction_id },
        Instruction::TransactionalRemoveOne { key: key.clone(), transaction_id },
        Instruction::TransactionCommit { transaction_id },
        Instruction::TransactionAbort { transaction_id },
    ];
    for instruction in instructions {
        let bytes = instruction.serialize();
        let (parsed, width) = Instruction::parse(&bytes).unwrap();
        assert_eq!(parsed, instruction);
        assert_eq!(width, bytes.len());
    }
}

#[test]
fn parse_rejects_unknown_prefix() {
    assert_eq!(Instruction::parse(&[0x7f]), Err(InstructionError::UnknownPrefix(0x7f)));
    assert_eq!(Instruction::parse(&[]), Err(InstructionError::MissingPrefixByte));
}

#[test]
fn test_pack_set_instruction_no_ecc() {
    let instruction = Instruction::Put { key: KVKey::from("hello"), value: KVValue::from("world") };
    let correct_pack: Vec<u8> = vec![
        0xB1, 0x0C, 0xDA, 0x7A, // Magic
        0x01, // Version
        0x0E, 0x00, 0x00, 0x00, // ECC Width
        0x00, // ECC Mode
        0x00, // prefix for Set
        0x05, // key width
        0x68, 0x65, 0x6c, 0x6c, 0x6f, // key: "hello"
        0x05, // value width
        0x77, 0x6f, 0x72, 0x6c, 0x64, // value: "world"
    ];

    let packed = pack_instruction(&instruction, ECCMode::Identity);
    assert_eq!(correct_pack, packed);

    let (unpacked, width) = unpack_instruction(&correct_pack).unwrap();
    assert_eq!(unpacked, instruction);
    assert_eq!(correct_pack.len(), width);
}

#[test]
fn test_pack_transaction_start_tmr() {
    let instruction = Instruction::TransactionStart { transaction_id: TransactionId::new(0x42) };
    let correct_pack: Vec<u8> = vec![
        0xB1, 0x0C, 0xDA, 0x7A, // Magic
        0x01, // Version
        0x07, 0x00, 0x00, 0x00, // ECC Width
        0x01, // ECC Mode
        // Duplication 1
        0x05, // prefix for TransactionStart
        0x42, // transaction_id
        // Duplication 2
        0x05, // prefix for TransactionStart
        0x42, // transaction_id
        // Duplication 3
        0x05, // prefix for TransactionStart
        0x42, // transaction_id
    ];

    let packed = pack_instruction(&instruction, ECCMode::TMR);
    assert_eq!(correct_pack, packed);

    let (unpacked, width) = unpack_instruction(&correct_pack).unwrap();
    assert_eq!(unpacked, instruction);
    assert_eq!(correct_pack.len(), width);
}

#[test]
fn unpack_refuses_broken_packs() {
    assert_eq!(unpack_instruction(&[0xB1, 0x0C]), Err(InstructionError::PackTooShort(2)));
    assert_eq!(
        unpack_instruction(&[1, 2, 3, 4, 1, 0, 0, 0, 0, 0]),
        Err(InstructionError::UnexpectedMagicNumber([1, 2, 3, 4]))
    );
    assert_eq!(
        unpack_instruction(&[0xB1, 0x0C, 0xDA, 0x7A, 9, 0, 0, 0, 0, 0]),
        Err(InstructionError::UnexpectedPackVersion(9))
    );
    assert_eq!(
        unpack_instruction(&[0xB1, 0x0C, 0xDA, 0x7A, 1, 2, 0, 0, 0, 7, 0]),
        Err(InstructionError::UnexpectedECCMode(7))
    );
}

fn get_instructions() -> Vec<Instruction> {
    vec![
        Instruction::Put { key: KVKey::new(&[0x00, 0x01]), value: KVValue::new(&[0xff, 0xf3]) },
        Instruction::RevertOne { key: KVKey::new(&[0x11, 0x22]), height: ChainHeight::new(3) },
        Instruction::RevertAll { height: ChainHeight::new(6) },
        Instruction::RemoveOne { key: KVKey::new(&[0x88]) },
        Instruction::RemoveAll,
    ]
}

fn serialize_instructions(instructions: &[Instruction]) -> Vec<u8> {
    let mut buffer: Vec<u8> = Vec::new();
    for instruction in instructions {
        buffer.extend_from_slice(&instruction.serialize());
    }
    buffer
}

#[test]
fn iterate_buffer_parser() {
    let instructions = get_instructions();
    let buffer = serialize_instructions(&instructions);

    let mut instruction_buffer_parser = InstructionBufferParser::new(&buffer, 0);

    let mut index = 0;
    while let Some((actual_instruction, _)) = instruction_buffer_parser.next() {
        let expected_instruction = &instructions[index];
        assert_eq!(&actual_instruction, expected_instruction);
        index += 1;
    }
    assert_eq!(index, instructions.len());
}

#[test]
fn iterate_buffer_parser_with_broken_instruction() {
    let instructions = get_instructions();
    let mut buffer = serialize_instructions(&instructions);

    let some_broken_bytes = [0xff, 0x00, 0xfa];
    buffer.extend_from_slice(&some_broken_bytes);

    let mut instruction_buffer_parser = InstructionBufferParser::new(&buffer, 0);

    for expected_instruction in instructions {
        let (actual_instruction, _) = &instruction_buffer_parser.next().unwrap();
        assert_eq!(actual_instruction, &expected_instruction);
    }

    let broken_piece = instruction_buffer_parser.next();
    assert_eq!(broken_piece, None);
}

fn generate_instruction_log(instructions: &[Instruction]) -> Vec<u8> {
    instructions
        .iter()
        .map(|instruction| pack_instruction(instruction, ECCMode::Identity))
        .flatten()
        .collect()
}

#[test]
fn iterate_iterator() {
    let instructions = get_instructions();
    let log = generate_instruction_log(&instructions);

    let mut iterator = InstructionLogIterator::from(log);

    let mut index = 0;
    while let Some((actual_instruction, _)) = iterator.next() {
        let expected_instruction = &instructions[index];
        assert_eq!(&actual_instruction, expected_instruction);
        index += 1;
    }
    assert_eq!(index, instructions.len());
}

#[test]
fn iterate_with_trailing_trash_bytes() {
    let instructions = get_instructions();
    let mut log = generate_instruction_log(&instructions);

    let trailing_trash_bytes = [0xff, 0x00, 0xfa];
    log.extend_from_slice(&trailing_trash_bytes);

    let mut iterator = InstructionLogIterator::from(log);

    for expected_instruction in instructions {
        let (actual_instruction, _) = &iterator.next().unwrap();
        assert_eq!(actual_instruction, &expected_instruction);
    }

    let broken_piece = iterator.next();
    assert_eq!(broken_piece, None);
}

#[test]
fn read_all_stops_at_trash() {
    let instructions = get_instructions();
    let mut log = generate_instruction_log(&instructions);
    log.extend_from_slice(&[0xff, 0x00]);
    let mut iterator = InstructionLogIterator::from(log);
    assert_eq!(iterator.read_all(), instructions);
}

#[test]
fn parse_empty_arg() {
    let parsed_preference = DBPreferences::from_cli_args(&[]);
    let default_preference = DBPreferences::default();
    assert_eq!(parsed_preference.log_dir, default_preference.log_dir);
    assert_eq!(parsed_preference.tcp_port, default_preference.tcp_port);
    assert_eq!(parsed_preference.http_port, default_preference.http_port);
    assert_eq!(parsed_preference.ecc_mode, default_preference.ecc_mode);
}

#[test]
fn parse_full_specification() {
    let args_raw = "--data-dir=/tmp/immux --tcp-port=8888 --http-port=2939 --ecc-mode=TMR";
    let args: Vec<String> = args_raw.split(" ").map(|s| s.into()).collect();
    let parsed_preference = DBPreferences::from_cli_args(&args);
    assert_eq!(parsed_preference.log_dir, String::from("/tmp/immux"));
    assert_eq!(parsed_preference.tcp_port, Some(8888));
    assert_eq!(parsed_preference.http_port, Some(2939));
    assert_eq!(parsed_preference.ecc_mode, ECCMode::TMR);
}

#[test]
fn default_preferences() {
    let pref = DBPreferences::default();
    assert_eq!(pref.log_dir, String::from("/var/immux_log"));
    assert_eq!(pref.http_port, Some(6324));
    assert_eq!(pref.tcp_port, Some(5213));
    assert_eq!(pref.ecc_mode, ECCMode::Identity);
    let at_dir = DBPreferences::default_at_dir("/tmp/elsewhere");
    assert_eq!(at_dir.log_dir, String::from("/tmp/elsewhere"));
    assert_eq!(at_dir.http_port, Some(6324));
}
