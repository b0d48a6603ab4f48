use immuxsys::storage::chain_height::{ChainHeight, ChainHeightError};
use immuxsys::storage::ecc::ErrorCorrectionError;
use immuxsys::storage::errors::KVError;
use immuxsys::storage::executor::command::{Command, SelectCondition};
use immuxsys::storage::executor::command_error::{CommandError, SelectConditionError};
use immuxsys::storage::executor::errors::ExecutorError;
use immuxsys::storage::executor::grouping_label::{GroupingLabel, GroupingLabelError};
use immuxsys::storage::executor::outcome::Outcome;
use immuxsys::storage::executor::predicate::{tokenize, Predicate, PredicateError, Token};
use immuxsys::storage::executor::unit_content::{UnitContent, UnitContentError};
use immuxsys::storage::executor::unit_key::{UnitKey, UnitKeyError};
use immuxsys::storage::instruction::InstructionError;
use immuxsys::storage::kvkey::KVKeyError;
use immuxsys::storage::log_version::LogVersionError;
use immuxsys::storage::transaction_manager::{TransactionId, TransactionManagerError};
use immuxsys::system_error::SystemError;
use immuxsys::utils::varint::VarIntError;

fn number(x: f64) -> UnitContent {
    UnitContent::Float64(x.to_bits())
}

/// The predicate of a text whose content tokens are all numbers.
fn numeric_predicate(text: &str) -> Predicate {
    let tokens = tokenize(text);
    let contents: Vec<UnitContent> = tokens
        .iter()
        .map(|t| match t {
            Token::ContentString(s) => number(s.parse::<f64>().unwrap()),
            _ => UnitContent::Nil,
        })
        .collect();
    Predicate::parse_tokens(&tokens, &contents).unwrap()
}

fn grouping_label_errors() -> Vec<GroupingLabelError> {
    vec![
        GroupingLabelError::VarIntError(VarIntError::UnexpectedFormat),
        GroupingLabelError::VarIntError(VarIntError::ParseVarIntErrorError),
        GroupingLabelError::ParseGroupingLabelErrorError,
    ]
}

fn unit_key_errors() -> Vec<UnitKeyError> {
    vec![
        UnitKeyError::VarIntError(VarIntError::UnexpectedFormat),
        UnitKeyError::ParseUnitKeyErrorError,
    ]
}

fn unit_content_errors() -> Vec<UnitContentError> {
    vec![
        UnitContentError::UnexpectedTypePrefix(0xaa),
        UnitContentError::EmptyInput,
        UnitContentError::MissingDataBytes,
        UnitContentError::UnexpectedLengthBytes,
        UnitContentError::ParseUnitContentErrorError,
    ]
}

fn predicate_errors() -> Vec<PredicateError> {
    vec![
        PredicateError::UnexpectedToken,
        PredicateError::MalformedTokens,
        PredicateError::InsufficientBytes,
        PredicateError::MalformedBytes(VarIntError::UnexpectedFormat),
        PredicateError::UnexpectedPrefix(0x42),
        PredicateError::UnitContent(UnitContentError::MissingDataBytes),
        PredicateError::ParsePredicateErrorError,
    ]
}

fn select_condition_errors() -> Vec<SelectConditionError> {
    let mut errors = vec![
        SelectConditionError::InvalidPrefix,
        SelectConditionError::FromUtf8Error(SystemError::FromUtf8Error),
        SelectConditionError::ParseSelectConditionErrorError,
        SelectConditionError::SystemError(SystemError::IOError),
    ];
    for e in unit_key_errors() {
        errors.push(SelectConditionError::UnitKeyError(e));
    }
    for e in predicate_errors() {
        errors.push(SelectConditionError::PredicateError(e));
    }
    for e in grouping_label_errors() {
        errors.push(SelectConditionError::GroupingError(e));
    }
    errors
}

fn command_errors() -> Vec<CommandError> {
    let mut errors = vec![
        CommandError::InvalidPrefix,
        CommandError::VarIntError(VarIntError::UnexpectedFormat),
        CommandError::ParseCommandErrorToStringError,
    ];
    for e in grouping_label_errors() {
        errors.push(CommandError::GroupingErr(e));
    }
    for e in unit_content_errors() {
        errors.push(CommandError::UnitContentErr(e));
    }
    for e in select_condition_errors() {
        errors.push(CommandError::SelectConditionErr(e));
    }
    for e in unit_key_errors() {
        errors.push(CommandError::UnitKeyError(e));
    }
    errors
}

fn instruction_errors() -> Vec<InstructionError> {
    vec![
        InstructionError::MissingPrefixByte,
        InstructionError::KeyExceedsMaxLength,
        InstructionError::VarIntError(VarIntError::UnexpectedFormat),
        InstructionError::UnknownPrefix(0x99),
        InstructionError::PackTooShort(7),
        InstructionError::UnexpectedMagicNumber([0x01, 0x02, 0x03, 0x04]),
        InstructionError::UnexpectedPackVersion(3),
        InstructionError::ErrorCorrection(ErrorCorrectionError::DataWidthNotDivisibleByModulus(10)),
        InstructionError::ErrorCorrection(ErrorCorrectionError::ParseErrorCorrectionErrorError),
        InstructionError::UnexpectedECCMode(0x09),
    ]
}

fn kv_errors() -> Vec<KVError> {
    let mut errors = vec![
        KVError::IOError(SystemError::IOError),
        KVError::RevertOutOfRange,
        KVError::ParseIntError(SystemError::ParseIntError),
        KVError::PointToUnexpectedInstruction,
        KVError::TransactionManagerError(TransactionManagerError::TransactionIdOutOfRange),
        KVError::TransactionManagerError(TransactionManagerError::TransactionNotAlive),
        KVError::TransactionManagerError(TransactionManagerError::ParseTransactionManagerErrorError),
        KVError::LogVersionError(LogVersionError::LogVersionParsingError),
        KVError::LogVersionError(LogVersionError::InvalidString),
        KVError::LogVersionError(LogVersionError::ParseIntError(SystemError::ParseIntError)),
        KVError::LogVersionError(LogVersionError::UnexpectedLogVersion),
        KVError::LogVersionError(LogVersionError::ParseLogVersionErrorError),
        KVError::ParseKVErrorError,
        KVError::SystemError(SystemError::ReceiverError),
        KVError::ChainHeightError(ChainHeightError::NegativeChainHeight),
        KVError::ChainHeightError(ChainHeightError::ChainHeightOutOfRange),
        KVError::ChainHeightError(ChainHeightError::ParseChainHeightErrorError),
    ];
    for e in instruction_errors() {
        errors.push(KVError::InstructionError(e));
    }
    errors
}

fn executor_errors() -> Vec<ExecutorError> {
    let mut errors = vec![
        ExecutorError::ParseIntError(SystemError::ParseIntError),
        ExecutorError::KVKeyError(KVKeyError::ParseKVKeyErrorError),
        ExecutorError::KVKeyError(KVKeyError::VarIntError(VarIntError::UnexpectedFormat)),
        ExecutorError::UnexpectedOutcome,
        ExecutorError::ParseExecutorErrorToStringError,
        ExecutorError::SystemError(SystemError::FromUtf8Error),
    ];
    for e in kv_errors() {
        errors.push(ExecutorError::KVError(e));
    }
    for e in unit_content_errors() {
        errors.push(ExecutorError::UnitContentError(e));
    }
    for e in command_errors() {
        errors.push(ExecutorError::CommandError(e));
    }
    for e in predicate_errors() {
        errors.push(ExecutorError::PredicateError(e));
    }
    errors
}

#[test]
fn command_error_reversibility() {
    let command_errors = command_errors();

    for expected_error in command_errors {
        let error_bytes = expected_error.marshal();
        let (actual_error, _) = CommandError::parse(&error_bytes).unwrap();
        assert_eq!(expected_error, actual_error);
    }
}

#[test]
fn select_condition_reversibility() {
    let unit_key = UnitKey::new(&[0x01, 0x02, 0x03]);
    let transaction_id = TransactionId::new(1);
    let grouping = GroupingLabel::from("grouping");

    let conditions = vec![
        SelectCondition::Key(grouping.clone(), unit_key.clone(), None),
        SelectCondition::Key(grouping.clone(), unit_key.clone(), Some(transaction_id)),
        SelectCondition::UnconditionalMatch(grouping.clone()),
        SelectCondition::Predicate(grouping.clone(), numeric_predicate("this>3")),
        SelectCondition::AllGrouping,
    ];

    for condition in conditions.iter() {
        let condition_bytes = condition.marshal();
        let (actual_output, offset) = SelectCondition::parse(&condition_bytes).unwrap();
        assert_eq!(condition, &actual_output);
        assert_eq!(condition_bytes.len(), offset);
    }
}

#[test]
fn select_condition_error_reversibility() {
    let select_condition_errors = select_condition_errors();

    for expected_error in select_condition_errors {
        let error_bytes = expected_error.marshal();
        let (actual_error, _) = SelectConditionError::parse(&error_bytes).unwrap();
        assert_eq!(expected_error, actual_error);
    }
}

fn select_conditions(grouping: &GroupingLabel, unit_key: &UnitKey, transaction_id: TransactionId) -> Vec<SelectCondition> {
    vec![
        SelectCondition::Key(grouping.clone(), unit_key.clone(), None),
        SelectCondition::Key(grouping.clone(), unit_key.clone(), Some(transaction_id)),
        SelectCondition::UnconditionalMatch(grouping.clone()),
        SelectCondition::Predicate(grouping.clone(), numeric_predicate("x>3")),
        SelectCondition::AllGrouping,
    ]
}

#[test]
fn command_reversibility() {
    let grouping = GroupingLabel::from("any_grouping");
    let unit_key = UnitKey::new(&[0x01, 0x02, 0x03]);
    let transaction_id = TransactionId::new(1);
    let target_height = ChainHeight::new(1);

    let select_commands: Vec<Command> = select_conditions(&grouping, &unit_key, transaction_id)
        .into_iter()
        .map(|condition| Command::Select { condition })
        .collect();

    let mut commands = vec![
        Command::InspectOne { grouping: grouping.clone(), key: unit_key.clone() },
        Command::InspectAll,
        Command::Insert {
            grouping: grouping.clone(),
            key: unit_key.clone(),
            content: UnitContent::String(String::from("123")),
        },
        Command::RevertOne { grouping: grouping.clone(), key: unit_key.clone(), height: target_height.clone() },
        Command::RevertAll { height: target_height.clone() },
        Command::RemoveOne { grouping: grouping.clone(), key: unit_key.clone() },
        Command::RemoveAll,
        Command::TransactionalInsert {
            transaction_id: transaction_id.clone(),
            grouping: grouping.clone(),
            key: unit_key.clone(),
            content: UnitContent::String(String::from("123")),
        },
        Command::TransactionalRevertOne {
            transaction_id: transaction_id.clone(),
            grouping: grouping.clone(),
            key: unit_key.clone(),
            height: target_height.clone(),
        },
        Command::TransactionalRemoveOne {
            transaction_id: transaction_id.clone(),
            grouping: grouping.clone(),
            key: unit_key.clone(),
        },
        Command::CreateTransaction,
        Command::TransactionCommit { transaction_id: transaction_id.clone() },
        Command::TransactionAbort { transaction_id: transaction_id.clone() },
    ];

    commands.extend(select_commands);

    for command in commands.iter() {
        let command_bytes = &command.marshal();
        let (actual_output, _) = Command::parse(&command_bytes).unwrap();
        assert_eq!(*command, actual_output);
    }
}

#[test]
fn remove_groupings_command_reversibility() {
    let command = Command::RemoveGroupings {
        groupings: vec![GroupingLabel::from("a"), GroupingLabel::from("bc")],
    };
    let bytes = command.marshal();
    let (parsed, width) = Command::parse(&bytes).unwrap();
    assert_eq!(parsed, command);
    assert_eq!(width, bytes.len());
}

#[test]
fn command_parse_rejects_unknown_prefix() {
    assert_eq!(Command::parse(&[0xee]), Err(CommandError::InvalidPrefix));
    assert!(Command::parse_checked(&[]).is_none());
}

#[test]
fn executor_error_reversibility() {
    let errors = executor_errors();

    for expected_error in errors {
        let error_bytes = expected_error.marshal();
        let (actual_error, _) = ExecutorError::parse(&error_bytes).unwrap();

        assert_eq!(expected_error, actual_error);
    }
}

#[test]
fn kv_error_reversibility() {
    let errors = kv_errors();

    for expected_error in errors {
        let error_bytes = expected_error.marshal();
        let (actual_error, _) = KVError::parse(&error_bytes).unwrap();

        assert_eq!(expected_error, actual_error);
    }
}

#[test]
fn chain_height_errors_read_back() {
    for e in [
        ChainHeightError::NegativeChainHeight,
        ChainHeightError::ChainHeightOutOfRange,
        ChainHeightError::ParseChainHeightErrorError,
    ] {
        assert_eq!(ChainHeightError::parse(&e.marshal()), Ok((e, 1)));
        let bytes = KVError::ChainHeightError(e).marshal();
        assert_eq!(KVError::parse(&bytes), Ok((KVError::ChainHeightError(e), bytes.len())));
    }
}

fn hashmap_content() -> UnitContent {
    UnitContent::Mapping(vec![
        (String::from("brand"), UnitContent::String(String::from("apple"))),
        (String::from("price"), number(4000.0)),
    ])
}

fn contents() -> Vec<UnitContent> {
    vec![
        hashmap_content(),
        UnitContent::String(String::from("this is a string")),
        UnitContent::Bool(true),
        UnitContent::Bool(false),
        UnitContent::Nil,
        UnitContent::String(String::from("true")),
        UnitContent::String(String::from("false")),
        UnitContent::String(String::from("Nil")),
        UnitContent::Array(vec![number(1.0), UnitContent::String(String::from("Andy"))]),
    ]
}

fn command_height_vec() -> Vec<(Command, ChainHeight)> {
    let grouping = GroupingLabel::new("any_grouping".as_bytes());
    let key = UnitKey::new("any_key".as_bytes());
    let mut result: Vec<(Command, ChainHeight)> = vec![];
    for (height, content) in contents().into_iter().enumerate() {
        result.push((
            Command::Insert { grouping: grouping.clone(), key: key.clone(), content },
            ChainHeight::new(height as u64),
        ));
    }
    result.push((Command::RemoveAll, ChainHeight::new(9)));
    result.push((Command::RemoveOne { grouping: grouping.clone(), key: key.clone() }, ChainHeight::new(10)));
    result.push((
        Command::RevertOne { grouping: grouping.clone(), key: key.clone(), height: ChainHeight::new(4) },
        ChainHeight::new(11),
    ));
    result
}

#[test]
fn test_outcome_reversible() {
    let outcomes = vec![
        Outcome::Select(contents()),
        Outcome::InspectOne(command_height_vec()),
        Outcome::InspectAll(command_height_vec()),
        Outcome::InsertSuccess,
        Outcome::RevertOneSuccess,
        Outcome::RevertAllSuccess,
        Outcome::RemoveOneSuccess,
        Outcome::RemoveAllSuccess,
        Outcome::CreateTransaction(TransactionId::new(1)),
        Outcome::TransactionalInsertSuccess,
        Outcome::TransactionalRevertOneSuccess,
        Outcome::TransactionalRevertOneSuccess,
        Outcome::TransactionalRemoveOneSuccess,
        Outcome::TransactionCommitSuccess,
        Outcome::TransactionAbortSuccess,
    ];

    for outcome in outcomes.iter() {
        let outcome_bytes = outcome.marshal();
        let (actual_output, offset) = Outcome::parse(&outcome_bytes).unwrap();
        assert_eq!(outcome, &actual_output);
        assert_eq!(outcome_bytes.len(), offset);
    }
}

#[test]
fn grouping_outcomes_reversible() {
    let outcomes = vec![
        Outcome::GetAllGroupingsSuccess(vec![GroupingLabel::from("a"), GroupingLabel::from("xyz")]),
        Outcome::DeleteGroupingSuccess,
    ];
    for outcome in outcomes.iter() {
        let bytes = outcome.marshal();
        let (parsed, width) = Outcome::parse(&bytes).unwrap();
        assert_eq!(outcome, &parsed);
        assert_eq!(width, bytes.len());
    }
    assert_ne!(Outcome::InsertSuccess, Outcome::RemoveAllSuccess);
}

#[test]
fn command_texts() {
    let grouping = GroupingLabel::new("people".as_bytes());
    let key = UnitKey::from("bob");
    let insert = Command::TransactionalInsert {
        grouping: grouping.clone(),
        key: key.clone(),
        content: UnitContent::Bool(true),
        transaction_id: TransactionId::new(12),
    };
    assert_eq!(
        insert.text("true"),
        "Command TransactionalInsert, grouping: people, key: bob, content: true, transaction_id: 12"
    );
    let revert = Command::RevertOne { grouping: grouping.clone(), key: key.clone(), height: ChainHeight::new(305) };
    assert_eq!(revert.text(""), "Command RevertOne, grouping: people, key: bob, height: ChainHeight : 305");
    let select = Command::Select { condition: SelectCondition::Key(grouping.clone(), key.clone(), None) };
    assert_eq!(select.text(""), "Command Select, grouping: people, key: bob, transaction_id: None");
    let remove = Command::RemoveGroupings { groupings: vec![grouping, GroupingLabel::new("pets".as_bytes())] };
    assert_eq!(remove.text(""), "Command RemoveGroupings people\r\npets");
    assert_eq!(Command::TransactionAbort { transaction_id: TransactionId::new(0) }.text(""), "Command TransactionAbort, transaction_id 0");
}
