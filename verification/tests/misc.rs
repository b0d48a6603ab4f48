use immuxsys::database::errors::DatabaseError;
use immuxsys::server::errors::ServerError;
use immuxsys::storage::chain_height::ChainHeightError;
use immuxsys::storage::executor::errors::ExecutorError;
use immuxsys::storage::chain_height::ChainHeight;
use immuxsys::storage::ecc::{ErrorCorrectionCodec, IdentityCode, TripleRedundancyCode};
use immuxsys::storage::errors::KVError;
use immuxsys::storage::executor::instruction::Instruction as Request;
use immuxsys::storage::executor::predicate::{PredicateError, PredicateErrorPrefix};
use immuxsys::storage::executor::unit_content::{UnitContent, UnitContentError};
use immuxsys::storage::instruction::Instruction;
use immuxsys::storage::kv::get_main_log_full_path;
use immuxsys::storage::kvkey::KVKey;
use immuxsys::storage::kvvalue::KVValue;
use immuxsys::storage::transaction_manager::TransactionId;
use immuxsys::system_error::SystemError;

#[test]
fn database_errors_wrap_their_causes() {
    assert_eq!(DatabaseError::from(KVError::RevertOutOfRange), DatabaseError::KVError(KVError::RevertOutOfRange));
    assert_eq!(
        DatabaseError::from(UnitContentError::EmptyInput),
        DatabaseError::UnitContentError(UnitContentError::EmptyInput)
    );
    let parse_error = "x".parse::<u64>().unwrap_err();
    assert_eq!(DatabaseError::from(parse_error), DatabaseError::ParseIntError(SystemError::ParseIntError));
}

fn round_trip(codec: &dyn ErrorCorrectionCodec, data: &[u8]) -> Vec<u8> {
    codec.decode(&codec.encode(data)).unwrap()
}

#[test]
fn codecs_give_back_what_they_encode() {
    let data = [0u8, 7, 255, 3];
    assert_eq!(round_trip(&IdentityCode::new(), &data), data.to_vec());
    assert_eq!(round_trip(&TripleRedundancyCode::new(), &data), data.to_vec());
    assert_eq!(ErrorCorrectionCodec::encode(&TripleRedundancyCode::new(), &[1, 2]), vec![1, 2, 1, 2, 1, 2]);
}

#[test]
fn main_log_lies_in_the_data_directory() {
    assert_eq!(get_main_log_full_path("/tmp/data"), "/tmp/data/instruction_log.imm");
    assert_eq!(get_main_log_full_path("/tmp/data/"), "/tmp/data/instruction_log.imm");
    assert!(get_main_log_full_path("").ends_with("instruction_log.imm"));
}

#[test]
fn predicate_error_prefixes() {
    assert_eq!(PredicateErrorPrefix::UnexpectedToken.byte(), 0x01);
    assert_eq!(PredicateErrorPrefix::ParsePredicateErrorError.byte(), 0x07);
    assert_eq!(PredicateError::UnexpectedPrefix(9).marshal(), vec![0x05, 9]);
}

#[test]
fn log_instructions_read_as_requests() {
    let content = UnitContent::String(String::from("v"));
    let put = Instruction::Put { key: KVKey::from("k"), value: KVValue::new(&content.marshal()) };
    match Request::try_from(&put).unwrap() {
        Request::Insert { key, content: c } => {
            assert_eq!(key.as_bytes(), b"k");
            assert_eq!(c, content);
        }
        other => panic!("unexpected {:?}", other),
    }
    let start = Instruction::TransactionStart { transaction_id: TransactionId::new(3) };
    assert!(matches!(Request::try_from(&start), Ok(Request::CreateTransaction)));
    let revert = Instruction::RevertAll { height: ChainHeight::new(2) };
    match Request::try_from(&revert) {
        Ok(Request::RevertAll { height }) => assert_eq!(height.as_u64(), 2),
        other => panic!("unexpected {:?}", other),
    }
    let broken = Instruction::Put { key: KVKey::from("k"), value: KVValue::new(&[0xaa]) };
    assert!(matches!(Request::try_from(&broken), Err(UnitContentError::UnexpectedTypePrefix(0xaa))));
    let overrun = Instruction::Put { key: KVKey::from("k"), value: KVValue::new(&[0x10, 0x05, b'a']) };
    assert!(Request::try_from_checked(&overrun).is_none());
}

#[test]
fn server_errors_read_back() {
    let errors = vec![
        ServerError::ReceiverError(SystemError::ReceiverError),
        ServerError::SenderError,
        ServerError::UrlParsingError,
        ServerError::ExecutorError(ExecutorError::KVError(KVError::ChainHeightError(ChainHeightError::NegativeChainHeight))),
        ServerError::ParseIntError(SystemError::ParseIntError),
    ];
    for e in errors {
        let bytes = e.marshal();
        assert_eq!(ServerError::parse(&bytes), Ok((e, bytes.len())));
    }
    // A receiver error is written with the receiver's own code, whatever it holds.
    let bytes = ServerError::ReceiverError(SystemError::IOError).marshal();
    assert_eq!(ServerError::parse(&bytes), Ok((ServerError::ReceiverError(SystemError::ReceiverError), 2)));
}
