use immuxsys::server::errors::ServerError;
use immuxsys::server::server::{
    handle_request, parse_http_request, parse_path, request_grouping, route_request, split_path, HttpMethod, UrlInformation,
};
use immuxsys::storage::executor::executor::Executor;
use immuxsys::storage::executor::instruction::Instruction;
use immuxsys::storage::executor::outcome::Outcome;
use immuxsys::storage::preferences::DBPreferences;
use immuxsys::storage::executor::unit_content::UnitContent;
use immuxsys::system_error::SystemError;

fn info(path: &str, queries: &[(&str, &str)]) -> UrlInformation {
    UrlInformation {
        queries: queries.iter().map(|(k, v)| (k.to_string(), v.to_string())).collect(),
        main_path: path.to_string(),
    }
}

fn key_bytes(i: &Instruction) -> Vec<u8> {
    match i {
        Instruction::Select { key, .. }
        | Instruction::InspectOne { key }
        | Instruction::Insert { key, .. }
        | Instruction::RevertOne { key, .. }
        | Instruction::RemoveOne { key }
        | Instruction::TransactionalInsert { key, .. }
        | Instruction::TransactionalRevertOne { key, .. }
        | Instruction::TransactionalRemoveOne { key, .. } => key.as_bytes().to_vec(),
        _ => vec![],
    }
}

#[test]
fn split_path_keeps_empty_pieces() {
    assert_eq!(split_path("/a//b/"), vec!["", "a", "", "b", ""]);
    assert_eq!(split_path(""), vec![""]);
    assert_eq!(split_path("/"), vec!["", ""]);
}

#[test]
fn queries_read_the_last_pair() {
    let url = info("/", &[("height", "3"), ("x", "y"), ("height", "7")]);
    assert_eq!(url.extract_numeric_query("height"), Ok(7));
    assert_eq!(url.extract_string_query("x"), Some(String::from("y")));
    assert_eq!(url.extract_string_query("z"), None);
    assert_eq!(url.extract_numeric_query("x"), Err(ServerError::UrlParsingError));
    assert_eq!(url.extract_numeric_query("z"), Err(ServerError::UrlParsingError));
}

#[test]
fn get_routes() {
    let select = route_request(HttpMethod::Get, &info("/grouping/key", &[]), String::new()).unwrap();
    assert!(matches!(select, Instruction::Select { transaction_id: None, .. }));
    assert_eq!(key_bytes(&select), b"key".to_vec());

    let journal = route_request(HttpMethod::Get, &info("/grouping/key/.journal", &[]), String::new()).unwrap();
    assert!(matches!(journal, Instruction::InspectOne { .. }));

    let all = route_request(HttpMethod::Get, &info("/.journal", &[]), String::new()).unwrap();
    assert!(matches!(all, Instruction::InspectAll));

    let in_transaction =
        route_request(HttpMethod::Get, &info("/.transactions/12/grouping/key", &[]), String::new()).unwrap();
    match in_transaction {
        Instruction::Select { transaction_id: Some(t), .. } => assert_eq!(t.as_u64(), 12),
        _ => panic!("expected a transactional select"),
    }

    assert!(matches!(
        route_request(HttpMethod::Get, &info("/.transactions/x/grouping/key", &[]), String::new()),
        Err(ServerError::ParseIntError(SystemError::ParseIntError))
    ));
    assert!(matches!(
        route_request(HttpMethod::Get, &info("/grouping/key/other", &[]), String::new()),
        Err(ServerError::UrlParsingError)
    ));
    assert!(matches!(
        route_request(HttpMethod::Get, &info("/grouping", &[]), String::new()),
        Err(ServerError::UrlParsingError)
    ));
}

#[test]
fn put_routes() {
    let insert = route_request(HttpMethod::Put, &info("/grouping/key", &[]), String::from("hello")).unwrap();
    match insert {
        Instruction::Insert { content, .. } => assert_eq!(content, UnitContent::String(String::from("hello"))),
        _ => panic!("expected an insert"),
    }
    let revert = route_request(HttpMethod::Put, &info("/grouping/key", &[("height", "4")]), String::new()).unwrap();
    match revert {
        Instruction::RevertOne { height, .. } => assert_eq!(height.as_u64(), 4),
        _ => panic!("expected a revert"),
    }
    let revert_all = route_request(HttpMethod::Put, &info("/", &[("height", "2")]), String::new()).unwrap();
    assert!(matches!(revert_all, Instruction::RevertAll { .. }));
    assert!(matches!(
        route_request(HttpMethod::Put, &info("/", &[]), String::new()),
        Err(ServerError::UrlParsingError)
    ));
    let transactional = route_request(HttpMethod::Put, &info("/.transactions/5/g/k", &[]), String::from("v")).unwrap();
    match transactional {
        Instruction::TransactionalInsert { transaction_id, .. } => assert_eq!(transaction_id.as_u64(), 5),
        _ => panic!("expected a transactional insert"),
    }
}

#[test]
fn post_and_delete_routes() {
    assert!(matches!(
        route_request(HttpMethod::Post, &info("/.transactions", &[]), String::new()),
        Ok(Instruction::CreateTransaction)
    ));
    match route_request(HttpMethod::Post, &info("/.transactions/9", &[("commit", "")]), String::new()) {
        Ok(Instruction::TransactionCommit { transaction_id }) => assert_eq!(transaction_id.as_u64(), 9),
        _ => panic!("expected a commit"),
    }
    match route_request(HttpMethod::Post, &info("/.transactions/9", &[("abort", "")]), String::new()) {
        Ok(Instruction::TransactionAbort { transaction_id }) => assert_eq!(transaction_id.as_u64(), 9),
        _ => panic!("expected an abort"),
    }
    assert!(matches!(
        route_request(HttpMethod::Post, &info("/.transactions", &[("commit", "")]), String::new()),
        Err(ServerError::UrlParsingError)
    ));
    assert!(matches!(
        route_request(HttpMethod::Post, &info("/elsewhere", &[]), String::new()),
        Err(ServerError::UrlParsingError)
    ));
    assert!(matches!(
        route_request(HttpMethod::Delete, &info("/", &[]), String::new()),
        Ok(Instruction::RemoveAll)
    ));
    assert!(matches!(
        route_request(HttpMethod::Delete, &info("/g/k", &[]), String::new()),
        Ok(Instruction::RemoveOne { .. })
    ));
    assert!(matches!(
        route_request(HttpMethod::Other, &info("/g/k", &[]), String::new()),
        Err(ServerError::BodyParsingError)
    ));
}

#[test]
fn parse_path_reads_path_and_queries() {
    let url = parse_path("/grouping/key?height=3&commit").unwrap();
    assert_eq!(url.main_path, "/grouping/key");
    assert_eq!(url.extract_numeric_query("height"), Ok(3));
    assert_eq!(url.extract_string_query("commit"), Some(String::new()));
}

#[test]
fn parse_http_request_routes_a_revert() {
    match parse_http_request(HttpMethod::Put, "/grouping/key?height=3", String::new()) {
        Ok(Instruction::RevertOne { key, height }) => {
            assert_eq!(key.as_bytes(), b"key");
            assert_eq!(height.as_u64(), 3);
        }
        other => panic!("unexpected {:?}", other),
    }
}

#[test]
fn request_grouping_reads_the_grouping_segment() {
    assert_eq!(request_grouping(&info("/people/bob", &[])).as_bytes(), b"people");
    assert_eq!(request_grouping(&info("/.transactions/3/people/bob", &[])).as_bytes(), b"people");
    assert_eq!(request_grouping(&info("", &[])).as_bytes(), b"");
}

fn served(executor: &mut Executor, method: HttpMethod, url: &str, body: &str) -> Result<Outcome, ServerError> {
    handle_request(executor, method, url, String::from(body)).expect("within the machine's limits")
}

#[test]
fn handle_request_writes_then_reads_back() {
    let pref = DBPreferences::default_at_dir("/tmp/handle_request");
    let mut executor = Executor::open(Vec::new(), pref.ecc_mode, pref.db_version).unwrap();
    assert_eq!(served(&mut executor, HttpMethod::Put, "/people/bob", "hello"), Ok(Outcome::InsertSuccess));
    assert_eq!(
        served(&mut executor, HttpMethod::Get, "/people/bob", ""),
        Ok(Outcome::Select(vec![UnitContent::String(String::from("hello"))]))
    );
    assert_eq!(served(&mut executor, HttpMethod::Get, "/others/bob", ""), Ok(Outcome::Select(vec![])));
    assert_eq!(served(&mut executor, HttpMethod::Delete, "/people/bob", ""), Ok(Outcome::RemoveOneSuccess));
    assert_eq!(served(&mut executor, HttpMethod::Get, "/people/bob", ""), Ok(Outcome::Select(vec![])));
}

#[test]
fn handle_request_runs_a_transaction() {
    let pref = DBPreferences::default_at_dir("/tmp/handle_request_transaction");
    let mut executor = Executor::open(Vec::new(), pref.ecc_mode, pref.db_version).unwrap();
    let id = match served(&mut executor, HttpMethod::Post, "/.transactions", "") {
        Ok(Outcome::CreateTransaction(t)) => t.as_u64(),
        other => panic!("unexpected {:?}", other),
    };
    let inside = format!("/.transactions/{}/people/ann", id);
    assert_eq!(served(&mut executor, HttpMethod::Put, &inside, "v"), Ok(Outcome::TransactionalInsertSuccess));
    assert_eq!(served(&mut executor, HttpMethod::Get, "/people/ann", ""), Ok(Outcome::Select(vec![])));
    assert_eq!(
        served(&mut executor, HttpMethod::Get, &inside, ""),
        Ok(Outcome::Select(vec![UnitContent::String(String::from("v"))]))
    );
    let commit = format!("/.transactions/{}?commit", id);
    assert_eq!(served(&mut executor, HttpMethod::Post, &commit, ""), Ok(Outcome::TransactionCommitSuccess));
    assert_eq!(
        served(&mut executor, HttpMethod::Get, "/people/ann", ""),
        Ok(Outcome::Select(vec![UnitContent::String(String::from("v"))]))
    );
}

#[test]
fn handle_request_answers_a_routing_error_and_keeps_the_store() {
    let pref = DBPreferences::default_at_dir("/tmp/handle_request_error");
    let mut executor = Executor::open(Vec::new(), pref.ecc_mode, pref.db_version).unwrap();
    let before = executor.log_bytes().to_vec();
    assert_eq!(served(&mut executor, HttpMethod::Get, "/people/bob/other", ""), Err(ServerError::UrlParsingError));
    assert_eq!(served(&mut executor, HttpMethod::Other, "/people/bob", ""), Err(ServerError::BodyParsingError));
    assert_eq!(executor.log_bytes().to_vec(), before);
}
