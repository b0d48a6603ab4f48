use immuxsys::storage::executor::executor::Executor;
use immuxsys::storage::executor::grouping_label::GroupingLabel;
use immuxsys::storage::executor::outcome::Outcome;
use immuxsys::storage::executor::unit_key::UnitKey;
use immuxsys::storage::preferences::DBPreferences;
use immuxsys::storage::executor::filter::{
    content_satisfied_filter, content_satisfied_filter_unit, parse_filter_string, parse_filter_string_checked, text_compare, Filter, FilterOperands, FilterOperator,
    FilterUnit, LogicalOperator,
};
use immuxsys::storage::executor::unit_content::{ContentOrdering, UnitContent};

fn number(x: f64) -> UnitContent {
    UnitContent::Float64(x.to_bits())
}

fn unit(key: &str, operator: FilterOperator, content: UnitContent) -> FilterUnit {
    FilterUnit { operands: FilterOperands { map_key: String::from(key), unit_content: content }, operator }
}

fn person(age: f64, name: &str) -> UnitContent {
    UnitContent::Mapping(vec![
        (String::from("age"), number(age)),
        (String::from("name"), UnitContent::String(String::from(name))),
    ])
}

#[test]
fn operator_symbols() {
    assert_eq!(FilterOperator::GreaterEqual.symbol(), ">=");
    assert_eq!(FilterOperator::NotEqual.symbol(), "!=");
    assert_eq!(FilterOperator::Equal.symbol(), "=");
    assert_eq!(LogicalOperator::And.symbol(), "&&");
    assert_eq!(LogicalOperator::Or.symbol(), "||");
}

#[test]
fn text_order_is_lexicographic() {
    assert_eq!(text_compare(&String::from("abc"), &String::from("abd")), ContentOrdering::Less);
    assert_eq!(text_compare(&String::from("ab"), &String::from("abc")), ContentOrdering::Less);
    assert_eq!(text_compare(&String::from("b"), &String::from("abc")), ContentOrdering::Greater);
    assert_eq!(text_compare(&String::from("same"), &String::from("same")), ContentOrdering::Equal);
}

#[test]
fn filter_units_compare_fields() {
    let bob = person(14.0, "Bob");
    assert!(content_satisfied_filter_unit(&bob, &unit("age", FilterOperator::Greater, number(12.0))));
    assert!(!content_satisfied_filter_unit(&bob, &unit("age", FilterOperator::Less, number(12.0))));
    assert!(content_satisfied_filter_unit(&bob, &unit("age", FilterOperator::GreaterEqual, number(14.0))));
    assert!(content_satisfied_filter_unit(&bob, &unit("name", FilterOperator::Equal, UnitContent::String(String::from("Bob")))));
    assert!(content_satisfied_filter_unit(&bob, &unit("name", FilterOperator::NotEqual, UnitContent::String(String::from("Tom")))));
    assert!(content_satisfied_filter_unit(&bob, &unit("name", FilterOperator::Less, UnitContent::String(String::from("Tom")))));
    // A number and a text are never ordered, a missing field never holds, nor does a unit that is no map.
    assert!(!content_satisfied_filter_unit(&bob, &unit("name", FilterOperator::Less, number(3.0))));
    assert!(!content_satisfied_filter_unit(&bob, &unit("height", FilterOperator::NotEqual, number(3.0))));
    assert!(!content_satisfied_filter_unit(&number(1.0), &unit("age", FilterOperator::Equal, number(1.0))));
    assert!(!content_satisfied_filter_unit(&person(f64::NAN, "x"), &unit("age", FilterOperator::LessEqual, number(3.0))));
}

#[test]
fn filters_chain_left_to_right() {
    let bob = person(14.0, "Bob");
    let both = Filter {
        filter_units: vec![
            unit("age", FilterOperator::Greater, number(12.0)),
            unit("name", FilterOperator::Equal, UnitContent::String(String::from("Bob"))),
        ],
        logical_operators: vec![LogicalOperator::And],
    };
    assert!(content_satisfied_filter(&bob, &both));
    assert!(!content_satisfied_filter(&person(14.0, "Tom"), &both));

    let either = Filter {
        filter_units: vec![
            unit("age", FilterOperator::Greater, number(50.0)),
            unit("name", FilterOperator::Equal, UnitContent::String(String::from("Bob"))),
        ],
        logical_operators: vec![LogicalOperator::Or],
    };
    assert!(content_satisfied_filter(&bob, &either));
    assert!(!content_satisfied_filter(&person(14.0, "Tom"), &either));

    let empty = Filter { filter_units: vec![], logical_operators: vec![] };
    assert!(content_satisfied_filter(&bob, &empty));
}

#[test]
fn parse_filter_string_reads_units_and_operators() {
    let filter = parse_filter_string(String::from("age>=12&&name!=Bob||height<170"), &[
        Some(12.0f64.to_bits()),
        None,
        Some(170.0f64.to_bits()),
    ])
    .unwrap();
    assert_eq!(filter.filter_units.len(), 3);
    assert_eq!(filter.logical_operators, vec![LogicalOperator::And, LogicalOperator::Or]);
    assert_eq!(filter.filter_units[0].operands.map_key, "age");
    assert_eq!(filter.filter_units[0].operator, FilterOperator::GreaterEqual);
    assert_eq!(filter.filter_units[0].operands.unit_content, number(12.0));
    assert_eq!(filter.filter_units[1].operands.map_key, "name");
    assert_eq!(filter.filter_units[1].operator, FilterOperator::NotEqual);
    assert_eq!(filter.filter_units[1].operands.unit_content, UnitContent::String(String::from("Bob")));
    assert_eq!(filter.filter_units[2].operator, FilterOperator::Less);

    let bob = person(14.0, "Tom");
    assert!(content_satisfied_filter(&bob, &filter));
}

#[test]
fn parse_filter_string_without_numbers_keeps_text() {
    let filter = parse_filter_string(String::from("x=1"), &[]).unwrap();
    assert_eq!(filter.filter_units[0].operands.unit_content, UnitContent::String(String::from("1")));
    assert_eq!(filter.filter_units[0].operator, FilterOperator::Equal);
    assert!(filter.logical_operators.is_empty());
}

#[test]
fn parse_filter_string_checked_refuses_a_unit_without_comparison() {
    assert!(parse_filter_string_checked(String::from("age"), &[]).is_none());
    assert!(parse_filter_string_checked(String::from("a=1&&b"), &[None, None]).is_none());
}

#[test]
fn filtered_select_keeps_the_units_that_satisfy_the_filter() {
    let pref = DBPreferences::default_at_dir("/tmp/filtered_select");
    let mut executor = Executor::open(Vec::new(), pref.ecc_mode, pref.db_version).unwrap();
    let grouping = GroupingLabel::new("people".as_bytes());
    let other = GroupingLabel::new("others".as_bytes());
    executor.set(&grouping, &UnitKey::from("a"), &person(14.0, "Bob"), None).unwrap();
    executor.set(&grouping, &UnitKey::from("b"), &person(9.0, "Tom"), None).unwrap();
    executor.set(&grouping, &UnitKey::from("c"), &person(30.0, "Ann"), None).unwrap();
    executor.set(&other, &UnitKey::from("d"), &person(50.0, "Zed"), None).unwrap();
    let filter = Filter { filter_units: vec![unit("age", FilterOperator::Greater, number(12.0))], logical_operators: vec![] };
    match executor.get_filtered_checked(&grouping, &filter) {
        Some(Ok(Outcome::Select(kept))) => {
            assert_eq!(kept.len(), 2);
            assert!(kept.contains(&person(14.0, "Bob")));
            assert!(kept.contains(&person(30.0, "Ann")));
        }
        _ => panic!("unexpected outcome"),
    }
}
