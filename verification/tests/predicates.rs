use immuxsys::storage::executor::predicate::{
    starts_with_at, tokenize, CompoundPredicate, FieldPath, Predicate, PredicateError, PrimitivePredicate, Token,
};
use immuxsys::storage::executor::unit_content::UnitContent;
use immuxsys::utils::varint::VarIntError;
use immuxsys::storage::executor::unit_content::UnitContentError;

fn number(x: f64) -> UnitContent {
    UnitContent::Float64(x.to_bits())
}

/// The units that the text of each content token stands for, as the caller reads them.
fn contents_for(tokens: &[Token], read: &dyn Fn(&str) -> UnitContent) -> Vec<UnitContent> {
    tokens
        .iter()
        .map(|t| match t {
            Token::ContentString(s) => read(s),
            _ => UnitContent::Nil,
        })
        .collect()
}

#[test]
fn test_format() {
    let path = FieldPath::from(vec![String::from("hello"), String::from("world")]);
    let s = path.to_string();
    assert_eq!(s, String::from("this.hello.world"));

    let empty_path = FieldPath::from(vec![]);
    let s2 = empty_path.to_string();
    assert_eq!(s2, String::from("this"));
}

#[test]
fn test_serialization() {
    let path = FieldPath::from(vec![String::from("hello"), String::from("world")]);
    let expected_serialization: Vec<u8> = vec![
        0x05, 0x68, 0x65, 0x6c, 0x6c, 0x6f, 0x05, 0x77, 0x6f, 0x72, 0x6c, 0x64,
    ];
    assert_eq!(
        FieldPath::parse(&expected_serialization).unwrap().inner(),
        path.inner()
    );
    assert_eq!(path.serialize(), expected_serialization);
}

#[test]
fn test_tokenizer() {
    let fixture = vec![
        (
            "this.hello>1",
            vec![
                Token::This,
                Token::Dot,
                Token::Identifier(String::from("hello")),
                Token::GreaterThan,
                Token::ContentString(String::from("1")),
            ],
        ),
        (
            "this. hello > 1",
            vec![
                Token::This,
                Token::Dot,
                Token::Identifier(String::from("hello")),
                Token::GreaterThan,
                Token::ContentString(String::from("1")),
            ],
        ),
        (
            "this.str != \"hello\" && this.c == '世界' && this.spaces = '   '",
            vec![
                Token::This,
                Token::Dot,
                Token::Identifier(String::from("str")),
                Token::NotEqual,
                Token::ContentString(String::from("\"hello\"")),
                Token::And,
                Token::This,
                Token::Dot,
                Token::Identifier(String::from("c")),
                Token::Equal,
                Token::ContentString(String::from("'世界'")),
                Token::And,
                Token::This,
                Token::Dot,
                Token::Identifier(String::from("spaces")),
                Token::Equal,
                Token::ContentString(String::from("\'   \'")),
            ],
        ),
        (
            "this.A=='wow'||this.B>=1&&this.C<1",
            vec![
                Token::This,
                Token::Dot,
                Token::Identifier(String::from("A")),
                Token::Equal,
                Token::ContentString(String::from("'wow'")),
                Token::Or,
                Token::This,
                Token::Dot,
                Token::Identifier(String::from("B")),
                Token::GreaterThanOrEqual,
                Token::ContentString(String::from("1")),
                Token::And,
                Token::This,
                Token::Dot,
                Token::Identifier(String::from("C")),
                Token::LessThan,
                Token::ContentString(String::from("1")),
            ],
        ),
    ];
    assert!(fixture.len() > 0);
    for (str, expected) in fixture {
        let tokenized = tokenize(str);
        assert_eq!(tokenized, expected)
    }
}

#[test]
fn test_byte_serialization() {
    let fixture: Vec<(Predicate, Vec<u8>)> = vec![
        (
            Predicate::Primitive(PrimitivePredicate::Equal(
                FieldPath::from(vec![String::from("hello")]),
                UnitContent::String(String::from("data")),
            )),
            vec![
                0x00u8, 0x06, 0x05, 0x68, 0x65, 0x6c, 0x6c, 0x6f, 0x06, 0x10, 0x04, 0x64, 0x61,
                0x74, 0x61,
            ],
        ),
        (
            Predicate::Compound(CompoundPredicate::And(vec![
                Predicate::Primitive(PrimitivePredicate::Equal(
                    FieldPath::from(vec![String::from("name")]),
                    UnitContent::String(String::from("han")),
                )),
                Predicate::Compound(CompoundPredicate::Not(Box::new(Predicate::Primitive(
                    PrimitivePredicate::Equal(
                        FieldPath::from(vec![String::from("alive")]),
                        UnitContent::Bool(true),
                    ),
                )))),
            ])),
            vec![
                0xA0, 0x0d, 0x00, 0x05, 0x04, 0x6e, 0x61, 0x6d, 0x65, 0x05, 0x10, 0x03, 0x68,
                0x61, 0x6e, 0x0d, 0xA2, 0x0b, 0x00, 0x06, 0x05, 0x61, 0x6c, 0x69, 0x76, 0x65,
                0x02, 0x11, 0x01,
            ],
        ),
    ];
    assert!(fixture.len() > 0);
    for (predicate, bytes) in fixture {
        let serialized = predicate.serialize();
        assert_eq!(serialized, bytes);
        let (parsed, _) = Predicate::parse(&bytes).unwrap();
        assert_eq!(parsed, predicate);
    }
}

#[test]
fn test_satisfy_simple_predicate() {
    let predicate = Predicate::Primitive(PrimitivePredicate::Equal(
        FieldPath::from(vec![String::from("x")]),
        number(1.0),
    ));
    let content = UnitContent::Mapping(vec![(String::from("x"), number(1.0))]);
    assert!(predicate.check(&content));
}

#[test]
fn test_satisfy_simple_predicate_reject() {
    let predicate = Predicate::Primitive(PrimitivePredicate::Equal(
        FieldPath::from(vec![String::from("x")]),
        number(2.0),
    ));
    let content = UnitContent::Mapping(vec![(String::from("x"), number(1.0))]);
    assert!(!predicate.check(&content));
}

#[test]
fn test_whole_workflow() {
    let str = "this.x==1&&this.y==2";
    let tokens = tokenize(str);
    let contents = contents_for(&tokens, &|s| match s {
        "1" => number(1.0),
        "2" => number(2.0),
        other => UnitContent::String(String::from(other)),
    });
    let predicate = Predicate::parse_tokens(&tokens, &contents).unwrap();

    let content_correct = UnitContent::Mapping(vec![
        (String::from("x"), number(1.0)),
        (String::from("y"), number(2.0)),
    ]);
    assert!(predicate.check(&content_correct));

    let content_wrong = UnitContent::Mapping(vec![
        (String::from("x"), UnitContent::String(String::from("1"))),
        (String::from("y"), number(2.0)),
    ]);
    assert!(!predicate.check(&content_wrong));
}

#[test]
fn parse_tokens_splits_at_or_before_and() {
    let tokens = tokenize("this.a>1||this.b<2&&this.c==3");
    let contents = contents_for(&tokens, &|s| number(s.parse::<f64>().unwrap()));
    let predicate = Predicate::parse_tokens(&tokens, &contents).unwrap();
    let expected = Predicate::Compound(CompoundPredicate::Or(vec![
        Predicate::Primitive(PrimitivePredicate::GreaterThan(
            FieldPath::from(vec![String::from("a")]),
            number(1.0),
        )),
        Predicate::Compound(CompoundPredicate::And(vec![
            Predicate::Primitive(PrimitivePredicate::LessThan(
                FieldPath::from(vec![String::from("b")]),
                number(2.0),
            )),
            Predicate::Primitive(PrimitivePredicate::Equal(
                FieldPath::from(vec![String::from("c")]),
                number(3.0),
            )),
        ])),
    ]));
    assert_eq!(predicate, expected);
}

#[test]
fn parse_tokens_refuses_not_equal() {
    let tokens = tokenize("this.a!=1");
    let contents = contents_for(&tokens, &|_| number(1.0));
    assert_eq!(
        Predicate::parse_tokens(&tokens, &contents),
        Err(PredicateError::UnexpectedToken)
    );
}

#[test]
fn parse_tokens_refuses_missing_relation() {
    let tokens = vec![Token::This, Token::Dot, Token::Identifier(String::from("a"))];
    let contents = vec![UnitContent::Nil, UnitContent::Nil, UnitContent::Nil];
    assert_eq!(
        Predicate::parse_tokens(&tokens, &contents),
        Err(PredicateError::MalformedTokens)
    );
}

#[test]
fn order_predicates_compare_numbers() {
    let greater = Predicate::Primitive(PrimitivePredicate::GreaterThanOrEqual(
        FieldPath::from(vec![String::from("price")]),
        number(20.0),
    ));
    let cheap = UnitContent::Mapping(vec![(String::from("price"), number(10.0))]);
    let dear = UnitContent::Mapping(vec![(String::from("price"), number(20.0))]);
    assert!(!greater.check(&cheap));
    assert!(greater.check(&dear));
    let text = UnitContent::Mapping(vec![(String::from("price"), UnitContent::String(String::from("20")))]);
    assert!(!greater.check(&text));
    let nan = UnitContent::Mapping(vec![(String::from("price"), number(f64::NAN))]);
    assert!(!greater.check(&nan));
}

#[test]
fn missing_field_reads_as_nil() {
    let is_nil = Predicate::Primitive(PrimitivePredicate::Equal(
        FieldPath::from(vec![String::from("absent")]),
        UnitContent::Nil,
    ));
    let content = UnitContent::Mapping(vec![(String::from("x"), number(1.0))]);
    assert!(is_nil.check(&content));
    let negated = Predicate::Compound(CompoundPredicate::Not(Box::new(is_nil)));
    assert!(!negated.check(&content));
}

#[test]
fn predicate_parse_errors() {
    assert_eq!(Predicate::parse(&[]), Err(PredicateError::InsufficientBytes));
    assert_eq!(Predicate::parse(&[0x07]), Err(PredicateError::UnexpectedPrefix(0x07)));
    assert_eq!(
        Predicate::parse(&[0x00, 0xfd]),
        Err(PredicateError::MalformedBytes(VarIntError::UnexpectedFormat))
    );
    assert_eq!(
        Predicate::parse(&[0x00, 0x00, 0x01, 0x09]),
        Err(PredicateError::UnitContent(UnitContentError::UnexpectedTypePrefix(0x09)))
    );
}

#[test]
fn predicate_error_reversibility() {
    let errors = vec![
        PredicateError::UnexpectedToken,
        PredicateError::MalformedTokens,
        PredicateError::InsufficientBytes,
        PredicateError::MalformedBytes(VarIntError::UnexpectedFormat),
        PredicateError::UnexpectedPrefix(0x42),
        PredicateError::UnitContent(UnitContentError::MissingDataBytes),
        PredicateError::ParsePredicateErrorError,
    ];
    for expected in errors {
        let bytes = expected.marshal();
        let (actual, _) = PredicateError::parse(&bytes).unwrap();
        assert_eq!(actual, expected);
    }
}

#[test]
fn starts_with_at_finds_a_target_at_the_end() {
    let chars = ['a', 'b', 'c', 'd'];
    assert!(starts_with_at(&chars, 2, &['c', 'd']));
    assert!(starts_with_at(&chars, 0, &['a', 'b']));
    assert!(!starts_with_at(&chars, 3, &['d', 'e']));
    assert!(!starts_with_at(&chars, 1, &['c']));
}

#[test]
fn tokenize_reads_an_operator_and_this_at_the_end() {
    assert_eq!(
        tokenize("this.a>="),
        vec![
            Token::This,
            Token::Dot,
            Token::Identifier(String::from("a")),
            Token::GreaterThanOrEqual,
            Token::ContentString(String::new()),
        ]
    );
    assert_eq!(tokenize("this"), vec![Token::This, Token::ContentString(String::new())]);
}
