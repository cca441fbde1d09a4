use jsonom::parser::{array, boolean, integer, key, key_value, null, object, string, value};
use jsonom::{parse, parse_with_depth, ContextFrame, ErrorKind, RuleLabel, Value};

fn chars(s: &str) -> Vec<char> {
    s.chars().collect()
}

#[test]
fn parse_null() {
    let cs = chars("null");
    assert_eq!(null(&cs, 0), Ok(((), 4)));
}

#[test]
fn parse_boolean() {
    let cs = chars("true");
    assert_eq!(boolean(&cs, 0), Ok((true, 4)));
    let cs = chars("false");
    assert_eq!(boolean(&cs, 0), Ok((false, 5)));
}

#[test]
fn parse_number() {
    let cs = chars("114514");
    assert_eq!(integer(&cs, 0), Ok((114514, 6)));
    let cs = chars("+114514");
    assert_eq!(integer(&cs, 0), Ok((114514, 7)));
    let cs = chars("-114514");
    assert_eq!(integer(&cs, 0), Ok((-114514, 7)));
}

#[test]
fn parse_array() {
    let v = vec![
        Value::Null,
        14.into(),
        true.into(),
        false.into(),
        vec![Value::from(1), 2.into(), 3.into()].into(),
    ];
    let input = " [ null , 14 , true , false , [1 , 2 , 3] ] ";
    let cs = chars(input);
    // The parser consumes through the closing bracket, leaving the final
    // space as the remainder.
    assert_eq!(array(&cs, 0, 128), Ok((v, input.chars().count() - 1)));
}

#[test]
fn parse_string() {
    let input = r#""abc""#;
    let cs = chars(input);
    assert_eq!(string(&cs, 0), Ok(("abc".to_owned(), 5)));

    let input = r#""tab:\tafter tab, newline:\nnew line, quote: \", emoji: \u{1F602}, newline:\nescaped whitespace: \    abc""#;
    let cs = chars(input);
    let expected = String::from(
        "tab:\tafter tab, newline:\nnew line, quote: \", emoji: \u{1F602}, newline:\nescaped whitespace: abc",
    );
    assert_eq!(string(&cs, 0), Ok((expected, input.chars().count())));
}

#[test]
fn parse_key() {
    let s = "abc_123".to_owned();
    let cs = chars(r#" "abc_123" "#);
    assert_eq!(key(&cs, 0), Ok((s, 10)));

    let cs = chars(r#" "123abc" "#);
    assert!(key(&cs, 0).is_err());
}

#[test]
fn parse_key_value_pairs() {
    let entry = (String::from("Senpai"), Value::Number(114514));
    let input = r#" "Senpai" : 114514 "#;
    let cs = chars(input);
    assert_eq!(
        key_value(&cs, 0, 128),
        Ok((entry, input.chars().count() - 1))
    );
}

#[test]
fn parse_object() {
    let input = r#"
        {
            "name": "Senpai" ,
            "age": 24 ,
            "job": "Student" ,
            "hobby": 114514
        }
        "#;
    let cs = chars(input);
    let result = object(&cs, 0, 128).unwrap().0;
    println!("{result:#?}");
}

#[test]
fn parse_mixed_array_document() {
    let expected = Value::Array(vec![
        Value::Null,
        Value::Number(14),
        Value::Boolean(true),
        Value::Boolean(false),
        Value::Array(vec![Value::Number(1), Value::Number(2), Value::Number(3)]),
    ]);
    assert_eq!(parse(" [ null , 14 , true , false , [1 , 2 , 3] ] "), Ok(expected));
}

#[test]
fn duplicate_key_keeps_last_value() {
    let parsed = parse(r#"{"a":1,"a":2}"#).unwrap();
    assert_eq!(
        parsed,
        Value::Object(vec![(String::from("a"), Value::Number(2))])
    );
}

#[test]
fn empty_containers() {
    assert_eq!(parse("{}"), Ok(Value::Object(vec![])));
    assert_eq!(parse("[]"), Ok(Value::Array(vec![])));
}

#[test]
fn integer_overflow_is_reported() {
    let cs = chars("99999999999999999999");
    let err = integer(&cs, 0).unwrap_err();
    assert_eq!(err.kind, ErrorKind::NumericOverflow);
    assert_eq!(err.offset, 0);

    let err = parse("[99999999999999999999]").unwrap_err();
    assert_eq!(err.kind, ErrorKind::NumericOverflow);
}

#[test]
fn extreme_integers_are_accepted() {
    let cs = chars("-9223372036854775808");
    assert_eq!(integer(&cs, 0), Ok((i64::MIN, 20)));
    let cs = chars("9223372036854775807");
    assert_eq!(integer(&cs, 0), Ok((i64::MAX, 19)));
    let cs = chars("-9223372036854775809");
    assert_eq!(integer(&cs, 0).unwrap_err().kind, ErrorKind::NumericOverflow);
    let cs = chars("9223372036854775808");
    assert_eq!(integer(&cs, 0).unwrap_err().kind, ErrorKind::NumericOverflow);
}

#[test]
fn unterminated_and_trailing_comma_fail() {
    let cs = chars("\"abc");
    let err = string(&cs, 0).unwrap_err();
    assert_eq!(err.kind, ErrorKind::Unterminated);

    let err = parse("[1,2,]").unwrap_err();
    assert_eq!(err.kind, ErrorKind::Syntax);
}

#[test]
fn bare_scalar_root_is_rejected() {
    let err = parse("42").unwrap_err();
    assert_eq!(err.kind, ErrorKind::Syntax);
    assert_eq!(err.offset, 0);

    // The same text is a fine value inside a container.
    let cs = chars("42");
    assert_eq!(value(&cs, 0, 1), Ok((Value::Number(42), 2)));
    assert_eq!(parse("[42]"), Ok(Value::Array(vec![Value::Number(42)])));
}

#[test]
fn malformed_keys_are_rejected() {
    let err = parse(r#"{"123abc":1}"#).unwrap_err();
    assert_eq!(err.kind, ErrorKind::MalformedKey);
    assert_eq!(err.offset, 2);

    let err = parse(r#"{"ab-c":1}"#).unwrap_err();
    assert_eq!(err.kind, ErrorKind::MalformedKey);
    assert_eq!(err.offset, 4);

    assert_eq!(
        parse(r#"{"abc_123":1}"#),
        Ok(Value::Object(vec![(String::from("abc_123"), Value::Number(1))]))
    );
}

#[test]
fn escape_failures_are_distinguished() {
    let cs = chars(r#""\x""#);
    assert_eq!(string(&cs, 0).unwrap_err().kind, ErrorKind::UnrecognizedEscape);

    let cs = chars(r#""\u{D800}""#);
    assert_eq!(string(&cs, 0).unwrap_err().kind, ErrorKind::InvalidUnicodeScalar);

    let cs = chars(r#""\u{}""#);
    assert_eq!(string(&cs, 0).unwrap_err().kind, ErrorKind::Syntax);

    let cs = chars(r#""""#);
    assert_eq!(string(&cs, 0), Ok((String::new(), 2)));
}

#[test]
fn depth_bound_is_enforced() {
    assert_eq!(
        parse_with_depth("[[[1]]]", 2).unwrap_err().kind,
        ErrorKind::DepthExceeded
    );
    assert!(parse_with_depth("[[[1]]]", 3).is_ok());
}

#[test]
fn context_stack_lists_rules_innermost_first() {
    let err = parse("[\"a").unwrap_err();
    assert_eq!(err.kind, ErrorKind::Unterminated);
    assert_eq!(err.offset, 3);
    assert_eq!(
        err.context,
        vec![
            ContextFrame { label: RuleLabel::StringRule, offset: 1 },
            ContextFrame { label: RuleLabel::ArrayRule, offset: 0 },
        ]
    );
}

#[test]
fn whitespace_is_skipped_before_every_token() {
    let parsed = parse(" { \"a\" : [ 1 , \"b\" ] , \"c\" : null } ").unwrap();
    assert_eq!(
        parsed,
        Value::Object(vec![
            (
                String::from("a"),
                Value::Array(vec![Value::Number(1), Value::String(String::from("b"))])
            ),
            (String::from("c"), Value::Null),
        ])
    );
}
