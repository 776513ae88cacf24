use ini_file_parser::parse_ini;
use ini_file_parser::reduce;
use ini_file_parser::Node;
use ini_file_parser::ParseError;
use ini_file_parser::Rule;
use ini_file_parser::Span;
use ini_file_parser::Value;

#[test]
fn parse_ini_basic_test() {
    let config = parse_ini("[SECTION]\nkey=value\n").unwrap();
    assert_eq!(config.sections.len(), 1);
    assert_eq!(config.sections[0].name, "SECTION");
    assert_eq!(
        config.get_value_in_section("SECTION", "key"),
        Some(&Value::String("value".to_string()))
    );
    assert_eq!(config.get_value_in_section("SECTION", "missing"), None);
    assert_eq!(config.get_value_in_section("OTHER", "key"), None);
}

#[test]
fn last_write_wins_test() {
    let config = parse_ini("[A]\nk=1\n[A]\nk=2\n").unwrap();
    assert_eq!(config.sections.len(), 1);
    assert_eq!(config.sections[0].name, "A");
    assert_eq!(
        config.get_value_in_section("A", "k"),
        Some(&Value::String("2".to_string()))
    );
}

#[test]
fn duplicate_key_in_section_test() {
    let config = parse_ini("[A]\nk=1\nk=2\n").unwrap();
    assert_eq!(
        config.get_value_in_section("A", "k"),
        Some(&Value::String("2".to_string()))
    );
}

#[test]
fn array_round_trip_test() {
    let config = parse_ini("[S]\nkey=[a, b, c]\n").unwrap();
    assert_eq!(
        config.get_value_in_section("S", "key"),
        Some(&Value::Array(vec![
            "a".to_string(),
            "b".to_string(),
            "c".to_string()
        ]))
    );
}

#[test]
fn empty_and_whitespace_input_test() {
    let config = parse_ini("").unwrap();
    assert_eq!(config.sections.len(), 0);

    let config = parse_ini(" ").unwrap();
    assert_eq!(config.sections.len(), 0);

    let config = parse_ini(" \t ").unwrap();
    assert_eq!(config.sections.len(), 0);

    let config = parse_ini("\n \t\n").unwrap();
    assert_eq!(config.sections.len(), 0);
}

#[test]
fn malformed_inputs_test() {
    // missing closing bracket in an array
    assert!(matches!(
        parse_ini("[A]\nk=[a, b\n"),
        Err(ParseError::Syntax { .. })
    ));
    // a key with no value
    assert!(matches!(
        parse_ini("[A]\nk=\n"),
        Err(ParseError::Syntax { .. })
    ));
    // a section header not terminated by a line break
    assert!(matches!(
        parse_ini("[A]k=v\n"),
        Err(ParseError::Syntax { .. })
    ));
    assert!(matches!(parse_ini("[A]"), Err(ParseError::Syntax { .. })));
    // a delimiter in the middle of what should be one full value
    assert!(matches!(
        parse_ini("[A]\nk=a,b\n"),
        Err(ParseError::Syntax { .. })
    ));
    // a key whose tail leaves the letters-only alphabet
    assert!(matches!(
        parse_ini("[A]\nAAA$%#=value\n"),
        Err(ParseError::Syntax { .. })
    ));
}

#[test]
fn get_value_first_section_test() {
    let config = parse_ini("[ONE]\na=1\n[TWO]\na=2\nb=3\n").unwrap();
    assert_eq!(config.get_value("a"), Some(&Value::String("1".to_string())));
    assert_eq!(config.get_value("b"), Some(&Value::String("3".to_string())));
    assert_eq!(config.get_value("c"), None);
}

#[test]
fn comments_are_skipped_test() {
    let config = parse_ini(";top \n[A]\n;inside \nk=v\n").unwrap();
    assert_eq!(config.sections.len(), 1);
    assert_eq!(
        config.get_value_in_section("A", "k"),
        Some(&Value::String("v".to_string()))
    );
}

#[test]
fn reduce_no_content_test() {
    let node = Node {
        rule: Rule::key,
        span: Span { start: 0, end: 0 },
        text: String::new(),
        children: Vec::new(),
    };
    assert_eq!(reduce(&node), Err(ParseError::NoContent));
}

#[test]
fn reduce_invariant_violation_test() {
    let stray = Node {
        rule: Rule::key,
        span: Span { start: 0, end: 0 },
        text: String::new(),
        children: Vec::new(),
    };
    let root = Node {
        rule: Rule::file,
        span: Span { start: 0, end: 0 },
        text: String::new(),
        children: vec![stray],
    };
    assert_eq!(reduce(&root), Err(ParseError::InvariantViolation));
}

#[test]
fn array_items_trimmed_test() {
    let config = parse_ini("[S]\nkey=[ a ,  b,c ]\n").unwrap();
    assert_eq!(
        config.get_value_in_section("S", "key"),
        Some(&Value::Array(vec![
            "a".to_string(),
            "b".to_string(),
            "c".to_string()
        ]))
    );
}
