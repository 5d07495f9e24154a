use lispcalc::env::Environment;
use lispcalc::repl::is_complete_expression;
use lispcalc::value::{IntParseError, NumBase, Value};

#[test]
fn parse_int_handles_the_four_bases() {
    assert_eq!(NumBase::Dec.parse_int("42"), Ok(42));
    assert_eq!(NumBase::Dec.parse_int("-42"), Ok(-42));
    assert_eq!(NumBase::Dec.parse_int("+42"), Ok(42));
    assert_eq!(NumBase::Hex.parse_int("0x1A"), Ok(26));
    assert_eq!(NumBase::Hex.parse_int("1a"), Ok(26));
    assert_eq!(NumBase::Oct.parse_int("0o17"), Ok(15));
    assert_eq!(NumBase::Bin.parse_int("0b101"), Ok(5));
}

#[test]
fn parse_int_reports_each_failure() {
    assert_eq!(NumBase::Dec.parse_int(""), Err(IntParseError::Empty));
    assert_eq!(NumBase::Hex.parse_int("0x"), Err(IntParseError::Empty));
    assert_eq!(NumBase::Dec.parse_int("-"), Err(IntParseError::Empty));
    assert_eq!(NumBase::Dec.parse_int("12z"), Err(IntParseError::InvalidDigit));
    assert_eq!(NumBase::Bin.parse_int("0b102"), Err(IntParseError::InvalidDigit));
    assert_eq!(
        NumBase::Dec.parse_int("9223372036854775808"),
        Err(IntParseError::Overflow)
    );
    assert_eq!(NumBase::Dec.parse_int("9223372036854775807"), Ok(i64::MAX));
    assert_eq!(NumBase::Dec.parse_int("-9223372036854775808"), Ok(i64::MIN));
}

#[test]
fn valid_digits_follow_the_bases() {
    assert!(NumBase::Dec.is_valid_digit('7'));
    assert!(!NumBase::Dec.is_valid_digit('a'));
    assert!(NumBase::Hex.is_valid_digit('f'));
    assert!(NumBase::Hex.is_valid_digit('A'));
    assert!(!NumBase::Hex.is_valid_digit('g'));
    assert!(NumBase::Oct.is_valid_digit('6'));
    assert!(NumBase::Oct.is_valid_digit('7'));
    assert!(!NumBase::Oct.is_valid_digit('8'));
    assert!(NumBase::Bin.is_valid_digit('1'));
    assert!(!NumBase::Bin.is_valid_digit('2'));
}

#[test]
fn float_equality_uses_a_tolerance() {
    let a = Value::Float((0.1f64 + 0.2f64).to_bits());
    let b = Value::Float((0.3f64).to_bits());
    assert!((0.1f64 + 0.2f64).to_bits() != (0.3f64).to_bits());
    assert_eq!(a, b);
    let c = Value::Float((0.31f64).to_bits());
    assert!(a != c);
}

#[test]
fn values_of_different_kinds_are_unequal() {
    assert!(Value::Int(1) != Value::Float((1.0f64).to_bits()));
    assert!(Value::Boolean(true) != Value::Int(1));
    assert!(Value::Str(String::from("1")) != Value::Int(1));
}

#[test]
fn display_renders_literal_forms() {
    assert_eq!(Value::Int(42).to_display_string(), "42");
    assert_eq!(Value::Int(-7).to_display_string(), "-7");
    assert_eq!(Value::Int(i64::MIN).to_display_string(), "-9223372036854775808");
    assert_eq!(Value::Boolean(true).to_display_string(), "true");
    assert_eq!(Value::Boolean(false).to_display_string(), "false");
    assert_eq!(Value::Str(String::from("hi")).to_display_string(), "\"hi\"");
    assert_eq!(Value::Null.to_display_string(), "null");
}

#[test]
fn environment_lookup_finds_the_latest_binding() {
    let mut env = Environment::new();
    assert!(env.get_var(&String::from("a")).is_none());
    env.set_var(&String::from("a"), Value::Int(1));
    env.set_var(&String::from("b"), Value::Int(2));
    env.set_var(&String::from("a"), Value::Int(3));
    assert_eq!(env.get_var(&String::from("a")), Some(&Value::Int(3)));
    assert_eq!(env.get_var(&String::from("b")), Some(&Value::Int(2)));
    assert!(env.get_var(&String::from("c")).is_none());
}

#[test]
fn complete_expressions_balance_their_parentheses() {
    assert!(is_complete_expression("(+ 1 2)"));
    assert!(is_complete_expression(""));
    assert!(is_complete_expression("1 2 3"));
    assert!(!is_complete_expression("(+ 1 (next"));
    assert!(is_complete_expression("(+ 1 (* 2 3))"));
    // Only the counts matter, not the nesting order.
    assert!(is_complete_expression(")("));
}

#[test]
fn arithmetic_on_values_wraps_at_the_machine_edge() {
    let res = lispcalc::eval::eval("(+ 9223372036854775807 1)").unwrap();
    assert_eq!(res, Value::Int(i64::MIN));
}

#[test]
fn demoted_results_stay_integers_when_fed_back() {
    // A demoted sum re-enters the same operator without turning float.
    let first = lispcalc::eval::eval("(+ 2.5 2.5)").unwrap();
    assert_eq!(first, Value::Int(5));
    let again = lispcalc::eval::eval("(+ (+ 2.5 2.5) 0)").unwrap();
    assert_eq!(again, Value::Int(5));
    // The same holds for the other demoting operators.
    let div = lispcalc::eval::eval("(/ (/ 8 2) 2)").unwrap();
    assert_eq!(div, Value::Int(2));
    let pow = lispcalc::eval::eval("(^ (^ 2 2) 2)").unwrap();
    assert_eq!(pow, Value::Int(16));
}

#[test]
fn tree_listing_shows_tags_and_nesting() {
    let tokens = lispcalc::tokenize::tokenize("(+ 1 2)").unwrap();
    let root = lispcalc::parse::parse(tokens).unwrap();
    let listing = root.to_display_string();
    assert_eq!(
        listing,
        "Node Type: Root, Children:\n  Node Type: Operator(Plus), Children:\n    Node Type: Literal(1), No children\n    Node Type: Literal(2), No children\n\n\n"
    );
}
