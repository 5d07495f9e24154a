use lispcalc::eval::eval;
use lispcalc::token::{TokenContent, TokenType};
use lispcalc::tokenize::{tokenize, tokenize_line};
use lispcalc::value::Value;

#[test]
fn tokenize_produces_kinds_and_positions() {
    let tokens = tokenize("(+ 1 2.5)").unwrap();
    assert_eq!(tokens.len(), 5);
    assert_eq!(tokens[0].token_type, TokenType::Lparen);
    assert_eq!(tokens[0].context.line_number, 0);
    assert_eq!(tokens[0].context.column_number, 0);
    assert_eq!(tokens[1].token_type, TokenType::Operator);
    assert_eq!(tokens[2].token_type, TokenType::Number);
    match tokens[2].content {
        Some(TokenContent::Int(v)) => assert_eq!(v, 1),
        ref other => panic!("expected an integer payload, got {:?}", other),
    }
    match tokens[3].content {
        Some(TokenContent::Float(b)) => assert_eq!(b, (2.5f64).to_bits()),
        ref other => panic!("expected a float payload, got {:?}", other),
    }
    assert_eq!(tokens[4].token_type, TokenType::Rparen);
}

#[test]
fn a_leading_minus_before_a_digit_is_a_signed_literal() {
    let tokens = tokenize("(-1)").unwrap();
    assert_eq!(tokens.len(), 3);
    match tokens[1].content {
        Some(TokenContent::Int(v)) => assert_eq!(v, -1),
        ref other => panic!("expected an integer payload, got {:?}", other),
    }
    // With anything else after it, the minus is the subtraction operator.
    let tokens = tokenize("(- a)").unwrap();
    assert_eq!(tokens[1].token_type, TokenType::Operator);
}

#[test]
fn base_prefixes_scan_as_integers() {
    let res = eval("(+ 0x1A 0)").unwrap();
    assert_eq!(res, Value::Int(26));
    let res = eval("(+ 0b101 0)").unwrap();
    assert_eq!(res, Value::Int(5));
    let res = eval("(+ 0o17 0)").unwrap();
    assert_eq!(res, Value::Int(15));
    let res = eval("(+ -0x10 0)").unwrap();
    assert_eq!(res, Value::Int(-16));
}

#[test]
fn a_second_decimal_point_fails() {
    let mut tokens = Vec::new();
    let err = tokenize_line("1.2.3", &mut tokens, 0).unwrap_err();
    assert_eq!(err.message, "Invalid number: multiple decimal points found");
    // The fault struck the very first token, so nothing was completed.
    assert!(tokens.is_empty());
}

#[test]
fn tokens_completed_before_a_fault_remain() {
    let mut tokens = Vec::new();
    let err = tokenize_line("(5 1.2.3", &mut tokens, 0).unwrap_err();
    assert_eq!(err.message, "Invalid number: multiple decimal points found");
    assert_eq!(tokens.len(), 2);
    assert_eq!(tokens[0].token_type, TokenType::Lparen);
    match tokens[1].content {
        Some(TokenContent::Int(v)) => assert_eq!(v, 5),
        ref other => panic!("expected an integer payload, got {:?}", other),
    }
    let mut tokens = Vec::new();
    let err = tokenize_line("1 !", &mut tokens, 0).unwrap_err();
    assert_eq!(err.message, "Unrecognized Token '!'");
    assert_eq!(tokens.len(), 1);
}

#[test]
fn a_fractional_literal_needs_a_decimal_base() {
    let mut tokens = Vec::new();
    let err = tokenize_line("0x1.5", &mut tokens, 3).unwrap_err();
    assert_eq!(err.message, "Floats are only supported for decimal numbers");
    assert_eq!(err.line_number, 3);
}

#[test]
fn an_oversized_literal_fails_to_scan() {
    let mut tokens = Vec::new();
    let err = tokenize_line("99999999999999999999", &mut tokens, 0).unwrap_err();
    assert_eq!(err.message, "Invalid number");
}

#[test]
fn identifiers_take_letters_digits_and_dashes() {
    let tokens = tokenize("foo-bar2 baz").unwrap();
    assert_eq!(tokens.len(), 2);
    match tokens[0].content {
        Some(TokenContent::Str(ref s)) => assert_eq!(s, "foo-bar2"),
        ref other => panic!("expected an identifier payload, got {:?}", other),
    }
    assert_eq!(tokens[1].context.column_number, 9);
}

#[test]
fn string_literals_keep_their_characters() {
    let tokens = tokenize("\"hello world\"").unwrap();
    assert_eq!(tokens.len(), 1);
    assert_eq!(tokens[0].token_type, TokenType::StrLit);
    match tokens[0].content {
        Some(TokenContent::Str(ref s)) => assert_eq!(s, "hello world"),
        ref other => panic!("expected a string payload, got {:?}", other),
    }
}

#[test]
fn two_character_operators_need_their_lookahead() {
    let tokens = tokenize("<= >= != // < > /").unwrap();
    assert_eq!(tokens.len(), 7);
    for t in &tokens {
        assert_eq!(t.token_type, TokenType::Operator);
    }
}

#[test]
fn line_numbers_carry_into_errors() {
    let mut tokens = Vec::new();
    tokenize_line("(+ 1", &mut tokens, 0).unwrap();
    assert_eq!(tokens.len(), 3);
    let err = tokenize("(+ 1\n\"oops").unwrap_err();
    assert_eq!(err.line_number, 1);
    assert_eq!(err.message, "Unclosed String");
}

#[test]
fn a_quote_token_marks_unevaluated_data() {
    let tokens = tokenize("'(1 2)").unwrap();
    assert_eq!(tokens[0].token_type, TokenType::Quote);
    // Evaluating quoted data is not implemented.
    match eval("(+ '(1 2) 1)") {
        Err(lispcalc::errors::EvalError::Runtime(e)) => {
            assert_eq!(e.message, "Not implemented");
        }
        other => panic!("expected a runtime error, got {:?}", other),
    }
}

#[test]
fn errors_render_with_their_positions() {
    let mut tokens = Vec::new();
    let err = tokenize_line("\"oops", &mut tokens, 2).unwrap_err();
    assert_eq!(
        err.to_display_string(),
        "Error on line 2, column 0, error index: 4: Unclosed String"
    );
    match eval("(") {
        Err(lispcalc::errors::EvalError::Parsing(e)) => {
            assert_eq!(
                e.to_display_string(),
                "Parsing Error: Expected token after '(' found EOF"
            );
        }
        other => panic!("expected a parsing error, got {:?}", other),
    }
}
