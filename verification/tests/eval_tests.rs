use lispcalc::env::Environment;
use lispcalc::errors::EvalError;
use lispcalc::eval::{eval, eval_with_env};
use lispcalc::value::Value;

#[test]
fn test_operators() {
    let res = eval("(1)").unwrap();
    assert_eq!(res, Value::Int(1));

    let res = eval("(-1)").unwrap();
    assert_eq!(res, Value::Int(-1));

    let res = eval("(- 1)").unwrap();
    assert_eq!(res, Value::Int(-1));

    let res = eval("(+ 1 0)").unwrap();
    assert_eq!(res, Value::Int(1));

    let res = eval("(+ 1 1)").unwrap();
    assert_eq!(res, Value::Int(2));

    let res = eval("(+ 1 -2)").unwrap();
    assert_eq!(res, Value::Int(-1));

    let res = eval("(+ 2.5 2.5)").unwrap();
    assert_eq!(res, Value::Int(5));
    let res = eval("(+ 2.5 2.6)").unwrap();
    assert_eq!(res, Value::Float((5.1f64).to_bits()));

    let res = eval("(/ 4 2)").unwrap();
    assert_eq!(res, Value::Int(2));
    let res = eval("(/ 5 2)").unwrap();
    assert_eq!(res, Value::Float((2.5f64).to_bits()));
    let res = eval("(/ 0 2)").unwrap();
    assert_eq!(res, Value::Int(0));
    let res = eval("(/ 5 -2)").unwrap();
    assert_eq!(res, Value::Float((-2.5f64).to_bits()));
    let res = eval("(/ -5 -2)").unwrap();
    assert_eq!(res, Value::Float((2.5f64).to_bits()));
    let res = eval("(// 5 2)").unwrap();
    assert_eq!(res, Value::Int(2));
    let res = eval("(% 5 2)").unwrap();
    assert_eq!(res, Value::Int(1));

    let res = eval("(% -2 24)").unwrap();
    assert_eq!(res, Value::Int(22));

    let res = eval("(* 2 3)").unwrap();
    assert_eq!(res, Value::Int(6));
    let res = eval("(* 2 2.5)").unwrap();
    assert_eq!(res, Value::Int(5));
    let res = eval("(* 2 2.1)").unwrap();
    assert_eq!(res, Value::Float((4.2f64).to_bits()));

    let res = eval("(^ 2 3)").unwrap();
    assert_eq!(res, Value::Int(8));
    let res = eval("(^ 2 -1)").unwrap();
    assert_eq!(res, Value::Float((0.5f64).to_bits()));
    let res = eval("(^ 16 (/ 1 2))").unwrap();
    assert_eq!(res, Value::Int(4));

    let res = eval("(+ (* 2 (- 10 3)) (/ (+ 15 5) (- 8 4)))").unwrap();
    assert_eq!(res, Value::Int(19));

    let res = eval("(= 5 5 5 5)").unwrap();
    assert_eq!(res, Value::Boolean(true));
    let res = eval("(= 5 5 1 5)").unwrap();
    assert_eq!(res, Value::Boolean(false));
    let res = eval("(!= 5 5 1 5)").unwrap();
    assert_eq!(res, Value::Boolean(false));
    let res = eval("(!= 1 2 3 4 1)").unwrap();
    assert_eq!(res, Value::Boolean(false));
    let res = eval("(!= 1 2 3 4 5)").unwrap();
    assert_eq!(res, Value::Boolean(true));

    let res = eval("(< 1 2 3 4 5)").unwrap();
    assert_eq!(res, Value::Boolean(true));
    let res = eval("(< 1 2 3 3 5)").unwrap();
    assert_eq!(res, Value::Boolean(false));
    let res = eval("(<= 1 2 3 3 5)").unwrap();
    assert_eq!(res, Value::Boolean(true));
    let res = eval("(<= 1 2 3 3 5 -99)").unwrap();
    assert_eq!(res, Value::Boolean(false));
    let res = eval("(< -5 -3 0 2 6)").unwrap();
    assert_eq!(res, Value::Boolean(true));

    let res = eval("(> 1 2 3 3 5)").unwrap();
    assert_eq!(res, Value::Boolean(false));
    let res = eval("(> 1 0 -1 -5)").unwrap();
    assert_eq!(res, Value::Boolean(true));
    let res = eval("(> 1 0 0 -5)").unwrap();
    assert_eq!(res, Value::Boolean(false));
    let res = eval("(>= 1 0 0 -5)").unwrap();
    assert_eq!(res, Value::Boolean(true));
}

#[test]
fn unbalanced_open_paren_is_a_parsing_error() {
    match eval("(") {
        Err(EvalError::Parsing(e)) => {
            assert_eq!(e.message, "Expected token after '(' found EOF");
        }
        other => panic!("expected a parsing error, got {:?}", other),
    }
}

#[test]
fn unterminated_string_is_a_tokenizing_error() {
    match eval("\"abc") {
        Err(EvalError::Tokenizing(e)) => {
            assert_eq!(e.message, "Unclosed String");
            assert_eq!(e.line_number, 0);
            assert_eq!(e.token_index, 0);
        }
        other => panic!("expected a tokenizing error, got {:?}", other),
    }
}

#[test]
fn comparing_a_string_is_a_runtime_error() {
    match eval("(< \"a\" 1)") {
        Err(EvalError::Runtime(e)) => {
            assert_eq!(e.message, "Incompatible types for comparison: String and Int");
        }
        other => panic!("expected a runtime error, got {:?}", other),
    }
    match eval("(> 1 (= 1 1))") {
        Err(EvalError::Runtime(e)) => {
            assert_eq!(e.message, "Incompatible types for comparison: Int and Boolean");
        }
        other => panic!("expected a runtime error, got {:?}", other),
    }
}

#[test]
fn distinctness_never_fails_on_mixed_kinds() {
    // Equality at `!=` use sites never fails: differing kinds are distinct.
    let res = eval("(!= 1 \"a\")").unwrap();
    assert_eq!(res, Value::Boolean(true));
    let res = eval("(!= \"a\" \"a\" )").unwrap();
    assert_eq!(res, Value::Boolean(false));
}

#[test]
fn an_applied_identifier_is_not_implemented() {
    let mut env = Environment::new();
    env.set_var(&String::from("x"), Value::Int(4));
    // An identifier that carries operands has no substitution meaning.
    match eval_with_env("(+ x 1)", &mut env) {
        Err(EvalError::Runtime(e)) => {
            assert_eq!(e.message, "Not implemented");
        }
        other => panic!("expected a runtime error, got {:?}", other),
    }
}

#[test]
fn unrecognized_character_is_a_tokenizing_error() {
    match eval("(+ 1 #)") {
        Err(EvalError::Tokenizing(e)) => {
            assert_eq!(e.message, "Unrecognized Token '#'");
            assert_eq!(e.token_index, 5);
        }
        other => panic!("expected a tokenizing error, got {:?}", other),
    }
}

#[test]
fn lone_bang_is_a_tokenizing_error() {
    match eval("(! 1)") {
        Err(EvalError::Tokenizing(e)) => {
            assert_eq!(e.message, "Unrecognized Token '!'");
        }
        other => panic!("expected a tokenizing error, got {:?}", other),
    }
}

#[test]
fn unbound_identifier_is_a_runtime_error() {
    match eval("(+ flurb 1)") {
        Err(EvalError::Runtime(e)) => {
            assert_eq!(e.message, "Not implemented");
        }
        other => panic!("expected a runtime error, got {:?}", other),
    }
}

#[test]
fn quote_must_be_followed_by_a_group() {
    match eval("'1") {
        Err(EvalError::Parsing(e)) => {
            assert_eq!(e.message, "Expected '(' after '");
        }
        other => panic!("expected a parsing error, got {:?}", other),
    }
}

#[test]
fn modulo_by_zero_is_a_runtime_error() {
    match eval("(% 5 0)") {
        Err(EvalError::Runtime(e)) => {
            assert_eq!(e.message, "Modulo by zero");
        }
        other => panic!("expected a runtime error, got {:?}", other),
    }
}

#[test]
fn empty_input_is_a_runtime_error() {
    match eval("") {
        Err(EvalError::Runtime(e)) => {
            assert_eq!(e.message, "Nothing to evaluate");
        }
        other => panic!("expected a runtime error, got {:?}", other),
    }
}

#[test]
fn the_builtin_pi_binding_is_available() {
    let res = eval("(pi)").unwrap();
    assert_eq!(res, Value::Float((3.14f64).to_bits()));
    let res = eval("(* 2 pi)").unwrap();
    assert_eq!(res, Value::Float((6.28f64).to_bits()));
}

#[test]
fn eval_with_env_reads_session_bindings() {
    let mut env = Environment::new();
    env.set_var(&String::from("x"), Value::Int(4));
    // The identifier takes what follows it as its own operands, so it goes
    // last; its bound value replaces the whole identifier form.
    let res = eval_with_env("(+ 1 x)", &mut env).unwrap();
    assert_eq!(res, Value::Int(5));
    // A later binding overwrites the earlier one.
    env.set_var(&String::from("x"), Value::Int(10));
    let res = eval_with_env("(+ 1 x)", &mut env).unwrap();
    assert_eq!(res, Value::Int(11));
}

#[test]
fn string_concatenation_and_equality() {
    // The addition rule concatenates strings; through `+` the fold starts
    // from the integer identity, so the rule is reached directly.
    let res = Value::Str(String::from("foo")).add(Value::Str(String::from("bar")));
    assert_eq!(res, Value::Str(String::from("foobar")));
    let res = eval("(= \"a\" \"a\")").unwrap();
    assert_eq!(res, Value::Boolean(true));
    let res = eval("(= \"a\" \"b\")").unwrap();
    assert_eq!(res, Value::Boolean(false));
}

#[test]
fn incompatible_addition_yields_the_null_sentinel() {
    let res = eval("(+ 1 \"a\")").unwrap();
    assert!(matches!(res, Value::Null));
    // The sentinel equals nothing, not even itself.
    assert!(res != Value::Null);
}

#[test]
fn unary_minus_flips_booleans_and_negates_floats() {
    let res = eval("(- (= 1 1))").unwrap();
    assert_eq!(res, Value::Boolean(false));
    let res = eval("(- 2.5)").unwrap();
    assert_eq!(res, Value::Float((-2.5f64).to_bits()));
}

#[test]
fn subtraction_mixes_and_demotes() {
    let res = eval("(- 5.5 2.2)").unwrap();
    assert_eq!(res, Value::Float((3.3f64).to_bits()));
    let res = eval("(- 5.5 2.5)").unwrap();
    assert_eq!(res, Value::Int(3));
    let res = eval("(- 10 2 3)").unwrap();
    assert_eq!(res, Value::Int(5));
}

#[test]
fn float_modulo_follows_the_divisor_sign_formula() {
    let res = eval("(% 5.5 2)").unwrap();
    assert_eq!(res, Value::Float((1.5f64).to_bits()));
    let res = eval("(% 5.0 2.5)").unwrap();
    assert_eq!(res, Value::Int(0));
}

#[test]
fn comparisons_promote_integers_to_floats() {
    let res = eval("(< 1 1.5 2)").unwrap();
    assert_eq!(res, Value::Boolean(true));
    let res = eval("(>= 2.5 2.5 1)").unwrap();
    assert_eq!(res, Value::Boolean(true));
}

#[test]
fn multi_line_input_is_lexed_line_by_line() {
    let res = eval("(+ 1\n 2)").unwrap();
    assert_eq!(res, Value::Int(3));
}

#[test]
fn only_the_first_top_level_form_is_evaluated() {
    let res = eval("(+ 1 2) (+ 3 4)").unwrap();
    assert_eq!(res, Value::Int(3));
}
