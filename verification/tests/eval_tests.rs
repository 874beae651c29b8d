use minilang::eval::evaluate;
use minilang::eval::Environment;
use minilang::eval::EvalError;
use minilang::lexer::tokenize;
use minilang::lexer::Token;
use minilang::lexer::TokenType;
use minilang::parser::tokens_to_expr;
use minilang::parser::Expression;

/// Tokenize a statement, drop the end sentinel, build and evaluate it.
fn run_line(line: &str, env: &mut Environment) -> Result<Expression, EvalError> {
    let mut toks = tokenize(line.to_string());
    toks.pop();
    let expr = tokens_to_expr(toks);
    evaluate(&expr, env)
}

/// Build and evaluate a statement from whole lexemes.  The lexer keeps
/// punctuation atomic, so a decimal literal such as `1.5` can only reach
/// the evaluator as an already-classified token.
fn run_lexemes(lexemes: &[&str], env: &mut Environment) -> Result<Expression, EvalError> {
    let toks: Vec<Token> = lexemes
        .iter()
        .map(|l| Token::tokenize(l.to_string()))
        .collect();
    let expr = tokens_to_expr(toks);
    evaluate(&expr, env)
}

fn expect_literal(r: Result<Expression, EvalError>, kind: TokenType, value: &str) {
    match r {
        Ok(Expression::TokenExpression(d)) => {
            assert_eq!(d.token.token_type, kind);
            assert_eq!(d.token.value, value.to_string());
        }
        _ => assert!(false),
    }
}

#[test]
fn evaluate_int_arithmetic_test() {
    let mut env = Environment::new();
    expect_literal(
        run_line("8 10 *", &mut env),
        TokenType::NumericIntLiteral,
        "80",
    );
    expect_literal(
        run_line("1 2 +", &mut env),
        TokenType::NumericIntLiteral,
        "3",
    );
    expect_literal(
        run_line("2 5 -", &mut env),
        TokenType::NumericIntLiteral,
        "-3",
    );
    expect_literal(
        run_line("7 2 /", &mut env),
        TokenType::NumericIntLiteral,
        "3",
    );
}

#[test]
fn evaluate_division_by_zero_test() {
    let mut env = Environment::new();
    assert_eq!(run_line("5 0 /", &mut env), Err(EvalError::DivisionByZero));
}

#[test]
fn evaluate_type_mismatch_test() {
    let mut env = Environment::new();
    // Mixed numeric kinds are rejected.
    assert_eq!(
        run_lexemes(&["5", "1.5", "+"], &mut env),
        Err(EvalError::TypeMismatch)
    );
    // A non-arithmetic operator over numeric literals is rejected.
    assert_eq!(run_line("1 2 ;", &mut env), Err(EvalError::TypeMismatch));
    // A declared type that admits no literal of the value's kind.
    assert_eq!(
        run_line("foo string 1 =", &mut env),
        Err(EvalError::TypeMismatch)
    );
    // An unrecognized declared type.
    assert_eq!(
        run_line("foo float 39400 =", &mut env),
        Err(EvalError::TypeMismatch)
    );
}

#[test]
fn evaluate_assignment_stores_test() {
    let mut env = Environment::new();
    expect_literal(
        run_line("foo int 101 =", &mut env),
        TokenType::NumericIntLiteral,
        "101",
    );
    match env.get("foo") {
        Some((ty, v)) => {
            assert_eq!(ty, "int".to_string());
            assert_eq!(v.token_type, TokenType::NumericIntLiteral);
            assert_eq!(v.value, "101".to_string());
        }
        None => assert!(false),
    }

    // A later assignment overwrites the binding: last write wins.
    expect_literal(
        run_line("foo int 200 =", &mut env),
        TokenType::NumericIntLiteral,
        "200",
    );
    match env.get("foo") {
        Some((ty, v)) => {
            assert_eq!(ty, "int".to_string());
            assert_eq!(v.value, "200".to_string());
        }
        None => assert!(false),
    }

    assert!(env.get("bar").is_none());
}

#[test]
fn evaluate_empty_test() {
    let mut env = Environment::new();
    // A line of unsupported arity builds the empty expression, which
    // evaluates to itself without error.
    assert_eq!(run_line("1 2", &mut env), Ok(Expression::Empty));
}

#[test]
fn evaluate_dec_arithmetic_test() {
    let mut env = Environment::new();
    expect_literal(
        run_lexemes(&["1.5", "2.25", "+"], &mut env),
        TokenType::NumericDecLiteral,
        "3.75",
    );
    expect_literal(
        run_lexemes(&["1.5", "2.0", "*"], &mut env),
        TokenType::NumericDecLiteral,
        "3.00",
    );
    expect_literal(
        run_lexemes(&["1.5", "1.5", "-"], &mut env),
        TokenType::NumericDecLiteral,
        "0.0",
    );
    // Division truncates toward zero at the wider operand scale.
    expect_literal(
        run_lexemes(&["1.0", "4.0", "/"], &mut env),
        TokenType::NumericDecLiteral,
        "0.2",
    );
    // Division by a zero-valued decimal is a recoverable error.
    assert_eq!(
        run_lexemes(&["1.5", "0.0", "/"], &mut env),
        Err(EvalError::DivisionByZero)
    );
}

#[test]
fn evaluate_dec_assignment_test() {
    let mut env = Environment::new();
    expect_literal(
        run_lexemes(&["pi", "dec", "3.14", "="], &mut env),
        TokenType::NumericDecLiteral,
        "3.14",
    );
    match env.get("pi") {
        Some((ty, v)) => {
            assert_eq!(ty, "dec".to_string());
            assert_eq!(v.value, "3.14".to_string());
        }
        None => assert!(false),
    }
}

#[test]
fn evaluate_unrepresentable_literal_test() {
    let mut env = Environment::new();
    // A magnitude beyond the evaluator's machine bound is rejected as a
    // value error, not a crash.
    assert_eq!(
        run_line("99999999999999999999 1 +", &mut env),
        Err(EvalError::TypeMismatch)
    );
}

#[test]
fn result_retokenizes_test() {
    let mut env = Environment::new();
    let r = run_line("1 2 +", &mut env);
    match r {
        Ok(Expression::TokenExpression(d)) => {
            // Formatting the evaluated literal back to text and
            // re-tokenizing it yields an identical token.
            let again = Token::tokenize(d.token.value.clone());
            assert_eq!(again.token_type, d.token.token_type);
            assert_eq!(again.value, d.token.value);
        }
        _ => assert!(false),
    }
}

#[test]
fn number_keyword_admits_both_kinds_test() {
    let mut env = Environment::new();
    expect_literal(
        run_line("n number 5 =", &mut env),
        TokenType::NumericIntLiteral,
        "5",
    );
    expect_literal(
        run_lexemes(&["m", "number", "5.5", "="], &mut env),
        TokenType::NumericDecLiteral,
        "5.5",
    );
}
