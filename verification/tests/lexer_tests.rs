use minilang::lexer::ends_token;
use minilang::lexer::is_char_symbol;
use minilang::lexer::is_char_whitespace;
use minilang::lexer::is_type;
use minilang::lexer::tokenize;
use minilang::lexer::Lexer;
use minilang::lexer::Token;
use minilang::lexer::TokenType;
use minilang::numeric::is_part_dec_numeric;
use minilang::numeric::is_part_int_numeric;

#[test]
fn token_default_test() {
    assert_eq!(Token::default().token_type, TokenType::NoType);
}

#[test]
fn tokenize_test() {
    assert_eq!(
        Token::tokenize("1".to_string()).token_type,
        TokenType::NumericIntLiteral
    );

    assert_eq!(Token::tokenize("1".to_string()).value, "1".to_string());

    // "1 " is not a valid token on its own: the lexer cuts the lexeme off
    // before the space, so a trailing space never reaches classification.
    assert_ne!(
        Token::tokenize("1 ".to_string()).token_type,
        TokenType::NumericIntLiteral
    );
    assert_ne!(Token::tokenize("1 ".to_string()).value, "1".to_string());
}

#[test]
fn lexer_test() {
    let mut lex: Lexer = Lexer::new(vec!["a int 5 =".to_string()]);

    assert_eq!(lex.next().value, "a");
    assert_eq!(lex.next().value, "int");
    assert_eq!(lex.next().value, "5");
    assert_eq!(lex.next().value, "=");
}

#[test]
fn is_type_test() {
    assert!(is_type("dec".to_string()));
}

#[test]
fn is_char_symbol_test() {
    assert!(is_char_symbol('+'));
}

#[test]
fn is_char_whitespace_test() {
    assert!(is_char_whitespace(' '));
}

#[test]
fn ends_token_test() {
    // "1 " is the `1` token
    assert!(ends_token('1', ' '));

    // "+\n" is the `+` token
    assert!(ends_token('+', '\n'));

    // "myvar " is the `literal` token containing "myvar"
    assert!(ends_token('r', ' '));

    // "+=" is the `sum` token
    assert!(ends_token('+', '='));

    // "ab" is not the end of any token and may continue as a literal
    assert!(!ends_token('a', 'b'));
}

#[test]
fn tokenize_single_int_test() {
    let toks = tokenize("1".to_string());
    assert_eq!(toks.len(), 2);
    assert_eq!(toks[0].token_type, TokenType::NumericIntLiteral);
    assert_eq!(toks[0].value, "1".to_string());
    assert_eq!(toks[1].token_type, TokenType::EndToken);
}

#[test]
fn tokenize_statement_test() {
    let toks = tokenize("1 2 +".to_string());
    assert_eq!(toks.len(), 4);
    assert_eq!(toks[0].token_type, TokenType::NumericIntLiteral);
    assert_eq!(toks[0].value, "1".to_string());
    assert_eq!(toks[1].token_type, TokenType::NumericIntLiteral);
    assert_eq!(toks[1].value, "2".to_string());
    assert_eq!(toks[2].token_type, TokenType::Addition);
    assert_eq!(toks[2].value, "+".to_string());
    assert_eq!(toks[3].token_type, TokenType::EndToken);
}

#[test]
fn tokenize_whitespace_only_test() {
    let toks = tokenize("   \t ".to_string());
    assert_eq!(toks.len(), 1);
    assert_eq!(toks[0].token_type, TokenType::EndToken);
}

#[test]
fn tokenize_adjacent_symbol_test() {
    // A symbol terminates a token even without whitespace around it.
    let toks = tokenize("a=b".to_string());
    assert_eq!(toks.len(), 4);
    assert_eq!(toks[0].value, "a".to_string());
    assert_eq!(toks[1].token_type, TokenType::Assignment);
    assert_eq!(toks[1].value, "=".to_string());
    assert_eq!(toks[2].value, "b".to_string());
    assert_eq!(toks[3].token_type, TokenType::EndToken);
}

#[test]
fn from_chars_test() {
    let t = Token::from_chars(vec!['4', '2']);
    assert_eq!(t.token_type, TokenType::NumericIntLiteral);
    assert_eq!(t.value, "42".to_string());
}

#[test]
fn classify_whitespace_kind_test() {
    assert_eq!(Token::tokenize(" ".to_string()).token_type, TokenType::Space);
    assert_eq!(Token::tokenize("\t".to_string()).token_type, TokenType::Tab);
    assert_eq!(Token::tokenize("\n".to_string()).token_type, TokenType::Newline);
}

#[test]
fn int_literal_classification_test() {
    assert!(is_part_int_numeric("100"));
    assert!(is_part_int_numeric("-43"));
    assert!(is_part_int_numeric("0"));
    assert!(!is_part_int_numeric("007"));
    assert!(!is_part_int_numeric("-0"));
    assert!(!is_part_int_numeric("-"));
    assert!(!is_part_int_numeric("12a"));
    assert!(!is_part_int_numeric(""));
}

#[test]
fn dec_literal_classification_test() {
    assert!(is_part_dec_numeric("100.10"));
    assert!(is_part_dec_numeric("45.453"));
    assert!(is_part_dec_numeric("-2.75"));
    assert!(is_part_dec_numeric("0.0124"));
    assert!(!is_part_dec_numeric("00.5"));
    assert!(!is_part_dec_numeric(".3"));
    assert!(!is_part_dec_numeric("54"));
    assert!(!is_part_dec_numeric("3."));
    assert!(!is_part_dec_numeric("1.2.3"));
    assert_eq!(
        Token::tokenize("100.10".to_string()).token_type,
        TokenType::NumericDecLiteral
    );
}
