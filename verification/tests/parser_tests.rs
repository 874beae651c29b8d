use minilang::lexer::Lexer;
use minilang::lexer::Token;
use minilang::lexer::TokenType;
use minilang::parser::parse;
use minilang::parser::tokens_to_expr;
use minilang::parser::Expression;
use minilang::parser::InnerAssignment;
use minilang::parser::InnerExpExpOp;
use minilang::parser::InnerTokenExpression;
use minilang::parser::InnerTokenOperation;
use minilang::parser::Operation;

#[test]
fn run_operation_test() {
    let b = Expression::ExpExpOp({
        InnerExpExpOp {
            expression_1: Box::new(Expression::TokenExpression(InnerTokenExpression {
                token: Token {
                    value: "1".to_string(),
                    token_type: TokenType::NumericIntLiteral,
                },
            })),

            expression_2: Box::new(Expression::TokenExpression(InnerTokenExpression {
                token: Token {
                    value: "2".to_string(),
                    token_type: TokenType::NumericIntLiteral,
                },
            })),

            operation: Box::new(Operation::TokenOperation(InnerTokenOperation {
                token: Token {
                    value: "+".to_string(),
                    token_type: TokenType::Addition,
                },
            })),
        }
    });

    // b is basically "1 2 +" as an expression

    let output = parse(b);

    // output is "3"

    match output {
        Expression::TokenExpression(d) => {
            assert_eq!(d.token.token_type, TokenType::NumericIntLiteral);
            assert_eq!(d.token.value, String::from("3"));
        }

        _ => assert!(false),
    }

    let c = Expression::ExpExpOp({
        InnerExpExpOp {
            expression_1: Box::new(Expression::TokenExpression(InnerTokenExpression {
                token: Token {
                    value: "8".to_string(),
                    token_type: TokenType::NumericIntLiteral,
                },
            })),

            expression_2: Box::new(Expression::TokenExpression(InnerTokenExpression {
                token: Token {
                    value: "10".to_string(),
                    token_type: TokenType::NumericIntLiteral,
                },
            })),

            operation: Box::new(Operation::TokenOperation(InnerTokenOperation {
                token: Token {
                    value: "*".to_string(),
                    token_type: TokenType::Multiplication,
                },
            })),
        }
    });

    // c is basically "8 10 *" as an expression

    let output = parse(c);

    // output is "80"

    match output {
        Expression::TokenExpression(e) => {
            assert_eq!(e.token.token_type, TokenType::NumericIntLiteral);
            assert_eq!(e.token.value, String::from("80"));
        }

        _ => assert!(false),
    }
}

#[test]
fn create_assignment_test() {
    let b = Expression::Assignment({
        InnerAssignment {
            expression_1: Box::new(Expression::TokenExpression(InnerTokenExpression {
                token: Token {
                    value: "foo".to_string(),
                    token_type: TokenType::Identifier,
                },
            })),

            expression_2: Box::new(Expression::TokenExpression(InnerTokenExpression {
                token: Token {
                    value: "int".to_string(),
                    token_type: TokenType::TypeIntKeyword,
                },
            })),

            expression_3: Box::new(Expression::TokenExpression(InnerTokenExpression {
                token: Token {
                    value: "101".to_string(),
                    token_type: TokenType::NumericIntLiteral,
                },
            })),

            operation: Box::new(Operation::TokenOperation(InnerTokenOperation {
                token: Token {
                    value: "=".to_string(),
                    token_type: TokenType::Assignment,
                },
            })),
        }
    });

    // b is basically "foo int 101 =" as an expression

    let output = parse(b);

    match output {
        Expression::TokenExpression(d) => {
            assert_eq!(d.token.token_type, TokenType::NumericIntLiteral);
            assert_eq!(d.token.value, String::from("101"));
        }

        _ => assert!(false),
    }
}

#[test]
fn parser_one_test() {
    let mut lex: Lexer = Lexer::new(vec!["a int 3 =".to_string()]);
    let mut tokens: Vec<Token> = vec![];

    let mut tok = lex.next();
    while tok.token_type != TokenType::EndToken {
        tokens.push(tok.clone());
        tok = lex.next();
    }

    let expr = tokens_to_expr(tokens);

    let output = parse(expr);

    match output {
        Expression::TokenExpression(d) => {
            assert_eq!(d.token.token_type, TokenType::NumericIntLiteral);
            assert_eq!(d.token.value, String::from("3"));
        }

        _ => assert!(false),
    }
}

#[test]
fn parser_two_test() {
    let mut lex: Lexer = Lexer::new(vec!["foo float 39400 =".to_string()]);
    let mut tokens: Vec<Token> = vec![];

    let mut tok = lex.next();
    while tok.token_type != TokenType::EndToken {
        tokens.push(tok.clone());
        tok = lex.next();
    }

    let expr = tokens_to_expr(tokens);

    let output = parse(expr);

    match output {
        Expression::TokenExpression(d) => {
            assert_eq!(d.token.token_type, TokenType::NumericIntLiteral);
            assert_eq!(d.token.value, String::from("39400"));
        }

        _ => assert!(false),
    }
}

#[test]
fn build_arity_test() {
    // Two tokens: no recognized shape.
    let two = vec![
        Token::tokenize("1".to_string()),
        Token::tokenize("2".to_string()),
    ];
    assert_eq!(tokens_to_expr(two), Expression::Empty);

    // Five tokens: no recognized shape either.
    let five = vec![
        Token::tokenize("1".to_string()),
        Token::tokenize("2".to_string()),
        Token::tokenize("3".to_string()),
        Token::tokenize("4".to_string()),
        Token::tokenize("5".to_string()),
    ];
    assert_eq!(tokens_to_expr(five), Expression::Empty);

    // Four tokens not ending in the assignment operator.
    let four = vec![
        Token::tokenize("1".to_string()),
        Token::tokenize("2".to_string()),
        Token::tokenize("3".to_string()),
        Token::tokenize("+".to_string()),
    ];
    assert_eq!(tokens_to_expr(four), Expression::Empty);
}

#[test]
fn parse_division_truncates_test() {
    // Truncating division, toward zero also for negative operands.
    let toks = vec![
        Token::tokenize("-7".to_string()),
        Token::tokenize("2".to_string()),
        Token {
            token_type: TokenType::Division,
            value: "/".to_string(),
        },
    ];
    let output = parse(tokens_to_expr(toks));
    match output {
        Expression::TokenExpression(d) => {
            assert_eq!(d.token.token_type, TokenType::NumericIntLiteral);
            assert_eq!(d.token.value, String::from("-3"));
        }
        _ => assert!(false),
    }
}

#[test]
fn parse_division_by_zero_degrades_test() {
    // The environment-free dispatcher degrades to the empty expression
    // rather than aborting.
    let mut toks = minilang::lexer::tokenize("5 0 /".to_string());
    toks.pop();
    assert_eq!(parse(tokens_to_expr(toks)), Expression::Empty);
}
