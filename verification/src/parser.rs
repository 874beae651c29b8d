//! The parser: a finite token list to one of two fixed-arity expression
//! shapes, and the environment-free expression dispatcher `parse`.
//!
//! The grammar is matched purely by arity and trailing-operator identity:
//! exactly three tokens form a binary operation, exactly four tokens whose
//! last is the assignment operator form an assignment, and anything else
//! is the empty expression.  This ceiling is the system's functional
//! boundary, preserved by design.

use vstd::prelude::*;

use crate::eval::eval_binary_m;
use crate::eval::eval_binary_tokens;
use crate::lexer::Token;
use crate::lexer::TokenType;

verus! {

/// A single resolved literal or identifier token.
#[derive(Debug, PartialEq)]
pub struct InnerTokenExpression {
    pub token: Token,
}

/// Expression Expression Operation
#[derive(Debug, PartialEq)]
pub struct InnerExpExpOp {
    pub expression_1: Box<Expression>,
    pub expression_2: Box<Expression>,
    pub operation: Box<Operation>,
}

/// Identifier, declared type, value, assignment operator.
#[derive(Debug, PartialEq)]
pub struct InnerAssignment {
    pub expression_1: Box<Expression>,
    pub expression_2: Box<Expression>,
    pub expression_3: Box<Expression>,
    pub operation: Box<Operation>,
}

/// A node in the parsed statement tree.
#[derive(Debug, PartialEq)]
pub enum Expression {
    TokenExpression(InnerTokenExpression),
    ExpExpOp(InnerExpExpOp),
    Assignment(InnerAssignment),
    Empty,
}

#[derive(Debug, PartialEq)]
pub struct InnerTokenOperation {
    pub token: Token,
}

/// An operation, carried by its operator token.
#[derive(Debug, PartialEq)]
pub enum Operation {
    TokenOperation(InnerTokenOperation),
}

/// A literal expression over one token.
pub open spec fn literal_expr(t: Token) -> Expression {
    Expression::TokenExpression(InnerTokenExpression { token: t })
}

/// What `tokens_to_expr` builds from a token list.
pub open spec fn tokens_to_expr_model(tokens: Seq<Token>) -> Expression {
    if tokens.len() == 3 {
        Expression::ExpExpOp(
            InnerExpExpOp {
                expression_1: Box::new(literal_expr(tokens[0])),
                expression_2: Box::new(literal_expr(tokens[1])),
                operation: Box::new(
                    Operation::TokenOperation(InnerTokenOperation { token: tokens[2] }),
                ),
            },
        )
    } else if tokens.len() == 4 && tokens[3]@.kind == TokenType::Assignment {
        Expression::Assignment(
            InnerAssignment {
                expression_1: Box::new(literal_expr(tokens[0])),
                expression_2: Box::new(literal_expr(tokens[1])),
                expression_3: Box::new(literal_expr(tokens[2])),
                operation: Box::new(
                    Operation::TokenOperation(InnerTokenOperation { token: tokens[3] }),
                ),
            },
        )
    } else {
        Expression::Empty
    }
}

/// Group a finite token list into one of the two recognized shapes:
/// three tokens form a binary operation, four tokens ending in the
/// assignment operator form an assignment, anything else is `Empty`.
pub fn tokens_to_expr(tokens: Vec<Token>) -> (r: Expression)
    ensures
        r == tokens_to_expr_model(tokens@),
{
    if tokens.len() == 3 {
        let b = Expression::ExpExpOp(
            InnerExpExpOp {
                expression_1: Box::new(
                    Expression::TokenExpression(InnerTokenExpression { token: tokens[0].clone() }),
                ),
                expression_2: Box::new(
                    Expression::TokenExpression(InnerTokenExpression { token: tokens[1].clone() }),
                ),
                operation: Box::new(
                    Operation::TokenOperation(InnerTokenOperation { token: tokens[2].clone() }),
                ),
            },
        );
        return b;
    }
    if tokens.len() == 4 && tokens[3].token_type == TokenType::Assignment {
        let b = Expression::Assignment(
            InnerAssignment {
                expression_1: Box::new(
                    Expression::TokenExpression(InnerTokenExpression { token: tokens[0].clone() }),
                ),
                expression_2: Box::new(
                    Expression::TokenExpression(InnerTokenExpression { token: tokens[1].clone() }),
                ),
                expression_3: Box::new(
                    Expression::TokenExpression(InnerTokenExpression { token: tokens[2].clone() }),
                ),
                operation: Box::new(
                    Operation::TokenOperation(InnerTokenOperation { token: tokens[3].clone() }),
                ),
            },
        );
        return b;
    }
    Expression::Empty
}

/// A token list of any arity other than the two recognized shapes builds
/// the empty expression; in particular every list of two or five tokens.
pub proof fn lemma_build_unsupported_arity(tokens: Seq<Token>)
    requires
        tokens.len() == 2 || tokens.len() == 5,
    ensures
        tokens_to_expr_model(tokens) == Expression::Empty,
{
}

/// The environment-free assignment handler: it hands the value
/// expression back unchecked, leaving the environment-backed semantics
/// to `evaluate`.
#[allow(unused_variables)]
fn create_assignment(
    arg1: Box<Expression>,
    arg2: Box<Expression>,
    arg3: Box<Expression>,
    operation: Box<Operation>,
) -> (r: Expression)
    ensures
        r == *arg3,
{
    *arg3
}

/// Apply an operation to two immediate literal operands.  Any shape the
/// arithmetic rules reject degrades to the empty expression; no input
/// aborts the process.
pub fn run_operation(
    arg1: Box<Expression>,
    arg2: Box<Expression>,
    operation: Box<Operation>,
) -> (r: Expression)
    ensures
        ({
            let op = (match *operation {
                Operation::TokenOperation(o) => o.token,
            });
            match (*arg1, *arg2) {
                (Expression::TokenExpression(a), Expression::TokenExpression(b)) => {
                    match eval_binary_m(a.token@, b.token@, op@) {
                        Ok(t) => r matches Expression::TokenExpression(i) && i.token@ == t,
                        Err(_) => r == Expression::Empty,
                    }
                },
                _ => r == Expression::Empty,
            }
        }),
{
    match (*arg1, *arg2) {
        (Expression::TokenExpression(a), Expression::TokenExpression(b)) => {
            let Operation::TokenOperation(c) = *operation;
            match eval_binary_tokens(&a.token, &b.token, &c.token) {
                Ok(t) => Expression::TokenExpression(InnerTokenExpression { token: t }),
                Err(_) => Expression::Empty,
            }
        },
        _ => Expression::Empty,
    }
}

/// Reduce one recognized expression shape without a session
/// environment: a binary operation runs its arithmetic, an assignment
/// hands back its value expression unchecked, and anything else is the
/// empty expression.  The session-scoped, checked semantics live in
/// `evaluate`.
pub fn parse(exp: Expression) -> (r: Expression)
    ensures
        ({
            match exp {
                Expression::ExpExpOp(i) => {
                    let op = (match *i.operation {
                        Operation::TokenOperation(o) => o.token,
                    });
                    match (*i.expression_1, *i.expression_2) {
                        (Expression::TokenExpression(a), Expression::TokenExpression(b)) => {
                            match eval_binary_m(a.token@, b.token@, op@) {
                                Ok(t) => r matches Expression::TokenExpression(ri) && ri.token@
                                    == t,
                                Err(_) => r == Expression::Empty,
                            }
                        },
                        _ => r == Expression::Empty,
                    }
                },
                Expression::Assignment(a) => r == *a.expression_3,
                _ => r == Expression::Empty,
            }
        }),
{
    match exp {
        Expression::ExpExpOp(i) => run_operation(i.expression_1, i.expression_2, i.operation),
        Expression::Assignment(a) => create_assignment(
            a.expression_1,
            a.expression_2,
            a.expression_3,
            a.operation,
        ),
        _ => Expression::Empty,
    }
}

} // verus!
