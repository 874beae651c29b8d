//! The evaluator: an expression tree to a literal result or a recorded
//! binding.
//!
//! The whole evaluation is pinned down by the spec function `eval_model`,
//! which threads the environment through the sub-evaluations exactly as
//! the executable `evaluate` does.  Arithmetic is operand-kind-preserving
//! and total: malformed operands, unsupported operators and division by
//! zero come back as `EvalError` values, never as a process abort.

use vstd::prelude::*;

use crate::lexer::is_type;
use crate::lexer::is_type_text;
use crate::lexer::Token;
use crate::lexer::TokenM;
use crate::lexer::TokenType;
use crate::numeric::dec_body;
use crate::numeric::dec_literal_str;
use crate::numeric::dec_mantissa_val;
use crate::numeric::dec_scale;
use crate::numeric::dec_signed_mantissa;
use crate::numeric::dec_text_fits;
use crate::numeric::dec_token_text;
use crate::numeric::int_literal_str;
use crate::numeric::is_dec_literal;
use crate::numeric::parse_dec_text;
use crate::numeric::pow10;
use crate::numeric::pow10_u128;
use crate::numeric::sign_add_u128;
use crate::numeric::sign_div_u128;
use crate::numeric::sign_sub_u128;
use crate::numeric::signed_val;
use crate::numeric::int_literal_val;
use crate::numeric::int_text_fits;
use crate::numeric::int_token_text;
use crate::numeric::is_int_literal;
use crate::numeric::parse_int_text;
use crate::numeric::sign_add;
use crate::numeric::sign_div;
use crate::numeric::sign_mul;
use crate::numeric::sign_sub;
use crate::numeric::trunc_div;
use crate::parser::Expression;
use crate::parser::InnerTokenExpression;
use crate::parser::Operation;
use crate::text::str_eq;

verus! {

/// Why an evaluation failed.  Failures are values handed back to the
/// caller; no input may terminate the process.
#[derive(Debug, PartialEq, Eq, Structural, Clone, Copy)]
pub enum EvalError {
    /// Operand kinds do not fit the operation, the declared type is not
    /// recognized or not compatible, or a numeric literal is not
    /// representable within the evaluator's machine bounds.
    TypeMismatch,
    /// Division by zero, on either numeric kind.
    DivisionByZero,
    /// Reserved for future read access to unset bindings; never produced
    /// by the operations offered today.
    UndefinedIdentifier,
}

/// The mathematical content of an evaluation result: a literal token or
/// the empty expression.
pub ghost enum ValM {
    Lit(TokenM),
    Empty,
}

/// The mathematical content of an environment: names to declared type
/// and stored literal.
pub type EnvM = Map<Seq<char>, (Seq<char>, TokenM)>;

// ---------------------------------------------------------------------------
// Binary arithmetic over literal tokens
// ---------------------------------------------------------------------------
pub open spec fn is_arith_kind(k: TokenType) -> bool {
    k == TokenType::Addition || k == TokenType::Subtraction || k == TokenType::Multiplication || k
        == TokenType::Division
}

/// The exact integer result of one operator, with truncating division.
pub open spec fn apply_arith(k: TokenType, va: int, vb: int) -> int {
    if k == TokenType::Addition {
        va + vb
    } else if k == TokenType::Subtraction {
        va - vb
    } else if k == TokenType::Multiplication {
        va * vb
    } else {
        trunc_div(va, vb)
    }
}

/// The result text of one operator over two decimal-literal texts,
/// computed exactly on scaled integer mantissas: addition, subtraction
/// and multiplication are the exact rational results; division is
/// truncated toward zero at the wider operand scale.
pub open spec fn dec_result(k: TokenType, sa: Seq<char>, sb: Seq<char>) -> Seq<char> {
    let ma = dec_signed_mantissa(sa);
    let mb = dec_signed_mantissa(sb);
    let s1 = dec_scale(dec_body(sa));
    let s2 = dec_scale(dec_body(sb));
    let cs = if s1 >= s2 {
        s1
    } else {
        s2
    };
    if k == TokenType::Addition {
        dec_literal_str(ma * pow10(cs - s1) + mb * pow10(cs - s2), cs)
    } else if k == TokenType::Subtraction {
        dec_literal_str(ma * pow10(cs - s1) - mb * pow10(cs - s2), cs)
    } else if k == TokenType::Multiplication {
        dec_literal_str(ma * mb, s1 + s2)
    } else {
        dec_literal_str(trunc_div(ma * pow10(s2 + cs - s1), mb), cs)
    }
}

/// What evaluating one operator over two literal tokens yields: both
/// operands must be numeric literals of the same kind and within machine
/// bounds, the operator must be arithmetic, and division demands a
/// nonzero divisor; the result keeps the operand kind.
pub open spec fn eval_binary_m(a: TokenM, b: TokenM, op: TokenM) -> Result<TokenM, EvalError> {
    if a.kind == TokenType::NumericDecLiteral && b.kind == TokenType::NumericDecLiteral {
        if !(is_dec_literal(a.text) && dec_text_fits(a.text) && is_dec_literal(b.text)
            && dec_text_fits(b.text)) {
            Err(EvalError::TypeMismatch)
        } else if !is_arith_kind(op.kind) {
            Err(EvalError::TypeMismatch)
        } else if op.kind == TokenType::Division && dec_mantissa_val(dec_body(b.text)) == 0 {
            Err(EvalError::DivisionByZero)
        } else {
            Ok(
                TokenM {
                    kind: TokenType::NumericDecLiteral,
                    text: dec_result(op.kind, a.text, b.text),
                },
            )
        }
    } else if a.kind == TokenType::NumericIntLiteral && b.kind == TokenType::NumericIntLiteral {
        if !(is_int_literal(a.text) && int_text_fits(a.text) && is_int_literal(b.text)
            && int_text_fits(b.text)) {
            Err(EvalError::TypeMismatch)
        } else if !is_arith_kind(op.kind) {
            Err(EvalError::TypeMismatch)
        } else if op.kind == TokenType::Division && int_literal_val(b.text) == 0 {
            Err(EvalError::DivisionByZero)
        } else {
            Ok(
                TokenM {
                    kind: TokenType::NumericIntLiteral,
                    text: int_literal_str(
                        apply_arith(op.kind, int_literal_val(a.text), int_literal_val(b.text)),
                    ),
                },
            )
        }
    } else {
        Err(EvalError::TypeMismatch)
    }
}

/// A mantissa scaled by a power of ten stays within a `u128`.
fn mul_mag(m: u64, p: u128) -> (r: u128)
    requires
        p <= pow10(17),
    ensures
        r == m * p,
{
    proof {
        crate::numeric::lemma_pow10_values();
        assert(m as int * p as int <= u64::MAX as int * pow10(17)) by (nonlinear_arith)
            requires
                0 <= m as int <= u64::MAX as int,
                0 <= p as int <= pow10(17),
        ;
        assert(u64::MAX as int * 100000000000000000int < u128::MAX as int);
    }
    m as u128 * p
}

/// The sign distributes over a scaled magnitude.
proof fn lemma_signed_scale(neg: bool, mag: int, p: int)
    requires
        0 <= mag,
        0 <= p,
    ensures
        signed_val(neg, mag * p) == signed_val(neg, mag) * p,
{
    if neg {
        assert(-(mag * p) == (-mag) * p) by (nonlinear_arith);
    }
}

/// Apply one operator to two literal tokens.
pub fn eval_binary_tokens(a: &Token, b: &Token, op: &Token) -> (r: Result<Token, EvalError>)
    ensures
        match r {
            Ok(t) => eval_binary_m(a@, b@, op@) == Ok::<TokenM, EvalError>(t@),
            Err(x) => eval_binary_m(a@, b@, op@) == Err::<TokenM, EvalError>(x),
        },
{
    if a.token_type == TokenType::NumericDecLiteral && b.token_type
        == TokenType::NumericDecLiteral {
        let pa = parse_dec_text(a.value.as_str());
        let pb = parse_dec_text(b.value.as_str());
        match (pa, pb) {
            (Some((an, am, asc)), Some((bn, bm, bsc))) => {
                let k = op.token_type;
                proof {
                    crate::numeric::lemma_pow10_values();
                }
                if k == TokenType::Addition || k == TokenType::Subtraction {
                    let cs: u32 = if asc >= bsc {
                        asc
                    } else {
                        bsc
                    };
                    proof {
                        crate::numeric::lemma_pow10_mono(cs - asc, 17);
                        crate::numeric::lemma_pow10_mono(cs - bsc, 17);
                    }
                    let paf = pow10_u128(cs - asc);
                    let pbf = pow10_u128(cs - bsc);
                    let am2 = mul_mag(am, paf);
                    let bm2 = mul_mag(bm, pbf);
                    proof {
                        lemma_signed_scale(an, am as int, paf as int);
                        lemma_signed_scale(bn, bm as int, pbf as int);
                        crate::numeric::lemma_pow10_mono(cs - asc, 8);
                        crate::numeric::lemma_pow10_mono(cs - bsc, 8);
                        assert(am as int * paf as int <= u64::MAX as int * pow10(8))
                            by (nonlinear_arith)
                            requires
                                0 <= am as int <= u64::MAX as int,
                                0 <= paf as int <= pow10(8),
                        ;
                        assert(bm as int * pbf as int <= u64::MAX as int * pow10(8))
                            by (nonlinear_arith)
                            requires
                                0 <= bm as int <= u64::MAX as int,
                                0 <= pbf as int <= pow10(8),
                        ;
                        assert(u64::MAX as int * 0x5f5e100 + u64::MAX as int * 0x5f5e100
                            <= u128::MAX as int);
                    }
                    let (rn, rm) = if k == TokenType::Addition {
                        sign_add_u128(an, am2, bn, bm2)
                    } else {
                        sign_sub_u128(an, am2, bn, bm2)
                    };
                    Ok(
                        Token {
                            token_type: TokenType::NumericDecLiteral,
                            value: dec_token_text(rn, rm, cs),
                        },
                    )
                } else if k == TokenType::Multiplication {
                    let (rn, rm) = crate::numeric::sign_mul(an, am, bn, bm);
                    Ok(
                        Token {
                            token_type: TokenType::NumericDecLiteral,
                            value: dec_token_text(rn, rm, asc + bsc),
                        },
                    )
                } else if k == TokenType::Division {
                    if bm == 0 {
                        Err(EvalError::DivisionByZero)
                    } else {
                        let cs: u32 = if asc >= bsc {
                            asc
                        } else {
                            bsc
                        };
                        let e: u32 = bsc + cs - asc;
                        proof {
                            crate::numeric::lemma_pow10_mono(e as int, 17);
                        }
                        let pe = pow10_u128(e);
                        let num = mul_mag(am, pe);
                        proof {
                            lemma_signed_scale(an, am as int, pe as int);
                        }
                        let (rn, rm) = sign_div_u128(an, num, bn, bm as u128);
                        Ok(
                            Token {
                                token_type: TokenType::NumericDecLiteral,
                                value: dec_token_text(rn, rm, cs),
                            },
                        )
                    }
                } else {
                    Err(EvalError::TypeMismatch)
                }
            },
            _ => Err(EvalError::TypeMismatch),
        }
    } else if a.token_type == TokenType::NumericIntLiteral && b.token_type
        == TokenType::NumericIntLiteral {
        let pa = parse_int_text(a.value.as_str());
        let pb = parse_int_text(b.value.as_str());
        match (pa, pb) {
            (Some((an, am)), Some((bn, bm))) => {
                let k = op.token_type;
                if k == TokenType::Addition {
                    let (rn, rm) = sign_add(an, am, bn, bm);
                    Ok(
                        Token {
                            token_type: TokenType::NumericIntLiteral,
                            value: int_token_text(rn, rm),
                        },
                    )
                } else if k == TokenType::Subtraction {
                    let (rn, rm) = sign_sub(an, am, bn, bm);
                    Ok(
                        Token {
                            token_type: TokenType::NumericIntLiteral,
                            value: int_token_text(rn, rm),
                        },
                    )
                } else if k == TokenType::Multiplication {
                    let (rn, rm) = sign_mul(an, am, bn, bm);
                    Ok(
                        Token {
                            token_type: TokenType::NumericIntLiteral,
                            value: int_token_text(rn, rm),
                        },
                    )
                } else if k == TokenType::Division {
                    if bm == 0 {
                        Err(EvalError::DivisionByZero)
                    } else {
                        let (rn, rm) = sign_div(an, am, bn, bm);
                        Ok(
                            Token {
                                token_type: TokenType::NumericIntLiteral,
                                value: int_token_text(rn, rm),
                            },
                        )
                    }
                } else {
                    Err(EvalError::TypeMismatch)
                }
            },
            _ => Err(EvalError::TypeMismatch),
        }
    } else {
        Err(EvalError::TypeMismatch)
    }
}

// ---------------------------------------------------------------------------
// The environment
// ---------------------------------------------------------------------------
struct Binding {
    name: String,
    declared_type: String,
    value: Token,
}

/// The mapping denoted by a binding list: later entries win.
spec fn env_map(s: Seq<Binding>) -> EnvM
    decreases s.len(),
{
    if s.len() == 0 {
        Map::empty()
    } else {
        env_map(s.drop_last()).insert(
            s.last().name@,
            (s.last().declared_type@, s.last().value@),
        )
    }
}

/// The session-scoped store of bindings: identifier name to declared
/// type and last-assigned literal, unique keys, last write wins.
pub struct Environment {
    entries: Vec<Binding>,
}

impl View for Environment {
    type V = EnvM;

    closed spec fn view(&self) -> EnvM {
        env_map(self.entries@)
    }
}

impl Environment {
    /// An empty environment.
    pub fn new() -> (env: Environment)
        ensures
            env@ == Map::<Seq<char>, (Seq<char>, TokenM)>::empty(),
    {
        Environment { entries: Vec::new() }
    }

    /// Store a binding, overwriting any prior one under the same name.
    pub fn set(&mut self, name: String, declared_type: String, value: Token)
        ensures
            final (self)@ == old(self)@.insert(name@, (declared_type@, value@)),
    {
        let ghost prev = self.entries@;
        self.entries.push(Binding { name, declared_type, value });
        proof {
            assert(self.entries@.drop_last() =~= prev);
        }
    }

    /// Look up the declared type and stored literal under a name.
    pub fn get(&self, name: &str) -> (r: Option<(String, Token)>)
        ensures
            match r {
                Some(p) => self@.contains_key(name@) && self@[name@] == (p.0@, p.1@),
                None => !self@.contains_key(name@),
            },
    {
        let ghost full = self.entries@;
        proof {
            assert(full.take(full.len() as int) =~= full);
        }
        let mut i: usize = self.entries.len();
        while i > 0
            invariant
                i <= full.len(),
                full == self.entries@,
                (env_map(full).contains_key(name@) <==> env_map(full.take(i as int)).contains_key(
                    name@,
                )),
                env_map(full).contains_key(name@) ==> env_map(full)[name@] == env_map(
                    full.take(i as int),
                )[name@],
            decreases i,
        {
            i = i - 1;
            proof {
                assert(full.take(i + 1).drop_last() =~= full.take(i as int));
                assert(full.take(i + 1).last() == full[i as int]);
            }
            if str_eq(self.entries[i].name.as_str(), name) {
                return Some((self.entries[i].declared_type.clone(), self.entries[i].value.clone()));
            }
        }
        proof {
            assert(full.take(0) =~= Seq::<Binding>::empty());
        }
        None
    }
}

// ---------------------------------------------------------------------------
// Evaluation
// ---------------------------------------------------------------------------
/// A token acceptable as a binding name: identifier-kind or the
/// unclassified kind the lexer leaves on plain words.
pub open spec fn token_is_name(t: TokenM) -> bool {
    t.kind == TokenType::Identifier || t.kind == TokenType::NoType
}

/// Which literal kinds a declared type keyword admits.  Only the numeric
/// types can be satisfied by the literal kinds that exist today.
pub open spec fn type_admits(ty: Seq<char>, k: TokenType) -> bool {
    if ty == "int"@ {
        k == TokenType::NumericIntLiteral
    } else if ty == "dec"@ {
        k == TokenType::NumericDecLiteral
    } else if ty == "number"@ {
        k == TokenType::NumericIntLiteral || k == TokenType::NumericDecLiteral
    } else {
        false
    }
}

/// What evaluating an expression yields, and the environment it leaves
/// behind.  Sub-expressions evaluate left to right, each seeing the
/// environment its predecessor left.
pub open spec fn eval_model(e: Expression, env: EnvM) -> (Result<ValM, EvalError>, EnvM)
    decreases e,
{
    match e {
        Expression::TokenExpression(i) => (Ok(ValM::Lit(i.token@)), env),
        Expression::Empty => (Ok(ValM::Empty), env),
        Expression::ExpExpOp(i) => {
            let (r1, env1) = eval_model(*i.expression_1, env);
            match r1 {
                Ok(ValM::Lit(a)) => {
                    let (r2, env2) = eval_model(*i.expression_2, env1);
                    match r2 {
                        Ok(ValM::Lit(b)) => {
                            let op = (match *i.operation {
                                Operation::TokenOperation(o) => o.token@,
                            });
                            match eval_binary_m(a, b, op) {
                                Ok(t) => (Ok(ValM::Lit(t)), env2),
                                Err(x) => (Err(x), env2),
                            }
                        },
                        Ok(ValM::Empty) => (Err(EvalError::TypeMismatch), env2),
                        Err(x) => (Err(x), env2),
                    }
                },
                Ok(ValM::Empty) => (Err(EvalError::TypeMismatch), env1),
                Err(x) => (Err(x), env1),
            }
        },
        Expression::Assignment(asg) => {
            let (r1, env1) = eval_model(*asg.expression_1, env);
            match r1 {
                Ok(ValM::Lit(n)) => {
                    let (r2, env2) = eval_model(*asg.expression_2, env1);
                    match r2 {
                        Ok(ValM::Lit(ty)) => {
                            let (r3, env3) = eval_model(*asg.expression_3, env2);
                            match r3 {
                                Ok(ValM::Lit(v)) => {
                                    match assign_m(n, ty, v) {
                                        Ok(val) => (Ok(val), env3.insert(n.text, (ty.text, v))),
                                        Err(x) => (Err(x), env3),
                                    }
                                },
                                Ok(ValM::Empty) => (Err(EvalError::TypeMismatch), env3),
                                Err(x) => (Err(x), env3),
                            }
                        },
                        Ok(ValM::Empty) => (Err(EvalError::TypeMismatch), env2),
                        Err(x) => (Err(x), env2),
                    }
                },
                Ok(ValM::Empty) => (Err(EvalError::TypeMismatch), env1),
                Err(x) => (Err(x), env1),
            }
        },
    }
}

/// What recording one checked assignment yields: the stored literal on
/// success, `TypeMismatch` when the name, the declared type or the
/// value's kind does not fit.
pub open spec fn assign_m(n: TokenM, ty: TokenM, v: TokenM) -> Result<ValM, EvalError> {
    if !token_is_name(n) {
        Err(EvalError::TypeMismatch)
    } else if !is_type_text(ty.text) {
        Err(EvalError::TypeMismatch)
    } else if !type_admits(ty.text, v.kind) {
        Err(EvalError::TypeMismatch)
    } else {
        Ok(ValM::Lit(v))
    }
}

/// Check one assignment's operands and record the binding.
fn assign_binding(n: &Token, ty: &Token, v: &Token, env: &mut Environment) -> (r: Result<
    Expression,
    EvalError,
>)
    ensures
        match r {
            Ok(e) => assign_m(n@, ty@, v@) == Ok::<ValM, EvalError>(expr_val(e))
                && e is TokenExpression && final (env)@ == old(env)@.insert(
                n@.text,
                (ty@.text, v@),
            ),
            Err(x) => assign_m(n@, ty@, v@) == Err::<ValM, EvalError>(x) && final (env)@ == old(
                env,
            )@,
        },
{
    let name_ok = n.token_type == TokenType::Identifier || n.token_type == TokenType::NoType;
    if !name_ok {
        return Err(EvalError::TypeMismatch);
    }
    if !is_type(ty.value.clone()) {
        return Err(EvalError::TypeMismatch);
    }
    let is_int_ty = str_eq(ty.value.as_str(), "int");
    let is_dec_ty = str_eq(ty.value.as_str(), "dec");
    let is_num_ty = str_eq(ty.value.as_str(), "number");
    let admits = (is_int_ty && v.token_type == TokenType::NumericIntLiteral) || (is_dec_ty
        && v.token_type == TokenType::NumericDecLiteral) || (is_num_ty && (v.token_type
        == TokenType::NumericIntLiteral || v.token_type == TokenType::NumericDecLiteral));
    proof {
        reveal_strlit("int");
        reveal_strlit("dec");
        reveal_strlit("number");
        assert("int"@.len() == 3);
        assert("dec"@.len() == 3);
        assert("number"@.len() == 6);
        assert("int"@[0] == 'i' && "dec"@[0] == 'd');
        assert("int"@ != "dec"@);
        assert("int"@ != "number"@);
        assert("dec"@ != "number"@);
        assert(admits == type_admits(ty@.text, v@.kind));
    }
    if !admits {
        return Err(EvalError::TypeMismatch);
    }
    env.set(n.value.clone(), ty.value.clone(), v.clone());
    Ok(Expression::TokenExpression(InnerTokenExpression { token: v.clone() }))
}

/// The result shape an `evaluate` call reports.
pub open spec fn expr_val(e: Expression) -> ValM {
    match e {
        Expression::TokenExpression(i) => ValM::Lit(i.token@),
        _ => ValM::Empty,
    }
}

/// Reduce an expression to a literal result, recording a binding on a
/// successful assignment.  The result and the final environment are
/// exactly those of `eval_model`.
#[verifier::rlimit(60)]
pub fn evaluate(expr: &Expression, env: &mut Environment) -> (r: Result<Expression, EvalError>)
    ensures
        ({
            let (rm, em) = eval_model(*expr, old(env)@);
            &&& final (env)@ == em
            &&& match r {
                Ok(e) => rm == Ok::<ValM, EvalError>(expr_val(e)) && (e is TokenExpression
                    || e is Empty),
                Err(x) => rm == Err::<ValM, EvalError>(x),
            }
        }),
    decreases *expr,
{
    match expr {
        Expression::TokenExpression(i) => Ok(
            Expression::TokenExpression(InnerTokenExpression { token: i.token.clone() }),
        ),
        Expression::Empty => Ok(Expression::Empty),
        Expression::ExpExpOp(i) => {
            match evaluate(&*i.expression_1, env) {
                Ok(Expression::TokenExpression(a)) => {
                    match evaluate(&*i.expression_2, env) {
                        Ok(Expression::TokenExpression(b)) => {
                            let Operation::TokenOperation(o) = &*i.operation;
                            match eval_binary_tokens(&a.token, &b.token, &o.token) {
                                Ok(t) => Ok(
                                    Expression::TokenExpression(
                                        InnerTokenExpression { token: t },
                                    ),
                                ),
                                Err(x) => Err(x),
                            }
                        },
                        Ok(_) => Err(EvalError::TypeMismatch),
                        Err(x) => Err(x),
                    }
                },
                Ok(_) => Err(EvalError::TypeMismatch),
                Err(x) => Err(x),
            }
        },
        Expression::Assignment(asg) => {
            match evaluate(&*asg.expression_1, env) {
                Ok(Expression::TokenExpression(n)) => {
                    match evaluate(&*asg.expression_2, env) {
                        Ok(Expression::TokenExpression(ty)) => {
                            match evaluate(&*asg.expression_3, env) {
                                Ok(Expression::TokenExpression(v)) => assign_binding(
                                    &n.token,
                                    &ty.token,
                                    &v.token,
                                    env,
                                ),
                                Ok(_) => Err(EvalError::TypeMismatch),
                                Err(x) => Err(x),
                            }
                        },
                        Ok(_) => Err(EvalError::TypeMismatch),
                        Err(x) => Err(x),
                    }
                },
                Ok(_) => Err(EvalError::TypeMismatch),
                Err(x) => Err(x),
            }
        },
    }
}

// ---------------------------------------------------------------------------
// Laws
// ---------------------------------------------------------------------------
/// Building a three-token list of two integer literals and an arithmetic
/// operator and then evaluating it yields a literal of the same numeric
/// kind whose text denotes the arithmetically exact result, and leaves
/// every environment unchanged.  Operand magnitudes must fit the
/// evaluator's `u64` bound, and division demands a nonzero divisor.
pub proof fn lemma_build_evaluate_int(t1: Token, t2: Token, op: Token, env: EnvM)
    requires
        t1@.kind == TokenType::NumericIntLiteral,
        t2@.kind == TokenType::NumericIntLiteral,
        is_int_literal(t1@.text),
        int_text_fits(t1@.text),
        is_int_literal(t2@.text),
        int_text_fits(t2@.text),
        is_arith_kind(op@.kind),
        op@.kind == TokenType::Division ==> int_literal_val(t2@.text) != 0,
    ensures
        ({
            let e = crate::parser::tokens_to_expr_model(seq![t1, t2, op]);
            eval_model(e, env) == (
                Ok::<ValM, EvalError>(
                    ValM::Lit(
                        TokenM {
                            kind: TokenType::NumericIntLiteral,
                            text: int_literal_str(
                                apply_arith(
                                    op@.kind,
                                    int_literal_val(t1@.text),
                                    int_literal_val(t2@.text),
                                ),
                            ),
                        },
                    ),
                ),
                env,
            )
        }),
{
    let ts = seq![t1, t2, op];
    assert(ts.len() == 3);
    let e = crate::parser::tokens_to_expr_model(ts);
    assert(eval_model(crate::parser::literal_expr(t1), env) == (
        Ok::<ValM, EvalError>(ValM::Lit(t1@)),
        env,
    ));
    assert(eval_model(crate::parser::literal_expr(t2), env) == (
        Ok::<ValM, EvalError>(ValM::Lit(t2@)),
        env,
    ));
    assert(eval_model(e, env) == (
        Ok::<ValM, EvalError>(
            ValM::Lit(
                TokenM {
                    kind: TokenType::NumericIntLiteral,
                    text: int_literal_str(
                        apply_arith(op@.kind, int_literal_val(t1@.text), int_literal_val(t2@.text)),
                    ),
                },
            ),
        ),
        env,
    ));
}

/// The decimal counterpart: building and evaluating two decimal literals
/// under an arithmetic operator yields a decimal-kind literal whose text
/// is the exact scaled-mantissa result, and leaves every environment
/// unchanged.
pub proof fn lemma_build_evaluate_dec(t1: Token, t2: Token, op: Token, env: EnvM)
    requires
        t1@.kind == TokenType::NumericDecLiteral,
        t2@.kind == TokenType::NumericDecLiteral,
        is_dec_literal(t1@.text),
        dec_text_fits(t1@.text),
        is_dec_literal(t2@.text),
        dec_text_fits(t2@.text),
        is_arith_kind(op@.kind),
        op@.kind == TokenType::Division ==> dec_mantissa_val(dec_body(t2@.text)) != 0,
    ensures
        ({
            let e = crate::parser::tokens_to_expr_model(seq![t1, t2, op]);
            eval_model(e, env) == (
                Ok::<ValM, EvalError>(
                    ValM::Lit(
                        TokenM {
                            kind: TokenType::NumericDecLiteral,
                            text: dec_result(op@.kind, t1@.text, t2@.text),
                        },
                    ),
                ),
                env,
            )
        }),
{
    let ts = seq![t1, t2, op];
    assert(ts.len() == 3);
    let e = crate::parser::tokens_to_expr_model(ts);
    assert(eval_model(crate::parser::literal_expr(t1), env) == (
        Ok::<ValM, EvalError>(ValM::Lit(t1@)),
        env,
    ));
    assert(eval_model(crate::parser::literal_expr(t2), env) == (
        Ok::<ValM, EvalError>(ValM::Lit(t2@)),
        env,
    ));
    assert(eval_model(e, env) == (
        Ok::<ValM, EvalError>(
            ValM::Lit(
                TokenM { kind: TokenType::NumericDecLiteral, text: dec_result(op@.kind, t1@.text, t2@.text) },
            ),
        ),
        env,
    ));
}

/// A successful assignment of a literal to a name stores the declared
/// type and the literal under the name's text, last write winning, and
/// returns the stored literal.
pub proof fn lemma_assignment_stores(name: Token, ty: Token, value: Token, op: Token, env: EnvM)
    requires
        token_is_name(name@),
        is_type_text(ty@.text),
        type_admits(ty@.text, value@.kind),
    ensures
        ({
            let e = crate::parser::tokens_to_expr_model(seq![name, ty, value, op]);
            op@.kind == TokenType::Assignment ==> eval_model(e, env) == (
                Ok::<ValM, EvalError>(ValM::Lit(value@)),
                env.insert(name@.text, (ty@.text, value@)),
            )
        }),
{
    let ts = seq![name, ty, value, op];
    assert(ts.len() == 4);
    if op@.kind == TokenType::Assignment {
        let e = crate::parser::tokens_to_expr_model(ts);
        assert(eval_model(crate::parser::literal_expr(name), env) == (
            Ok::<ValM, EvalError>(ValM::Lit(name@)),
            env,
        ));
        assert(eval_model(crate::parser::literal_expr(ty), env) == (
            Ok::<ValM, EvalError>(ValM::Lit(ty@)),
            env,
        ));
        assert(eval_model(crate::parser::literal_expr(value), env) == (
            Ok::<ValM, EvalError>(ValM::Lit(value@)),
            env,
        ));
        assert(assign_m(name@, ty@, value@) == Ok::<ValM, EvalError>(ValM::Lit(value@)));
        assert(eval_model(e, env) == (
            Ok::<ValM, EvalError>(ValM::Lit(value@)),
            env.insert(name@.text, (ty@.text, value@)),
        ));
    }
}

} // verus!
