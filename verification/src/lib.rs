//! Front end of a minimal expression language.
//!
//! A line of text is turned into a stream of classified tokens (`lexer`),
//! a finite token list is grouped into one of two fixed-arity expression
//! shapes (`parser`), and an expression is reduced to a literal result or
//! a recorded binding (`eval`).  All numeric reasoning on token texts is
//! collected in `numeric`, and the few low-level string utilities in `text`.

pub mod eval;
pub mod lexer;
pub mod numeric;
pub mod parser;
pub mod text;
