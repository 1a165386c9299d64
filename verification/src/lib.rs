//! A minimal interpreter for a small Lisp-like S-expression language.
//!
//! Source text is tokenized into a flat token stream, parsed into an
//! `Expr` tree, and evaluated against a chain of lexical scope frames.
//! Every stage carries a mathematical model (`TokenV`, `ExprV`, frame
//! sequences) and the executable code is proved equal to that model.

pub mod ast;
pub mod env;
pub mod eval;
pub mod parser;
pub mod render;
pub mod errors;
pub mod expr;
pub mod tokenizer;
