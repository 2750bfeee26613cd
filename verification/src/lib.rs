//! Neutron: a small imperative teaching language, verified from source text
//! to value.
//!
//! The library is a pipeline of four stages. Each stage is defined by
//! specification functions over a mathematical model of its input and output,
//! and each executable function is proved to compute them:
//!
//! * [`lexer`] turns source text into tokens,
//! * [`parser`] builds the syntax tree ([`ast`]) by recursive descent,
//! * [`semantic`] checks declarations and static types against a
//!   [`symbol_table`],
//! * [`interpreter`] evaluates the tree.
//!
//! [`frontend`] runs the first three on a source text. [`bindings`] holds the
//! map from names to values that the tables are made of, and [`float`] the
//! record of floating-point results that the interpreter works from: the
//! library itself computes on integers only.

pub mod ast;
pub mod bindings;
pub mod float;
pub mod frontend;
pub mod interpreter;
pub mod lexer;
pub mod parser;
pub mod semantic;
pub mod symbol_table;
