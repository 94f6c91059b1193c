//! A minimal arithmetic-with-assignment language pipeline: source text is
//! tokenised, parsed into a syntax tree, compiled to a compact bytecode, and
//! executed on a fixed-capacity stack machine.
//!
//! Numeric values are IEEE-754 binary32 numbers, carried everywhere as their
//! raw 32-bit patterns so that contracts can speak of them exactly; the
//! arithmetic itself is delegated to `rustc_apfloat` behind a small set of
//! trusted wrappers (see the `numeric` module).

pub mod ast;
pub mod code_block;
pub mod semantics;
pub mod compiler;
pub mod parser;
pub mod lexer;
pub mod position;
pub mod tokens;
pub mod vm;
pub mod numeric;
pub mod ops;
pub mod value;
