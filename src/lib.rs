//! A compiler for a small object-oriented language: a lexer, a recursive-descent parser
//! that builds a parse tree, symbol tables, and a code generator that emits stack-machine
//! bytecode, one function block per subroutine.
use vstd::prelude::*;

pub mod text;
pub mod lexer;
pub mod parser;
pub mod grammar;
pub mod symbols;
pub mod analyzer;
pub mod pipeline;
pub mod laws;

verus! {

} // verus!
