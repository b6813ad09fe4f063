//! A miniature compiler for integer arithmetic expressions.
//!
//! The pipeline has four stages: lexical analysis of the source text into
//! tokens, recursive-descent parsing of the tokens into an abstract syntax
//! tree, post-order lowering of the tree into a flat stack-machine
//! instruction list, and emission of assembly text lines for a physical
//! stack machine.  Every stage carries a contract that pins its output down
//! to a mathematical function of its input.

pub mod token;
pub mod ast;
pub mod ir;
pub mod text;
pub mod emit;
pub mod lexer;
pub mod parser;
pub mod compiler;
