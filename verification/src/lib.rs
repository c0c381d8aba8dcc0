//! A small expression language: a lexer, a Pratt parser, a bytecode compiler
//! and a stack machine with a persistent variable environment.
//!
//! A text goes through four stages. [`lexer::Lexer`] scans it into tokens,
//! [`parser::parser::Parser`] builds a tree from the tokens,
//! [`compiler::Compiler`] lowers the tree to a
//! [`compiler::chunk::Chunk`] of bytecode, and
//! [`interpreter::Interpreter`] runs the chunk. Each stage has a
//! mathematical description, and each function of a stage is proved to
//! compute what the description says.
//!
//! Numbers are the host's: the machine carries them and asks the host for
//! every negation, sum, difference, product and quotient. To evaluate a text,
//! a host calls [`interpreter::Interpreter::interpret`] and, for as long as
//! the machine answers with a request, computes it and calls
//! [`interpreter::Interpreter::resume`]. [`semantics`] states what this loop
//! yields for every host, and proves that it is what the tree of the text
//! says.

pub mod compiler;
pub mod interpreter;
pub mod lexer;
pub mod numerals;
pub mod parser;
pub mod repl;
pub mod semantics;
