//! Syntax trees and the parser that builds them from tokens.

pub mod ast;
pub mod parser;
