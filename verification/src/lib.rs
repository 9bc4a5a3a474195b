//! A scanner, parser and printer for the Lox expression language.

pub mod ast;
pub mod driver;
pub mod interpreter;
pub mod lexer;
pub mod parser;
pub mod text;
pub mod token;
