//! The syntax tree of Lox, and a printer for expressions.

pub mod expressions;
pub mod printer;
pub mod statements;
