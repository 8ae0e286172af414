//! The front end for lines of arithmetic: a lexer that turns each line into tokens,
//! and a parser that turns the token lists into statements.

pub mod ast;
pub mod cast;
pub mod lexer;
pub mod parser;
pub mod tokenized;
pub mod value;
