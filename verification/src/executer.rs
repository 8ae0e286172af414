//! The interpreter of the statements that the parser of lines of arithmetic makes.

pub mod interpreter;
