//! A verified interpreter core for Luma, a small dynamically typed scripting language.
//!
//! A program is a table of functions; a function is a row of statements, each a verb
//! (`Set`, `Return`, `Mark`, `Do`) with its nouns; control flows through markers that
//! are recorded as the program runs. [`semantics`] says what programs mean, as
//! mathematical functions; [`evaluator`] and [`runner`] compute those functions;
//! [`laws`] proves what follows from them.
//!
//! The interpreter does no input or output. Where a program calls an outside
//! program, the evaluation stops with a [`error::Request`]; whoever drives the
//! interpreter runs the program, adds its [`error::Reply`] to the replies given so
//! far and evaluates again. An evaluation is thus a function of the program and the
//! replies, and its contract says which.
//!
//! Floating-point values are exact decimal numbers ([`float`]); [`magnitude`] relates
//! their order to the numbers that they stand for.
//!
//! [`parser_core`] and [`executer`] hold a second front end: a lexer, a parser and an
//! interpreter for lines of arithmetic.

pub mod bridge;
pub mod compare;
pub mod environment;
pub mod error;
pub mod evaluator;
pub mod executer;
pub mod float;
pub mod generator;
pub mod laws;
pub mod literal;
pub mod magnitude;
pub mod number;
pub mod order;
pub mod parser_core;
pub mod render;
pub mod replay;
pub mod runner;
pub mod semantics;
pub mod syntax;
pub mod text;
pub mod value;
