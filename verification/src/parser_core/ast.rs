//! Statements made of tokens.

use crate::parser_core::tokenized::{token_models, Token, TokenModel};
use crate::parser_core::value::{NounModel, Value};
use vstd::prelude::*;

verus! {

/// What a statement does.
#[allow(non_camel_case_types)]
#[derive(Clone, Copy, Debug, PartialEq, Eq, Structural)]
pub enum AST_type {
    /// The type `Set`: the statement binds a variable.
    Assign,
    /// The statement gives the result.
    Return,
}

/// A statement: what it does, the variable that it binds, and its expression.
#[allow(non_camel_case_types)]
#[derive(Debug)]
pub struct AST_statement {
    pub statement_type: AST_type,
    pub a: Value,
    pub b: Vec<Token>,
}

/// The model of a statement.
pub struct StatementTokens {
    pub statement_type: AST_type,
    pub a: NounModel,
    pub b: Seq<TokenModel>,
}

impl View for AST_statement {
    type V = StatementTokens;

    open spec fn view(&self) -> StatementTokens {
        StatementTokens { statement_type: self.statement_type, a: self.a@, b: token_models(self.b@) }
    }
}

/// The statements of a text.
#[derive(Debug)]
pub struct AST {
    pub statements: Vec<AST_statement>,
}

impl View for AST {
    type V = Seq<StatementTokens>;

    open spec fn view(&self) -> Seq<StatementTokens> {
        statement_models(self.statements@)
    }
}

/// The models of a sequence of statements.
pub open spec fn statement_models(statements: Seq<AST_statement>) -> Seq<StatementTokens> {
    statements.map_values(|s: AST_statement| s@)
}

} // verus!
