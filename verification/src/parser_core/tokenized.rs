//! Tokens and lists of tokens.

use crate::parser_core::value::{NounModel, Value};
use vstd::prelude::*;

verus! {

/// An operation between two values.
#[derive(Clone, Copy, Debug, PartialEq, Eq, Structural)]
pub enum Verb {
    Nothing,
    Add,
    Sub,
    Mult,
    Div,
    /// The verb `Set`: the equals sign.
    Assign,
}

/// What the end of a line makes of the line.
#[derive(Clone, Copy, Debug, PartialEq, Eq, Structural)]
pub enum Suffix {
    /// The suffix `Set`: the line ends with a semicolon and binds a variable.
    Assign,
    /// The line gives the result.
    Return,
}

/// A token: an operation or a value.
#[derive(Debug)]
pub enum Token {
    Verb(Verb),
    Noun(Value),
}

/// The model of a token.
pub enum TokenModel {
    Verb(Verb),
    Noun(NounModel),
}

impl View for Token {
    type V = TokenModel;

    open spec fn view(&self) -> TokenModel {
        match self {
            Token::Verb(v) => TokenModel::Verb(*v),
            Token::Noun(n) => TokenModel::Noun(n@),
        }
    }
}

/// The models of a sequence of tokens.
pub open spec fn token_models(tokens: Seq<Token>) -> Seq<TokenModel> {
    tokens.map_values(|t: Token| t@)
}

/// The tokens of one line, and what its end makes of it.
#[derive(Debug)]
pub struct TokenList {
    pub objects: Vec<Token>,
    pub suffix: Option<Suffix>,
}

/// The model of a list of tokens.
pub struct TokenListModel {
    pub objects: Seq<TokenModel>,
    pub suffix: Option<Suffix>,
}

impl View for TokenList {
    type V = TokenListModel;

    open spec fn view(&self) -> TokenListModel {
        TokenListModel { objects: token_models(self.objects@), suffix: self.suffix }
    }
}

/// The models of a sequence of token lists.
pub open spec fn list_models(lines: Seq<TokenList>) -> Seq<TokenListModel> {
    lines.map_values(|l: TokenList| l@)
}

/// The token lists of the lines of a text.
#[derive(Debug)]
pub struct Tokenized {
    pub lines: Vec<TokenList>,
}

impl View for Tokenized {
    type V = Seq<TokenListModel>;

    open spec fn view(&self) -> Seq<TokenListModel> {
        list_models(self.lines@)
    }
}

impl Clone for Token {
    fn clone(&self) -> (r: Self)
        ensures
            r@ == self@,
    {
        match self {
            Token::Verb(v) => Token::Verb(*v),
            Token::Noun(n) => Token::Noun(n.clone()),
        }
    }
}

/// A copy of a vector of tokens.
pub fn clone_tokens(tokens: &Vec<Token>) -> (r: Vec<Token>)
    ensures
        token_models(r@) == token_models(tokens@),
{
    let mut r: Vec<Token> = Vec::new();
    let mut i: usize = 0;
    while i < tokens.len()
        invariant
            i <= tokens.len(),
            token_models(r@) == token_models(tokens@).take(i as int),
        decreases tokens.len() - i,
    {
        let ghost before = r@;
        let t = tokens[i].clone();
        r.push(t);
        i += 1;
        assert(token_models(r@) =~= token_models(before).push(t@));
        assert(token_models(r@) =~= token_models(tokens@).take(i as int));
    }
    assert(token_models(tokens@).take(tokens.len() as int) == token_models(tokens@));
    r
}

} // verus!
