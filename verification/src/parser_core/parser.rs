//! The parser: from the token lists of the lines to statements.

use crate::parser_core::ast::{statement_models, AST_statement, AST_type, StatementTokens, AST};
use crate::parser_core::lexer::Lexer;
use crate::parser_core::tokenized::{
    clone_tokens, list_models, token_models, Suffix, Token, TokenListModel, TokenModel, Verb,
};
use crate::parser_core::value::{NounModel, Value};
use vstd::prelude::*;

verus! {

/// How far the reading of a `Set` line has come: the variable to bind, the tokens of
/// the expression, and whether the equals sign has been met.
pub struct Reading {
    pub a: NounModel,
    pub b: Seq<TokenModel>,
    pub past_equals: bool,
}

/// The state after the token `t`.
///
/// Before the equals sign the name of a variable becomes the variable to bind; the
/// equals sign itself is left out; every other token goes into the expression.
pub open spec fn read_token(state: Reading, t: TokenModel) -> Reading {
    match t {
        TokenModel::Noun(NounModel::VarName(name)) => if !state.past_equals {
            Reading { a: NounModel::VarName(name), b: state.b, past_equals: state.past_equals }
        } else {
            Reading { a: state.a, b: state.b.push(t), past_equals: state.past_equals }
        },
        TokenModel::Verb(Verb::Assign) => Reading { a: state.a, b: state.b, past_equals: true },
        _ => Reading { a: state.a, b: state.b.push(t), past_equals: state.past_equals },
    }
}

/// The state after the tokens `tokens`, from the state `state` on.
pub open spec fn read_tokens(state: Reading, tokens: Seq<TokenModel>) -> Reading
    decreases tokens.len(),
{
    if tokens.len() == 0 {
        state
    } else {
        read_token(read_tokens(state, tokens.drop_last()), tokens.last())
    }
}

/// The statement of a token list.
pub open spec fn statement_of(list: TokenListModel) -> StatementTokens {
    match list.suffix {
        Some(Suffix::Assign) => {
            let end = read_tokens(
                Reading { a: NounModel::VarName(Seq::empty()), b: Seq::empty(), past_equals: false },
                list.objects,
            );
            StatementTokens { statement_type: AST_type::Assign, a: end.a, b: end.b }
        },
        _ => StatementTokens {
            statement_type: AST_type::Return,
            a: NounModel::Undefined,
            b: list.objects,
        },
    }
}

/// The statements of the token lists, one for each.
pub open spec fn statements_of(lists: Seq<TokenListModel>) -> Seq<StatementTokens> {
    lists.map_values(|l: TokenListModel| statement_of(l))
}

/// Whether every token list says what its line is.
pub open spec fn complete(lists: Seq<TokenListModel>) -> bool {
    forall|i: int| 0 <= i < lists.len() ==> (#[trigger] lists[i]).suffix is Some
}

/// The parser of the lines that a lexer has read.
#[derive(Debug)]
pub struct Parser {
    pub lexer: Lexer,
}

/// The statement of a `Set` line with the tokens `tokens`.
fn assignment(tokens: &Vec<Token>) -> (r: AST_statement)
    ensures
        r@ == statement_of(
            TokenListModel { objects: token_models(tokens@), suffix: Some(Suffix::Assign) },
        ),
{
    let ghost all = token_models(tokens@);
    let ghost start = Reading {
        a: NounModel::VarName(Seq::empty()),
        b: Seq::empty(),
        past_equals: false,
    };
    let mut a = Value::VarName(String::new());
    let mut right_hand: Vec<Token> = Vec::new();
    let mut eq_side = false;
    let mut i: usize = 0;
    assert(all.take(0) =~= Seq::<TokenModel>::empty());
    assert(token_models(right_hand@) =~= Seq::<TokenModel>::empty());
    while i < tokens.len()
        invariant
            i <= tokens.len(),
            all == token_models(tokens@),
            read_tokens(start, all.take(i as int)) == (Reading {
                a: a@,
                b: token_models(right_hand@),
                past_equals: eq_side,
            }),
        decreases tokens.len() - i,
    {
        proof {
            assert(all.take(i + 1).drop_last() == all.take(i as int));
            assert(all.take(i + 1).last() == tokens@[i as int]@);
        }
        let ghost before = right_hand@;
        match &tokens[i] {
            Token::Noun(val) => match val {
                Value::VarName(_) => {
                    if !eq_side {
                        a = val.clone();
                    } else {
                        let t = Token::Noun(val.clone());
                        right_hand.push(t);
                        assert(token_models(right_hand@) =~= token_models(before).push(t@));
                    }
                },
                _ => {
                    let t = Token::Noun(val.clone());
                    right_hand.push(t);
                    assert(token_models(right_hand@) =~= token_models(before).push(t@));
                },
            },
            Token::Verb(v) => match v {
                Verb::Assign => {
                    eq_side = true;
                },
                _ => {
                    let t = Token::Verb(*v);
                    right_hand.push(t);
                    assert(token_models(right_hand@) =~= token_models(before).push(t@));
                },
            },
        }
        i += 1;
    }
    assert(all.take(tokens.len() as int) == all);
    AST_statement { statement_type: AST_type::Assign, a, b: right_hand }
}

impl Parser {
    /// The parser of the lines that `lexer` has read.
    pub fn new(lexer: Lexer) -> (r: Self)
        ensures
            r.lexer == lexer,
    {
        Parser { lexer }
    }

    /// The statements of the lines, one for each token list.
    pub fn run(&self) -> (r: AST)
        requires
            complete(self.lexer.tokenized_lines@),
        ensures
            r@ == statements_of(self.lexer.tokenized_lines@),
    {
        let lists = &self.lexer.tokenized_lines.lines;
        let ghost all = list_models(lists@);
        let mut statements: Vec<AST_statement> = Vec::new();
        let mut i: usize = 0;
        while i < lists.len()
            invariant
                i <= lists.len(),
                all == list_models(lists@),
                complete(all),
                statement_models(statements@) == statements_of(all.take(i as int)),
            decreases lists.len() - i,
        {
            let list = &lists[i];
            assert(all[i as int] == list@);
            let ghost before = statements@;
            let statement = match list.suffix {
                Some(Suffix::Assign) => assignment(&list.objects),
                _ => AST_statement {
                    statement_type: AST_type::Return,
                    a: Value::Undefined,
                    b: clone_tokens(&list.objects),
                },
            };
            assert(statement@ == statement_of(list@));
            statements.push(statement);
            i += 1;
            assert(statement_models(statements@) =~= statement_models(before).push(statement@));
            assert(statement_models(statements@) =~= statements_of(all.take(i as int)));
        }
        assert(all.take(lists.len() as int) == all);
        AST { statements }
    }
}

} // verus!
