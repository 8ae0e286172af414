//! The lexer: from the text of a file to the token lists of its lines.

use crate::parser_core::tokenized::{
    list_models, token_models, Suffix, Token, TokenList, TokenListModel, TokenModel, Tokenized,
    Verb,
};
use crate::parser_core::value::{classify, classify_text};
use crate::text::{chars_of, doubled, find_doubled, split, split_on, trim, trimmed, views};
use vstd::prelude::*;
use vstd::slice::slice_subrange;

verus! {

/// The operation that the character `c` writes, if it writes one.
pub open spec fn action_of(c: char) -> Option<Verb> {
    if c == '+' {
        Some(Verb::Add)
    } else if c == '-' {
        Some(Verb::Sub)
    } else if c == '*' {
        Some(Verb::Mult)
    } else if c == '/' {
        Some(Verb::Div)
    } else if c == '=' {
        Some(Verb::Assign)
    } else {
        None
    }
}

/// The token of the text `held` between two operations: none where it is blank.
pub open spec fn noun_of(held: Seq<char>) -> Seq<TokenModel> {
    if trim(held).len() == 0 {
        Seq::empty()
    } else {
        seq![TokenModel::Noun(classify(trim(held)))]
    }
}

/// The tokens of `rest`, where `held` is the text read since the last operation.
pub open spec fn lex(rest: Seq<char>, held: Seq<char>) -> Seq<TokenModel>
    decreases rest.len(),
{
    if rest.len() == 0 {
        noun_of(held)
    } else {
        match action_of(rest[0]) {
            Some(v) => noun_of(held) + seq![TokenModel::Verb(v)] + lex(
                rest.drop_first(),
                Seq::empty(),
            ),
            None => lex(rest.drop_first(), held.push(rest[0])),
        }
    }
}

/// The line `raw` without its comment and trimmed.
pub open spec fn code_of(raw: Seq<char>) -> Seq<char> {
    trim(raw.take(doubled(raw, '/')))
}

/// The token list of the line of code `code`, which is not blank: a semicolon at its
/// end makes it a `Set` and is left out; every other line is a `Return`.
pub open spec fn lex_line(code: Seq<char>) -> TokenListModel {
    if code.last() == ';' {
        TokenListModel { objects: lex(code.drop_last(), Seq::empty()), suffix: Some(Suffix::Assign) }
    } else {
        TokenListModel { objects: lex(code, Seq::empty()), suffix: Some(Suffix::Return) }
    }
}

/// The token lists of the lines `lines`: blank lines and comments give none.
pub open spec fn lex_lines(lines: Seq<Seq<char>>) -> Seq<TokenListModel>
    decreases lines.len(),
{
    if lines.len() == 0 {
        Seq::empty()
    } else if code_of(lines.last()).len() == 0 {
        lex_lines(lines.drop_last())
    } else {
        lex_lines(lines.drop_last()).push(lex_line(code_of(lines.last())))
    }
}

/// The operation that the character `c` writes, if it writes one.
pub fn action(c: char) -> (r: Option<Verb>)
    ensures
        r == action_of(c),
{
    if c == '+' {
        Some(Verb::Add)
    } else if c == '-' {
        Some(Verb::Sub)
    } else if c == '*' {
        Some(Verb::Mult)
    } else if c == '/' {
        Some(Verb::Div)
    } else if c == '=' {
        Some(Verb::Assign)
    } else {
        None
    }
}

/// Appends the token of the text `held` to `out`, if it is not blank.
fn push_noun(out: &mut Vec<Token>, held: &[char])
    ensures
        token_models(final(out)@) == token_models(old(out)@) + noun_of(held@),
{
    let text = trimmed(held);
    if text.len() > 0 {
        let ghost before = out@;
        let noun = classify_text(text);
        out.push(Token::Noun(noun));
        assert(token_models(out@) =~= token_models(before) + noun_of(held@));
    } else {
        assert(token_models(out@) =~= token_models(out@) + noun_of(held@));
    }
}

/// The tokens of the code `code`.
pub fn lex_code(code: &[char]) -> (r: Vec<Token>)
    ensures
        token_models(r@) == lex(code@, Seq::empty()),
{
    let mut out: Vec<Token> = Vec::new();
    let mut start: usize = 0;
    let mut i: usize = 0;
    assert(code@.skip(0) == code@);
    assert(code@.subrange(0, 0) =~= Seq::<char>::empty());
    assert(token_models(out@) =~= Seq::<TokenModel>::empty());
    while i < code.len()
        invariant
            start <= i <= code.len(),
            token_models(out@) + lex(code@.skip(i as int), code@.subrange(start as int, i as int))
                == lex(code@, Seq::empty()),
        decreases code.len() - i,
    {
        let ghost rest = code@.skip(i as int);
        let ghost held = code@.subrange(start as int, i as int);
        assert(rest.drop_first() == code@.skip(i + 1));
        match action(code[i]) {
            Some(v) => {
                let ghost before = token_models(out@);
                push_noun(&mut out, slice_subrange(code, start, i));
                let ghost middle = out@;
                out.push(Token::Verb(v));
                assert(token_models(out@) =~= token_models(middle).push(TokenModel::Verb(v)));
                assert(token_models(out@) =~= before + (noun_of(held) + seq![TokenModel::Verb(v)]));
                start = i + 1;
                assert(code@.subrange(start as int, i + 1) =~= Seq::<char>::empty());
                assert(before + (noun_of(held) + seq![TokenModel::Verb(v)] + lex(
                    rest.drop_first(),
                    Seq::empty(),
                )) =~= before + (noun_of(held) + seq![TokenModel::Verb(v)]) + lex(
                    rest.drop_first(),
                    Seq::empty(),
                ));
            },
            None => {
                assert(code@.subrange(start as int, i + 1) == held.push(rest[0]));
            },
        }
        i += 1;
    }
    let ghost before = token_models(out@);
    push_noun(&mut out, slice_subrange(code, start, i));
    out
}

/// The lexer of one text.
#[derive(Debug)]
pub struct Lexer {
    pub file_contents: String,
    pub tokenized_lines: Tokenized,
}

impl Lexer {
    /// The lexer of the text `file_contents`, with no line read yet.
    pub fn new(file_contents: String) -> (r: Self)
        ensures
            r.file_contents == file_contents,
            r.tokenized_lines@ == Seq::<TokenListModel>::empty(),
    {
        let r = Lexer { file_contents, tokenized_lines: Tokenized { lines: Vec::new() } };
        assert(r.tokenized_lines@ =~= Seq::<TokenListModel>::empty());
        r
    }

    /// Reads the lines of the text and appends the token list of each line that holds
    /// code.
    pub fn run(&mut self)
        ensures
            final(self).file_contents == old(self).file_contents,
            final(self).tokenized_lines@ == old(self).tokenized_lines@ + lex_lines(
                split(old(self).file_contents@, '\n'),
            ),
    {
        let text = chars_of(self.file_contents.as_str());
        let lines = split_on(text.as_slice(), '\n');
        let ghost all = views(lines@);
        let mut i: usize = 0;
        assert(all.take(0) =~= Seq::<Seq<char>>::empty());
        assert(self.tokenized_lines@ =~= old(self).tokenized_lines@ + lex_lines(all.take(0)));
        while i < lines.len()
            invariant
                i <= lines.len(),
                all == views(lines@),
                self.file_contents == old(self).file_contents,
                self.tokenized_lines@ == old(self).tokenized_lines@ + lex_lines(all.take(i as int)),
            decreases lines.len() - i,
        {
            let raw = lines[i];
            let code = trimmed(slice_subrange(raw, 0, find_doubled(raw, '/')));
            proof {
                assert(all.take(i + 1).drop_last() == all.take(i as int));
                assert(all.take(i + 1).last() == raw@);
            }
            if code.len() > 0 {
                let list = if code[code.len() - 1] == ';' {
                    TokenList {
                        objects: lex_code(slice_subrange(code, 0, code.len() - 1)),
                        suffix: Some(Suffix::Assign),
                    }
                } else {
                    TokenList { objects: lex_code(code), suffix: Some(Suffix::Return) }
                };
                assert(code@.drop_last() == code@.subrange(0, code@.len() - 1));
                assert(list@ == lex_line(code@));
                let ghost before = self.tokenized_lines.lines@;
                self.tokenized_lines.lines.push(list);
                assert(list_models(self.tokenized_lines.lines@) =~= list_models(before).push(list@));
            }
            i += 1;
        }
        assert(all.take(lines.len() as int) == all);
    }
}

} // verus!
