//! The shapes of expressions: operands `value:type`, the items of a list, the parts
//! of a call and the tokens of a condition.

use crate::semantics::{
    call_arguments, call_name, call_target, combinator_of, comparison_of, depth_after,
    is_foreign, is_operator, is_pair, pair_kind, pair_value, top_comma, Combinator, Comparison,
};
use crate::text::{
    contains_char, find_doubled, find_from, find_last, is_word, lemma_position, trimmed,
};
use vstd::prelude::*;
use vstd::slice::slice_subrange;

verus! {

/// The value and the type of an operand `value:type`, if it has that form.
pub fn split_pair(item: &[char]) -> (r: Option<(&[char], &[char])>)
    ensures
        r is Some == is_pair(item@),
        r matches Some(p) ==> p.0@ == pair_value(item@) && p.1@ == pair_kind(item@),
{
    let colon = find_last(item, ':');
    if colon == 0 {
        None
    } else {
        Some(
            (
                trimmed(slice_subrange(item, 0, colon - 1)),
                trimmed(slice_subrange(item, colon, item.len())),
            ),
        )
    }
}

/// The first index with these properties is that of the first comma outside brackets.
pub proof fn lemma_top_comma_is(s: Seq<char>, depth: nat, j: int, at: spec_fn(int) -> nat)
    requires
        0 <= j <= s.len(),
        at(0) == depth,
        forall|k: int| 0 <= k < j ==> at(k + 1) == depth_after(at(k), s[k]),
        forall|k: int| 0 <= k < j ==> !(s[k] == ',' && at(k) == 0),
        j < s.len() ==> s[j] == ',' && at(j) == 0,
    ensures
        top_comma(s, depth) == j,
    decreases s.len(),
{
    if s.len() == 0 || (s[0] == ',' && depth == 0) {
    } else {
        let shifted = |k: int| at(k + 1);
        assert forall|k: int| 0 <= k < j - 1 implies shifted(k + 1) == depth_after(
            shifted(k),
            s.drop_first()[k],
        ) by {
            assert(s.drop_first()[k] == s[k + 1]);
        }
        assert forall|k: int| 0 <= k < j - 1 implies !(s.drop_first()[k] == ',' && shifted(k)
            == 0) by {
            assert(s.drop_first()[k] == s[k + 1]);
        }
        lemma_top_comma_is(s.drop_first(), depth_after(depth, s[0]), j - 1, shifted);
    }
}

/// The index of the first comma of `s` that stands inside no brackets, or the length of `s`.
pub fn find_top_comma(s: &[char]) -> (j: usize)
    ensures
        j == top_comma(s@, 0),
        j <= s.len(),
{
    let mut j: usize = 0;
    let mut depth: usize = 0;
    let ghost mut trail: Seq<nat> = seq![0nat];
    while j < s.len() && !(s[j] == ',' && depth == 0)
        invariant
            j <= s.len(),
            depth <= j,
            trail.len() == j + 1,
            trail[0] == 0,
            trail[j as int] == depth,
            forall|k: int| 0 <= k < j ==> trail[k + 1] == depth_after(trail[k], s@[k]),
            forall|k: int| 0 <= k < j ==> !(s@[k] == ',' && trail[k] == 0),
        decreases s.len() - j,
    {
        let c = s[j];
        if c == '(' || c == '[' {
            depth += 1;
        } else if (c == ')' || c == ']') && depth > 0 {
            depth -= 1;
        }
        proof {
            trail = trail.push(depth as nat);
        }
        j += 1;
    }
    proof {
        lemma_top_comma_is(s@, 0, j as int, |k: int| if 0 <= k < trail.len() { trail[k] } else { 0 });
    }
    j
}

/// The name in the target of a call.
pub fn name_of(target: &[char]) -> (r: &[char])
    ensures
        r@ == call_name(target@),
{
    let at = find_doubled(target, ':');
    if at < target.len() {
        let rest = slice_subrange(target, at + 2, target.len());
        let end = find_doubled(rest, ':');
        slice_subrange(rest, 0, end)
    } else {
        target
    }
}

/// The parts of a call: whether it is foreign, its name and its arguments; none where
/// the text holds no opening bracket.
pub fn call_parts(text: &[char]) -> (r: Option<(bool, &[char], &[char])>)
    ensures
        r is Some == (crate::text::position(text@, '(') < text@.len()),
        r matches Some(p) ==> {
            &&& p.0 == is_foreign(text@)
            &&& p.1@ == call_name(call_target(text@))
            &&& p.2@ == call_arguments(text@)
            &&& p.2@.len() < text@.len()
        },
{
    assert(text@.skip(0) == text@);
    let open = find_from(text, '(', 0);
    if open >= text.len() {
        return None;
    }
    let foreign = text[0] == '#';
    let head = slice_subrange(text, 0, open);
    let target = if foreign && open > 0 {
        trimmed(slice_subrange(head, 1, open))
    } else {
        trimmed(head)
    };
    proof {
        lemma_position(text@, '(');
    }
    let args = if open + 1 <= text.len() - 1 {
        slice_subrange(text, open + 1, text.len() - 1)
    } else {
        slice_subrange(text, 0, 0)
    };
    Some((foreign, name_of(target), args))
}

/// Whether `token` is a comparison operator.
pub fn is_operator_token(token: &[char]) -> (r: bool)
    ensures
        r == is_operator(token@),
{
    contains_char(token, '=') || contains_char(token, '<') || contains_char(token, '>')
}

/// The comparison that an operator token writes.
pub fn comparison(token: &[char]) -> (r: Comparison)
    ensures
        r == comparison_of(token@),
{
    if is_word(token, "==") {
        Comparison::Equal
    } else if is_word(token, "<=") {
        Comparison::AtMost
    } else if is_word(token, ">=") {
        Comparison::AtLeast
    } else if is_word(token, "<") {
        Comparison::Below
    } else if is_word(token, ">") {
        Comparison::Above
    } else {
        Comparison::Other
    }
}

/// The combinator that `token` writes, if it writes one.
pub fn combinator(token: &[char]) -> (r: Option<Combinator>)
    ensures
        r == combinator_of(token@),
{
    if is_word(token, "and") {
        Some(Combinator::And)
    } else if is_word(token, "or") {
        Some(Combinator::Or)
    } else if is_word(token, "xor") {
        Some(Combinator::Xor)
    } else {
        None
    }
}

} // verus!
