//! Decimal digits: the literals of integers and the text of an integer.

use vstd::prelude::*;
use vstd::slice::slice_subrange;

verus! {

/// Whether `c` is one of the ten decimal digits.
pub open spec fn is_digit(c: char) -> bool {
    '0' <= c <= '9'
}

/// The number that the digit `c` stands for.
pub open spec fn digit(c: char) -> nat {
    (c as u32 - 48) as nat
}

/// The digit that stands for `d`, a number below ten.
pub open spec fn digit_char(d: nat) -> char {
    (d + 48) as char
}

/// Whether `s` holds decimal digits only.
pub open spec fn all_digits(s: Seq<char>) -> bool {
    forall|i: int| 0 <= i < s.len() ==> is_digit(#[trigger] s[i])
}

/// The number that the digits `s` write, most significant digit first.
pub open spec fn digits_value(s: Seq<char>) -> nat
    decreases s.len(),
{
    if s.len() == 0 {
        0
    } else {
        digits_value(s.drop_last()) * 10 + digit(s.last())
    }
}

/// The digits of `n`, without leading zeros; one zero for 0.
pub open spec fn nat_text(n: nat) -> Seq<char>
    decreases n,
{
    if n < 10 {
        seq![digit_char(n)]
    } else {
        nat_text(n / 10).push(digit_char(n % 10))
    }
}

/// The text of the integer `n`: a minus sign where it is negative, then its digits.
pub open spec fn int_text(n: int) -> Seq<char> {
    if n < 0 {
        seq!['-'] + nat_text((-n) as nat)
    } else {
        nat_text(n as nat)
    }
}

/// Whether `s` begins with a sign.
pub open spec fn has_sign(s: Seq<char>) -> bool {
    s.len() > 0 && (s[0] == '-' || s[0] == '+')
}

/// Whether `s` begins with a minus sign.
pub open spec fn is_negative(s: Seq<char>) -> bool {
    s.len() > 0 && s[0] == '-'
}

/// `s` without its sign, where it has one.
pub open spec fn unsigned(s: Seq<char>) -> Seq<char> {
    if has_sign(s) {
        s.skip(1)
    } else {
        s
    }
}

/// The integer that `s` writes: an optional sign and at least one digit, nothing else.
pub open spec fn signed_value(s: Seq<char>) -> Option<int> {
    let body = unsigned(s);
    if body.len() == 0 || !all_digits(body) {
        None
    } else if is_negative(s) {
        Some(-(digits_value(body) as int))
    } else {
        Some(digits_value(body) as int)
    }
}

/// The 32-bit integer that the literal `s` writes, if it writes one.
pub open spec fn int_literal(s: Seq<char>) -> Option<int> {
    match signed_value(s) {
        Some(v) => if i32::MIN <= v <= i32::MAX {
            Some(v)
        } else {
            None
        },
        None => None,
    }
}

/// The value of the first digits is at most that of all of them.
pub proof fn lemma_digits_value_grows(s: Seq<char>, k: int)
    requires
        0 <= k <= s.len(),
    ensures
        digits_value(s.take(k)) <= digits_value(s),
    decreases s.len(),
{
    if k == s.len() {
        assert(s.take(k) == s);
    } else {
        lemma_digits_value_grows(s.drop_last(), k);
        assert(s.drop_last().take(k) == s.take(k));
    }
}

/// The text of a number is made of digits, writes the number and begins with no zero
/// unless the number is zero.
pub proof fn lemma_nat_text(n: nat)
    ensures
        all_digits(nat_text(n)),
        digits_value(nat_text(n)) == n,
        nat_text(n).len() >= 1,
        n > 0 ==> nat_text(n)[0] != '0',
    decreases n,
{
    if n < 10 {
        assert(nat_text(n).drop_last() == Seq::<char>::empty());
        assert(digits_value(Seq::<char>::empty()) == 0);
        assert(digit(digit_char(n)) == n);
    } else {
        lemma_nat_text(n / 10);
        assert(nat_text(n).drop_last() == nat_text(n / 10));
        assert(digit(digit_char(n % 10)) == n % 10);
    }
}

/// The text of an integer writes that integer.
pub proof fn lemma_int_text_literal(n: int)
    ensures
        signed_value(int_text(n)) == Some(n),
{
    if n < 0 {
        lemma_nat_text((-n) as nat);
        assert(int_text(n).skip(1) == nat_text((-n) as nat));
    } else {
        lemma_nat_text(n as nat);
    }
}

/// Whether `c` is one of the ten decimal digits.
pub fn is_digit_char(c: char) -> (r: bool)
    ensures
        r == is_digit(c),
{
    '0' <= c && c <= '9'
}

/// The number that the digit `c` stands for.
pub fn digit_of(c: char) -> (d: u8)
    requires
        is_digit(c),
    ensures
        d == digit(c),
        d < 10,
{
    (c as u32 - 48) as u8
}

/// The digit that stands for `d`.
pub fn char_of_digit(d: u8) -> (c: char)
    requires
        d < 10,
    ensures
        c == digit_char(d as nat),
        is_digit(c),
{
    match d {
        0 => '0',
        1 => '1',
        2 => '2',
        3 => '3',
        4 => '4',
        5 => '5',
        6 => '6',
        7 => '7',
        8 => '8',
        _ => '9',
    }
}

/// Whether `v` holds decimal digits only.
pub fn only_digits(v: &[char]) -> (r: bool)
    ensures
        r == all_digits(v@),
{
    let mut i: usize = 0;
    while i < v.len()
        invariant
            i <= v.len(),
            forall|k: int| 0 <= k < i ==> is_digit(#[trigger] v@[k]),
        decreases v.len() - i,
    {
        if !is_digit_char(v[i]) {
            return false;
        }
        i += 1;
    }
    true
}

/// The value of the digits `v`, or `limit + 1` where it is above `limit`.
pub fn value_up_to(v: &[char], limit: u128) -> (n: u128)
    requires
        all_digits(v@),
        limit < 0x1000_0000_0000_0000_0000_0000_0000_0000,
    ensures
        digits_value(v@) <= limit ==> n == digits_value(v@),
        digits_value(v@) > limit ==> n == limit + 1,
{
    let mut n: u128 = 0;
    let mut i: usize = 0;
    assert(v@.take(0) == Seq::<char>::empty());
    while i < v.len()
        invariant
            i <= v.len(),
            all_digits(v@),
            limit < 0x1000_0000_0000_0000_0000_0000_0000_0000,
            n == digits_value(v@.take(i as int)),
            n <= limit,
        decreases v.len() - i,
    {
        let d = digit_of(v[i]);
        assert(v@.take(i + 1).drop_last() == v@.take(i as int));
        let next: u128 = n * 10 + d as u128;
        if next > limit {
            proof {
                lemma_digits_value_grows(v@, i + 1);
            }
            return limit + 1;
        }
        n = next;
        i += 1;
    }
    assert(v@.take(v.len() as int) == v@);
    n
}

/// Parses a 32-bit integer literal.
pub fn parse_i32(v: &[char]) -> (r: Option<i32>)
    ensures
        match int_literal(v@) {
            Some(n) => r == Some(n as i32) && r.unwrap() == n,
            None => r is None,
        },
{
    let negative = v.len() > 0 && v[0] == '-';
    let signed = v.len() > 0 && (v[0] == '-' || v[0] == '+');
    let body = if signed {
        slice_subrange(v, 1, v.len())
    } else {
        v
    };
    if body.len() == 0 || !only_digits(body) {
        return None;
    }
    let n = value_up_to(body, 2_147_483_648);
    if negative {
        if n > 2_147_483_648 {
            None
        } else if n == 2_147_483_648 {
            Some(i32::MIN)
        } else {
            Some(-(n as i32))
        }
    } else {
        if n > 2_147_483_647 {
            None
        } else {
            Some(n as i32)
        }
    }
}

/// Appends the digits of `n` to `out`.
pub fn push_nat(out: &mut Vec<char>, n: u64)
    ensures
        final(out)@ == old(out)@ + nat_text(n as nat),
    decreases n,
{
    if n >= 10 {
        push_nat(out, n / 10);
    }
    out.push(char_of_digit((n % 10) as u8));
    assert(final(out)@ == old(out)@ + nat_text(n as nat)) by {
        if n >= 10 {
            assert((old(out)@ + nat_text((n / 10) as nat)).push(digit_char((n % 10) as nat))
                == old(out)@ + nat_text(n as nat));
        } else {
            assert(old(out)@.push(digit_char(n as nat)) == old(out)@ + nat_text(n as nat));
        }
    }
}

/// The text of `n`.
pub fn render_i32(n: i32) -> (v: Vec<char>)
    ensures
        v@ == int_text(n as int),
{
    let mut v: Vec<char> = Vec::new();
    if n < 0 {
        v.push('-');
        let m: u64 = (-(n as i64)) as u64;
        push_nat(&mut v, m);
    } else {
        push_nat(&mut v, n as u64);
        assert(Seq::<char>::empty() + nat_text(n as nat) == nat_text(n as nat));
    }
    v
}

} // verus!
