//! Floating-point values, held as exact decimal numbers.
//!
//! A finite value is a sign, its significant digits and the place of the decimal point:
//! the digits `d1 d2 .. dn` with the point at `p` stand for `0.d1d2..dn` times ten to the
//! power `p`. The point stays within the decimal range of a 64-bit binary float: a
//! literal above that range is an infinity, one below it is zero. Nothing is rounded.

use crate::number::{all_digits, is_negative, nat_text, push_nat, signed_value, unsigned};
use crate::number::{lemma_nat_text, only_digits, value_up_to};
use crate::order::{compare_int, compare_text, int_order, reverse, text_order, Order};
use crate::text::{append, chars_of, find_from, lemma_position, lowered, position, spells};
use vstd::prelude::*;
use vstd::slice::slice_subrange;

verus! {

/// The largest place of the decimal point: values from ten to this power on are infinite.
pub const MAX_POINT: i32 = 309;

/// No text is long enough to bring an exponent beyond this bound back into range.
pub const EXPONENT_BOUND: i128 = 0x100_0000_0000_0000_0000_0000_0000;

/// The smallest place of the decimal point: values below ten to the power one less
/// than this are zero.
pub const MIN_POINT: i32 = -323;

/// What a floating-point value is.
pub enum FloatModel {
    Finite { negative: bool, digits: Seq<char>, point: int },
    Infinite { negative: bool },
    NaN,
}

#[derive(Clone, Copy, Debug, PartialEq, Eq, Structural)]
enum Kind {
    Finite,
    Infinite,
    NaN,
}

/// A floating-point value.
#[derive(Debug)]
pub struct Float {
    kind: Kind,
    negative: bool,
    digits: Vec<char>,
    point: i32,
}

impl Float {
    #[verifier::type_invariant]
    spec fn well_formed(self) -> bool {
        &&& normal(self@)
        &&& !(self.kind is Finite) ==> self.digits@.len() == 0 && self.point == 0
    }
}

/// The finite zero with the given sign.
pub open spec fn zero(negative: bool) -> FloatModel {
    FloatModel::Finite { negative, digits: Seq::empty(), point: 0 }
}

/// Whether `m` is in normal form: no zero digit at either end, the point in range, and
/// zero written with no digit at all.
pub open spec fn normal(m: FloatModel) -> bool {
    match m {
        FloatModel::Finite { negative, digits, point } => {
            &&& all_digits(digits)
            &&& digits.len() == 0 ==> point == 0
            &&& digits.len() > 0 ==> {
                &&& digits[0] != '0'
                &&& digits.last() != '0'
                &&& MIN_POINT <= point <= MAX_POINT
            }
        },
        _ => true,
    }
}

impl View for Float {
    type V = FloatModel;

    closed spec fn view(&self) -> FloatModel {
        match self.kind {
            Kind::Finite => FloatModel::Finite {
                negative: self.negative,
                digits: self.digits@,
                point: self.point as int,
            },
            Kind::Infinite => FloatModel::Infinite { negative: self.negative },
            Kind::NaN => FloatModel::NaN,
        }
    }
}

/// The number of zeros at the start of `s`.
pub open spec fn leading_zeros(s: Seq<char>) -> nat
    decreases s.len(),
{
    if s.len() > 0 && s[0] == '0' {
        1 + leading_zeros(s.drop_first())
    } else {
        0
    }
}

/// The number of zeros at the end of `s`.
pub open spec fn trailing_zeros(s: Seq<char>) -> nat
    decreases s.len(),
{
    if s.len() > 0 && s.last() == '0' {
        1 + trailing_zeros(s.drop_last())
    } else {
        0
    }
}

/// `s` without the zeros at its start and at its end.
pub open spec fn significant(s: Seq<char>) -> Seq<char> {
    let body = s.skip(leading_zeros(s) as int);
    body.take(body.len() - trailing_zeros(body))
}

/// The value in normal form that the digits `digits` with the point at `point` stand for.
pub open spec fn normalize(negative: bool, digits: Seq<char>, point: int) -> FloatModel {
    let kept = significant(digits);
    let p = point - leading_zeros(digits);
    if kept.len() == 0 {
        zero(negative)
    } else if p > MAX_POINT {
        FloatModel::Infinite { negative }
    } else if p < MIN_POINT {
        zero(negative)
    } else {
        FloatModel::Finite { negative, digits: kept, point: p }
    }
}

/// The index of the first `e` or `E` in `s`, or the length of `s`.
pub open spec fn exponent_mark(s: Seq<char>) -> int {
    if position(s, 'e') <= position(s, 'E') {
        position(s, 'e')
    } else {
        position(s, 'E')
    }
}

/// The value of a number in decimal notation: digits with at most one point among them,
/// at least one digit, and an optional exponent of ten after `e` or `E`.
pub open spec fn number_literal(negative: bool, body: Seq<char>) -> Option<FloatModel> {
    let m = exponent_mark(body);
    let mantissa = body.take(m);
    let exponent = if m < body.len() {
        signed_value(body.skip(m + 1))
    } else {
        Some(0int)
    };
    let dot = position(mantissa, '.');
    let whole = mantissa.take(dot);
    let fraction = if dot < mantissa.len() {
        mantissa.skip(dot + 1)
    } else {
        Seq::empty()
    };
    if exponent is None || !all_digits(whole) || !all_digits(fraction) || whole.len()
        + fraction.len() == 0 {
        None
    } else {
        Some(normalize(negative, whole + fraction, whole.len() + exponent->0))
    }
}

/// The value that a floating-point literal writes: an optional sign, then `inf`,
/// `infinity` or `nan` in any case, or a number in decimal notation.
pub open spec fn float_literal(s: Seq<char>) -> Option<FloatModel> {
    let negative = is_negative(s);
    let word = lowered(unsigned(s));
    if word == seq!['i', 'n', 'f'] || word == seq!['i', 'n', 'f', 'i', 'n', 'i', 't', 'y'] {
        Some(FloatModel::Infinite { negative })
    } else if word == seq!['n', 'a', 'n'] {
        Some(FloatModel::NaN)
    } else {
        number_literal(negative, unsigned(s))
    }
}

/// `n` zeros.
pub open spec fn zeros(n: nat) -> Seq<char> {
    Seq::new(n, |i: int| '0')
}

/// The digits of a finite value in plain decimal notation, without a sign.
pub open spec fn plain_digits(digits: Seq<char>, point: int) -> Seq<char> {
    if digits.len() == 0 {
        seq!['0']
    } else if point <= 0 {
        seq!['0', '.'] + zeros((-point) as nat) + digits
    } else if point >= digits.len() {
        digits + zeros((point - digits.len()) as nat)
    } else {
        digits.take(point) + seq!['.'] + digits.skip(point)
    }
}

/// The text of a value: plain decimal notation, `inf` or `NaN`, after a minus sign
/// where the value is negative.
pub open spec fn float_text(m: FloatModel) -> Seq<char> {
    match m {
        FloatModel::Finite { negative, digits, point } => if negative {
            seq!['-'] + plain_digits(digits, point)
        } else {
            plain_digits(digits, point)
        },
        FloatModel::Infinite { negative } => if negative {
            seq!['-', 'i', 'n', 'f']
        } else {
            seq!['i', 'n', 'f']
        },
        FloatModel::NaN => seq!['N', 'a', 'N'],
    }
}

/// The value of the integer `n`.
pub open spec fn float_of_int(n: int) -> FloatModel {
    let text = nat_text((if n < 0 { -n } else { n }) as nat);
    normalize(n < 0, text, text.len() as int)
}

/// Whether the value has no fractional part: no `NaN` has none.
pub open spec fn is_whole(m: FloatModel) -> bool {
    match m {
        FloatModel::Finite { digits, point, .. } => digits.len() <= point || digits.len() == 0,
        FloatModel::Infinite { .. } => true,
        FloatModel::NaN => false,
    }
}

/// The digits before the decimal point of a finite value.
pub open spec fn whole_digits(digits: Seq<char>, point: int) -> Seq<char> {
    if point <= 0 {
        Seq::empty()
    } else if point >= digits.len() {
        digits + zeros((point - digits.len()) as nat)
    } else {
        digits.take(point)
    }
}

/// The value cut off at the decimal point, as a 32-bit integer: the nearest one where
/// the value lies beyond them, and 0 for `NaN`.
pub open spec fn truncated(m: FloatModel) -> int {
    match m {
        FloatModel::Finite { negative, digits, point } => {
            let size = crate::number::digits_value(whole_digits(digits, point));
            if negative {
                if size > 0x8000_0000 {
                    i32::MIN as int
                } else {
                    -(size as int)
                }
            } else {
                if size > i32::MAX {
                    i32::MAX as int
                } else {
                    size as int
                }
            }
        },
        FloatModel::Infinite { negative } => if negative {
            i32::MIN as int
        } else {
            i32::MAX as int
        },
        FloatModel::NaN => 0,
    }
}

/// The value cut off at the decimal point, as an unsigned 32-bit integer: the nearest
/// one where the value lies beyond them, and 0 for `NaN`.
pub open spec fn truncated_unsigned(m: FloatModel) -> int {
    match m {
        FloatModel::Finite { negative, digits, point } => {
            let size = crate::number::digits_value(whole_digits(digits, point));
            if negative {
                0
            } else if size > u32::MAX {
                u32::MAX as int
            } else {
                size as int
            }
        },
        FloatModel::Infinite { negative } => if negative {
            0
        } else {
            u32::MAX as int
        },
        FloatModel::NaN => 0,
    }
}

/// -1, 0 or 1 as the value is below, at or above zero.
pub open spec fn signum(m: FloatModel) -> int {
    match m {
        FloatModel::Finite { negative, digits, point } => if digits.len() == 0 {
            0
        } else if negative {
            -1
        } else {
            1
        },
        FloatModel::Infinite { negative } => if negative {
            -1
        } else {
            1
        },
        FloatModel::NaN => 0,
    }
}

/// The order of the sizes of two values that are neither zero nor `NaN`: an infinity is
/// the largest; of two finite values the one with the point further right is larger, and
/// with the point at one place their digits decide.
pub open spec fn size_order(a: FloatModel, b: FloatModel) -> Order {
    match (a, b) {
        (
            FloatModel::Finite { digits: da, point: pa, .. },
            FloatModel::Finite { digits: db, point: pb, .. },
        ) => if pa != pb {
            int_order(pa, pb)
        } else {
            text_order(da, db)
        },
        (FloatModel::Finite { .. }, _) => Order::Less,
        (_, FloatModel::Finite { .. }) => Order::Greater,
        _ => Order::Equal,
    }
}

/// The order of two values in normal form: none where one of them is `NaN`.
pub open spec fn float_order(a: FloatModel, b: FloatModel) -> Option<Order> {
    if a is NaN || b is NaN {
        None
    } else if signum(a) != signum(b) {
        Some(int_order(signum(a), signum(b)))
    } else if signum(a) == 0 {
        Some(Order::Equal)
    } else if signum(a) > 0 {
        Some(size_order(a, b))
    } else {
        Some(reverse(size_order(a, b)))
    }
}

/// The zeros at the start of `s` are zeros, and what follows them is none.
pub proof fn lemma_leading_zeros(s: Seq<char>)
    ensures
        leading_zeros(s) <= s.len(),
        forall|i: int| 0 <= i < leading_zeros(s) ==> s[i] == '0',
        leading_zeros(s) < s.len() ==> s[leading_zeros(s) as int] != '0',
    decreases s.len(),
{
    if s.len() > 0 && s[0] == '0' {
        lemma_leading_zeros(s.drop_first());
        assert forall|i: int| 0 <= i < leading_zeros(s) implies s[i] == '0' by {
            if i > 0 {
                assert(s.drop_first()[i - 1] == s[i]);
            }
        }
    }
}

/// The zeros at the end of `s` are zeros, and what stands before them is none.
pub proof fn lemma_trailing_zeros(s: Seq<char>)
    ensures
        trailing_zeros(s) <= s.len(),
        forall|i: int| s.len() - trailing_zeros(s) <= i < s.len() ==> s[i] == '0',
        trailing_zeros(s) < s.len() ==> s[s.len() - trailing_zeros(s) - 1] != '0',
    decreases s.len(),
{
    if s.len() > 0 && s.last() == '0' {
        lemma_trailing_zeros(s.drop_last());
        assert forall|i: int| s.len() - trailing_zeros(s) <= i < s.len() implies s[i] == '0' by {
            if i < s.len() - 1 {
                assert(s.drop_last()[i] == s[i]);
            }
        }
    }
}

/// The zeros at the start of `s` are the `k` that stand before the first other character.
pub proof fn lemma_leading_zeros_is(s: Seq<char>, k: int)
    requires
        0 <= k <= s.len(),
        forall|i: int| 0 <= i < k ==> s[i] == '0',
        k < s.len() ==> s[k] != '0',
    ensures
        leading_zeros(s) == k,
{
    lemma_leading_zeros(s);
    let z = leading_zeros(s) as int;
    if z < k {
        assert(s[z] == '0');
    } else if k < z {
        assert(s[k] == '0');
    }
}

/// The zeros at the end of `s` are the `k` that stand after the last other character.
pub proof fn lemma_trailing_zeros_is(s: Seq<char>, k: int)
    requires
        0 <= k <= s.len(),
        forall|i: int| s.len() - k <= i < s.len() ==> s[i] == '0',
        k < s.len() ==> s[s.len() - k - 1] != '0',
    ensures
        trailing_zeros(s) == k,
{
    lemma_trailing_zeros(s);
    let z = trailing_zeros(s) as int;
    if z < k {
        assert(s[s.len() - z - 1] == '0');
    } else if k < z {
        assert(s[s.len() - k - 1] == '0');
    }
}

/// Far enough out of range, the place of the point no longer matters.
pub proof fn lemma_normalize_beyond(negative: bool, digits: Seq<char>, a: int, b: int)
    requires
        a == b || (a - digits.len() > MAX_POINT && b - digits.len() > MAX_POINT) || (a < MIN_POINT
            && b < MIN_POINT),
    ensures
        normalize(negative, digits, a) == normalize(negative, digits, b),
{
    lemma_leading_zeros(digits);
}

impl Float {
    /// The value in normal form of the digits `digits` with the point at `point`.
    pub fn normalized(negative: bool, digits: &[char], point: i128) -> (r: Float)
        requires
            all_digits(digits@),
            -0x1000_0000_0000_0000_0000_0000_0000_0000 < point
                < 0x1000_0000_0000_0000_0000_0000_0000_0000,
        ensures
            r@ == normalize(negative, digits@, point as int),
            normal(r@),
    {
        let n = digits.len();
        let mut k: usize = 0;
        while k < n && digits[k] == '0'
            invariant
                k <= n,
                n == digits.len(),
                forall|i: int| 0 <= i < k ==> digits@[i] == '0',
            decreases n - k,
        {
            k += 1;
        }
        let mut end: usize = n;
        while end > k && digits[end - 1] == '0'
            invariant
                k <= end <= n,
                n == digits.len(),
                forall|i: int| end <= i < n ==> digits@[i] == '0',
            decreases end,
        {
            end -= 1;
        }
        let ghost body = digits@.skip(k as int);
        proof {
            lemma_leading_zeros_is(digits@, k as int);
            lemma_trailing_zeros_is(body, n - end);
            assert(significant(digits@) == digits@.subrange(k as int, end as int));
        }
        let p: i128 = point - k as i128;
        if end == k {
            Float { kind: Kind::Finite, negative, digits: Vec::new(), point: 0 }
        } else if p > MAX_POINT as i128 {
            Float { kind: Kind::Infinite, negative, digits: Vec::new(), point: 0 }
        } else if p < MIN_POINT as i128 {
            Float { kind: Kind::Finite, negative, digits: Vec::new(), point: 0 }
        } else {
            let mut kept: Vec<char> = Vec::new();
            append(&mut kept, slice_subrange(digits, k, end));
            assert(kept@ == digits@.subrange(k as int, end as int));
            Float { kind: Kind::Finite, negative, digits: kept, point: p as i32 }
        }
    }

    /// The value of the integer `n`.
    pub fn from_int(n: i32) -> (r: Float)
        ensures
            r@ == float_of_int(n as int),
            normal(r@),
    {
        let mut text: Vec<char> = Vec::new();
        let size: u64 = if n < 0 {
            (-(n as i64)) as u64
        } else {
            n as u64
        };
        push_nat(&mut text, size);
        proof {
            lemma_nat_text(size as nat);
            assert(text@ == nat_text(size as nat));
        }
        Float::normalized(n < 0, text.as_slice(), text.len() as i128)
    }
}

impl Clone for Float {
    fn clone(&self) -> (r: Self)
        ensures
            r@ == self@,
    {
        proof {
            use_type_invariant(self);
        }
        let mut digits: Vec<char> = Vec::new();
        append(&mut digits, self.digits.as_slice());
        Float { kind: self.kind, negative: self.negative, digits, point: self.point }
    }
}

/// The exponent that `v` writes, cut off just beyond a bound that no text can make up for.
fn exponent_of(v: &[char]) -> (r: Option<i128>)
    ensures
        match signed_value(v@) {
            Some(e) => {
                &&& r is Some
                &&& -EXPONENT_BOUND <= e <= EXPONENT_BOUND ==> r->0 == e
                &&& e > EXPONENT_BOUND ==> r->0 == EXPONENT_BOUND + 1
                &&& e < -EXPONENT_BOUND ==> r->0 == -EXPONENT_BOUND - 1
            },
            None => r is None,
        },
{
    let negative = v.len() > 0 && v[0] == '-';
    let signed = v.len() > 0 && (v[0] == '-' || v[0] == '+');
    let body = if signed {
        slice_subrange(v, 1, v.len())
    } else {
        v
    };
    if body.len() == 0 || !only_digits(body) {
        return None;
    }
    let n = value_up_to(body, EXPONENT_BOUND as u128);
    if negative {
        Some(-(n as i128))
    } else {
        Some(n as i128)
    }
}

/// The index of the first `e` or `E` in `v`, or the length of `v`.
fn find_exponent_mark(v: &[char]) -> (j: usize)
    ensures
        j == exponent_mark(v@),
        j <= v.len(),
{
    let mut j: usize = 0;
    while j < v.len() && v[j] != 'e' && v[j] != 'E'
        invariant
            j <= v.len(),
            forall|k: int| 0 <= k < j ==> v@[k] != 'e' && v@[k] != 'E',
        decreases v.len() - j,
    {
        j += 1;
    }
    proof {
        lemma_position(v@, 'e');
        lemma_position(v@, 'E');
    }
    j
}

impl Float {
    /// Parses a floating-point literal.
    pub fn parse(v: &[char]) -> (r: Option<Float>)
        ensures
            match float_literal(v@) {
                Some(m) => r is Some && r->0@ == m && normal(m),
                None => r is None,
            },
    {
        let negative = v.len() > 0 && v[0] == '-';
        let signed = v.len() > 0 && (v[0] == '-' || v[0] == '+');
        let body = if signed {
            slice_subrange(v, 1, v.len())
        } else {
            v
        };
        let inf = chars_of("inf");
        let infinity = chars_of("infinity");
        let nan = chars_of("nan");
        proof {
            reveal_strlit("inf");
            reveal_strlit("infinity");
            reveal_strlit("nan");
            assert(inf@ =~= seq!['i', 'n', 'f']);
            assert(infinity@ =~= seq!['i', 'n', 'f', 'i', 'n', 'i', 't', 'y']);
            assert(nan@ =~= seq!['n', 'a', 'n']);
        }
        if spells(body, inf.as_slice()) || spells(body, infinity.as_slice()) {
            return Some(Float { kind: Kind::Infinite, negative, digits: Vec::new(), point: 0 });
        }
        if spells(body, nan.as_slice()) {
            return Some(Float { kind: Kind::NaN, negative: false, digits: Vec::new(), point: 0 });
        }
        Float::parse_number(negative, body)
    }

    /// Parses a number in decimal notation, the sign apart.
    fn parse_number(negative: bool, body: &[char]) -> (r: Option<Float>)
        ensures
            match number_literal(negative, body@) {
                Some(m) => r is Some && r->0@ == m && normal(m),
                None => r is None,
            },
    {
        let m = find_exponent_mark(body);
        let mantissa = slice_subrange(body, 0, m);
        let exponent = if m < body.len() {
            exponent_of(slice_subrange(body, m + 1, body.len()))
        } else {
            Some(0)
        };
        let ghost written = if m < body.len() {
            signed_value(body@.skip(m + 1))
        } else {
            Some(0int)
        };
        assert(mantissa@ == body@.take(m as int));
        assert(mantissa@.skip(0) == mantissa@);
        let dot = find_from(mantissa, '.', 0);
        let whole = slice_subrange(mantissa, 0, dot);
        let fraction = if dot < mantissa.len() {
            slice_subrange(mantissa, dot + 1, mantissa.len())
        } else {
            slice_subrange(mantissa, dot, dot)
        };
        assert(whole@ == mantissa@.take(dot as int));
        assert(fraction@ == if dot < mantissa@.len() {
            mantissa@.skip(dot + 1)
        } else {
            Seq::empty()
        });
        let well_formed = only_digits(whole) && only_digits(fraction) && !(whole.len() == 0
            && fraction.len() == 0);
        assert(number_literal(negative, body@) == if written is None || !well_formed {
            None
        } else {
            Some(normalize(negative, whole@ + fraction@, whole@.len() + written->0))
        });
        match exponent {
            Some(e) if well_formed => {
                let mut digits: Vec<char> = Vec::new();
                append(&mut digits, whole);
                append(&mut digits, fraction);
                assert(digits@ == whole@ + fraction@);
                let point = whole.len() as i128 + e;
                proof {
                    lemma_normalize_beyond(
                        negative,
                        digits@,
                        point as int,
                        whole@.len() + written->0,
                    );
                }
                Some(Float::normalized(negative, digits.as_slice(), point))
            },
            _ => None,
        }
    }

    /// The text of the value.
    pub fn render(&self) -> (v: Vec<char>)
        ensures
            v@ == float_text(self@),
    {
        proof {
            use_type_invariant(self);
        }
        let mut v: Vec<char> = Vec::new();
        match self.kind {
            Kind::NaN => {
                v.push('N');
                v.push('a');
                v.push('N');
                assert(v@ =~= seq!['N', 'a', 'N']);
            },
            Kind::Infinite => {
                if self.negative {
                    v.push('-');
                }
                v.push('i');
                v.push('n');
                v.push('f');
                assert(v@ =~= float_text(self@));
            },
            Kind::Finite => {
                if self.negative {
                    v.push('-');
                }
                let ghost sign = v@;
                let n = self.digits.len();
                if n == 0 {
                    v.push('0');
                } else if self.point <= 0 {
                    v.push('0');
                    v.push('.');
                    push_zeros(&mut v, (-self.point) as usize);
                    append(&mut v, self.digits.as_slice());
                } else if self.point as usize >= n {
                    append(&mut v, self.digits.as_slice());
                    push_zeros(&mut v, self.point as usize - n);
                } else {
                    append(&mut v, slice_subrange(self.digits.as_slice(), 0, self.point as usize));
                    v.push('.');
                    append(&mut v, slice_subrange(self.digits.as_slice(), self.point as usize, n));
                }
                assert(v@ =~= sign + plain_digits(self.digits@, self.point as int));
                assert(v@ =~= float_text(self@));
            },
        }
        v
    }

    /// The order of two values: none where one of them is `NaN`.
    pub fn order(&self, other: &Float) -> (r: Option<Order>)
        ensures
            r == float_order(self@, other@),
    {
        proof {
            use_type_invariant(self);
            use_type_invariant(other);
        }
        if self.kind == Kind::NaN || other.kind == Kind::NaN {
            return None;
        }
        let a = self.sign();
        let b = other.sign();
        if a != b {
            return Some(compare_int(a as i32, b as i32));
        }
        if a == 0 {
            return Some(Order::Equal);
        }
        let size = if self.kind == Kind::Infinite {
            if other.kind == Kind::Infinite {
                Order::Equal
            } else {
                Order::Greater
            }
        } else if other.kind == Kind::Infinite {
            Order::Less
        } else if self.point != other.point {
            compare_int(self.point, other.point)
        } else {
            compare_text(self.digits.as_slice(), other.digits.as_slice())
        };
        if a > 0 {
            Some(size)
        } else {
            Some(size.reversed())
        }
    }

    /// Whether the value has no fractional part.
    pub fn whole(&self) -> (r: bool)
        ensures
            r == is_whole(self@),
    {
        proof {
            use_type_invariant(self);
        }
        match self.kind {
            Kind::NaN => false,
            Kind::Infinite => true,
            Kind::Finite => self.point >= 0 && self.digits.len() <= self.point as usize,
        }
    }

    /// The digits before the decimal point of a finite value.
    fn whole_part(&self) -> (whole: Vec<char>)
        requires
            self@ is Finite,
        ensures
            whole@ == whole_digits(self@->Finite_digits, self@->Finite_point),
            all_digits(whole@),
    {
        proof {
            use_type_invariant(self);
        }
        let mut whole: Vec<char> = Vec::new();
        let n = self.digits.len();
        if self.point <= 0 {
        } else if self.point as usize >= n {
            append(&mut whole, self.digits.as_slice());
            push_zeros(&mut whole, self.point as usize - n);
        } else {
            append(&mut whole, slice_subrange(self.digits.as_slice(), 0, self.point as usize));
        }
        assert(whole@ =~= whole_digits(self.digits@, self.point as int));
        whole
    }

    /// The value cut off at the decimal point, as an unsigned 32-bit integer.
    pub fn truncate_unsigned(&self) -> (r: u32)
        ensures
            r == truncated_unsigned(self@),
    {
        match self.kind {
            Kind::NaN => 0,
            Kind::Infinite => if self.negative {
                0
            } else {
                u32::MAX
            },
            Kind::Finite => {
                let whole = self.whole_part();
                let size = value_up_to(whole.as_slice(), 0xffff_ffff);
                if self.negative {
                    0
                } else if size > 0xffff_ffff {
                    u32::MAX
                } else {
                    size as u32
                }
            },
        }
    }

    /// The value cut off at the decimal point, as a 32-bit integer.
    pub fn truncate(&self) -> (r: i32)
        ensures
            r == truncated(self@),
    {
        proof {
            use_type_invariant(self);
        }
        match self.kind {
            Kind::NaN => 0,
            Kind::Infinite => if self.negative {
                i32::MIN
            } else {
                i32::MAX
            },
            Kind::Finite => {
                let whole = self.whole_part();
                let size = value_up_to(whole.as_slice(), 0x8000_0000);
                if self.negative {
                    if size > 0x8000_0000 {
                        i32::MIN
                    } else if size == 0x8000_0000 {
                        i32::MIN
                    } else {
                        -(size as i32)
                    }
                } else {
                    if size > 0x7fff_ffff {
                        i32::MAX
                    } else {
                        size as i32
                    }
                }
            },
        }
    }

    /// Whether the two values are one number: `NaN` is none.
    pub fn same_number(&self, other: &Float) -> (r: bool)
        ensures
            r == (float_order(self@, other@) == Some(Order::Equal)),
    {
        match self.order(other) {
            Some(Order::Equal) => true,
            _ => false,
        }
    }

    /// -1, 0 or 1 as the value is below, at or above zero; 0 for `NaN`.
    fn sign(&self) -> (r: i8)
        ensures
            r == signum(self@),
    {
        proof {
            use_type_invariant(self);
        }
        match self.kind {
            Kind::NaN => 0,
            Kind::Infinite => if self.negative {
                -1
            } else {
                1
            },
            Kind::Finite => if self.digits.len() == 0 {
                0
            } else if self.negative {
                -1
            } else {
                1
            },
        }
    }
}

/// Appends `n` zeros to `out`.
fn push_zeros(out: &mut Vec<char>, n: usize)
    ensures
        final(out)@ == old(out)@ + zeros(n as nat),
{
    let mut i: usize = 0;
    assert(out@ =~= old(out)@ + zeros(0));
    while i < n
        invariant
            i <= n,
            out@ == old(out)@ + zeros(i as nat),
        decreases n - i,
    {
        out.push('0');
        i += 1;
        assert(out@ =~= old(out)@ + zeros(i as nat));
    }
}

} // verus!
