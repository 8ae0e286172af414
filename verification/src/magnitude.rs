//! The numbers that floating-point values stand for: the order of values is the order
//! of those numbers.
//!
//! A finite value with the digits `d` and the point at `p` stands for the number that
//! `d` writes times ten to the power `p` less the number of its digits. Times a power
//! of ten that is large enough, that is an integer, and the integers of two values
//! compare as the values do.

use crate::float::{
    float_of_int, float_order, leading_zeros, lemma_leading_zeros, lemma_trailing_zeros, normal,
    normalize, significant, trailing_zeros, zeros, FloatModel, MAX_POINT, MIN_POINT,
};
use crate::number::{all_digits, digit, digits_value, is_digit, lemma_nat_text, nat_text};
use crate::order::{
    int_order, lemma_text_order_reverse, lemma_text_order_same, text_order, Order,
};
use vstd::prelude::*;

verus! {

/// Ten to the power `n`.
pub open spec fn pow10(n: nat) -> nat
    decreases n,
{
    if n == 0 {
        1
    } else {
        10 * pow10((n - 1) as nat)
    }
}

/// The number that the digits `digits` with the point at `point` stand for, times ten
/// to the power `shift`.
pub open spec fn scaled(digits: Seq<char>, point: int, shift: int) -> nat {
    digits_value(digits) * pow10((shift + point - digits.len()) as nat)
}

/// The number that a finite value stands for, times ten to the power `shift`.
pub open spec fn number_times(m: FloatModel, shift: int) -> int {
    match m {
        FloatModel::Finite { negative, digits, point } => if negative {
            -(scaled(digits, point, shift) as int)
        } else {
            scaled(digits, point, shift) as int
        },
        _ => 0,
    }
}

/// Whether `shift` is large enough to make an integer of the number of `m`.
pub open spec fn whole_at(m: FloatModel, shift: int) -> bool {
    match m {
        FloatModel::Finite { digits, point, .. } => shift + point - digits.len() >= 0,
        _ => false,
    }
}

/// A power of ten is above zero.
pub proof fn lemma_pow10_positive(n: nat)
    ensures
        pow10(n) > 0,
    decreases n,
{
    if n > 0 {
        lemma_pow10_positive((n - 1) as nat);
    }
}

/// Ten to the sum of two powers is the product of ten to each.
pub proof fn lemma_pow10_add(a: nat, b: nat)
    ensures
        pow10(a + b) == pow10(a) * pow10(b),
    decreases a,
{
    if a == 0 {
        assert(pow10(0) == 1);
        assert(a + b == b);
        assert(1 * pow10(b) == pow10(b));
    } else {
        lemma_pow10_add((a - 1) as nat, b);
        assert(pow10(a + b) == 10 * pow10((a - 1 + b) as nat));
        assert(10 * (pow10((a - 1) as nat) * pow10(b)) == (10 * pow10((a - 1) as nat)) * pow10(b))
            by (nonlinear_arith);
    }
}

/// The powers of ten grow with the power.
pub proof fn lemma_pow10_grows(a: nat, b: nat)
    requires
        a <= b,
    ensures
        pow10(a) <= pow10(b),
{
    lemma_pow10_add(a, (b - a) as nat);
    lemma_pow10_positive((b - a) as nat);
    lemma_pow10_positive(a);
    let x = pow10(a);
    let y = pow10((b - a) as nat);
    assert(x <= x * y) by (nonlinear_arith)
        requires
            x > 0,
            y > 0,
    ;
}

/// The value of digits is that of the first digit at its place and that of the rest.
pub proof fn lemma_digits_value_front(s: Seq<char>)
    requires
        s.len() > 0,
    ensures
        digits_value(s) == digit(s[0]) * pow10((s.len() - 1) as nat) + digits_value(
            s.drop_first(),
        ),
    decreases s.len(),
{
    if s.len() == 1 {
        assert(s.drop_last() == Seq::<char>::empty());
        assert(s.drop_first() == Seq::<char>::empty());
        assert(digits_value(Seq::<char>::empty()) == 0);
        assert(pow10(0) == 1);
        assert(s.last() == s[0]);
        assert(digit(s[0]) * 1 == digit(s[0]));
        assert(digits_value(s) == 0 * 10 + digit(s[0]));
    } else {
        let head = s.drop_last();
        lemma_digits_value_front(head);
        assert(head[0] == s[0]);
        assert(s.drop_first().drop_last() == head.drop_first());
        assert(s.drop_first().last() == s.last());
        let d = digit(s[0]);
        let p = pow10((s.len() - 2) as nat);
        let m = digits_value(head.drop_first());
        let l = digit(s.last());
        assert((d * p + m) * 10 + l == d * (10 * p) + (m * 10 + l)) by (nonlinear_arith);
        assert(pow10((s.len() - 1) as nat) == 10 * p);
        assert(digits_value(s) == digits_value(head) * 10 + l);
        assert(digits_value(s.drop_first()) == m * 10 + l);
    }
}

/// The value of `n` digits is below ten to the power `n`, and from ten to the power
/// `n` less one on where the first digit is no zero.
pub proof fn lemma_digits_value_bounds(s: Seq<char>)
    requires
        all_digits(s),
    ensures
        digits_value(s) < pow10(s.len()),
        s.len() > 0 && s[0] != '0' ==> digits_value(s) >= pow10((s.len() - 1) as nat),
    decreases s.len(),
{
    if s.len() > 0 {
        let head = s.drop_last();
        lemma_digits_value_bounds(head);
        assert(is_digit(s.last()));
        if s.len() > 1 {
            assert(head[0] == s[0]);
        } else {
            assert(digits_value(head) == 0);
        }
    }
}

/// The value of digits followed by `k` zeros is ten to the power `k` times theirs.
pub proof fn lemma_digits_value_zeros(s: Seq<char>, k: nat)
    ensures
        digits_value(s + zeros(k)) == digits_value(s) * pow10(k),
    decreases k,
{
    if k == 0 {
        assert(s + zeros(0) == s);
        assert(pow10(0) == 1);
        assert(digits_value(s) * 1 == digits_value(s));
    } else {
        lemma_digits_value_zeros(s, (k - 1) as nat);
        assert((s + zeros(k)).drop_last() == s + zeros((k - 1) as nat));
        assert((s + zeros(k)).last() == '0');
        let v = digits_value(s);
        let p = pow10((k - 1) as nat);
        assert((v * p) * 10 + 0 == v * (10 * p)) by (nonlinear_arith);
    }
}

/// Zeros in front of digits do not change their value.
pub proof fn lemma_digits_value_leading(s: Seq<char>, k: nat)
    requires
        k <= s.len(),
        forall|i: int| 0 <= i < k ==> s[i] == '0',
    ensures
        digits_value(s.skip(k as int)) == digits_value(s),
    decreases k,
{
    if k == 0 {
        assert(s.skip(0) == s);
    } else {
        lemma_digits_value_front(s);
        assert forall|i: int| 0 <= i < k - 1 implies s.drop_first()[i] == '0' by {
            assert(s.drop_first()[i] == s[i + 1]);
        }
        lemma_digits_value_leading(s.drop_first(), (k - 1) as nat);
        assert(s.drop_first().skip(k - 1) == s.skip(k as int));
        assert(digit('0') == 0);
        assert(0 * pow10((s.len() - 1) as nat) == 0);
    }
}

/// Digits of one length compare as their values do.
pub proof fn lemma_order_of_equal_length(x: Seq<char>, y: Seq<char>)
    requires
        all_digits(x),
        all_digits(y),
        x.len() == y.len(),
    ensures
        text_order(x, y) == int_order(digits_value(x) as int, digits_value(y) as int),
    decreases x.len(),
{
    if x.len() == 0 {
    } else {
        lemma_digits_value_front(x);
        lemma_digits_value_front(y);
        let xt = x.drop_first();
        let yt = y.drop_first();
        assert(all_digits(xt)) by {
            assert forall|i: int| 0 <= i < xt.len() implies is_digit(#[trigger] xt[i]) by {
                assert(xt[i] == x[i + 1]);
            }
        }
        assert(all_digits(yt)) by {
            assert forall|i: int| 0 <= i < yt.len() implies is_digit(#[trigger] yt[i]) by {
                assert(yt[i] == y[i + 1]);
            }
        }
        lemma_digits_value_bounds(xt);
        lemma_digits_value_bounds(yt);
        assert(is_digit(x[0]) && is_digit(y[0]));
        let p = pow10((x.len() - 1) as nat);
        let a = digit(x[0]);
        let b = digit(y[0]);
        if x[0] == y[0] {
            lemma_order_of_equal_length(xt, yt);
        } else if x[0] < y[0] {
            assert(a * p + p <= b * p) by (nonlinear_arith)
                requires
                    a + 1 <= b,
            ;
        } else {
            assert(b * p + p <= a * p) by (nonlinear_arith)
                requires
                    b + 1 <= a,
            ;
        }
    }
}

/// Whether `s` is empty or ends with a digit that is no zero.
pub open spec fn clean(s: Seq<char>) -> bool {
    all_digits(s) && (s.len() > 0 ==> s.last() != '0')
}

/// Zeros come before digits of their length that end with another digit.
pub proof fn lemma_zeros_first(y: Seq<char>, k: nat)
    requires
        clean(y),
        y.len() > 0,
    ensures
        text_order(zeros(y.len() + k), y + zeros(k)) == Order::Less,
    decreases y.len(),
{
    let x = zeros(y.len() + k);
    let padded = y + zeros(k);
    assert(x[0] == '0');
    assert(padded[0] == y[0]);
    assert(is_digit(y[0]));
    if y[0] == '0' {
        let rest = y.drop_first();
        assert(rest.len() > 0);
        assert(rest.last() == y.last());
        assert(all_digits(rest)) by {
            assert forall|i: int| 0 <= i < rest.len() implies is_digit(#[trigger] rest[i]) by {
                assert(rest[i] == y[i + 1]);
            }
        }
        lemma_zeros_first(rest, k);
        assert(x.drop_first() == zeros(rest.len() + k));
        assert(padded.drop_first() == rest + zeros(k));
    }
}

/// Digits that end with no zero compare as they do with zeros after them that make
/// them one length.
pub proof fn lemma_order_of_padded(x: Seq<char>, y: Seq<char>, kx: nat, ky: nat)
    requires
        clean(x),
        clean(y),
        x.len() + kx == y.len() + ky,
    ensures
        text_order(x, y) == text_order(x + zeros(kx), y + zeros(ky)),
    decreases x.len() + y.len(),
{
    let px = x + zeros(kx);
    let py = y + zeros(ky);
    if x.len() == 0 && y.len() == 0 {
        assert(px == py);
        lemma_text_order_same(px);
    } else if x.len() == 0 {
        lemma_zeros_first(y, ky);
        assert(px == zeros(y.len() + ky));
    } else if y.len() == 0 {
        lemma_zeros_first(x, kx);
        assert(py == zeros(x.len() + kx));
        lemma_text_order_reverse(py, px);
    } else {
        assert(px[0] == x[0] && py[0] == y[0]);
        if x[0] == y[0] {
            let xt = x.drop_first();
            let yt = y.drop_first();
            assert(clean(xt)) by {
                assert forall|i: int| 0 <= i < xt.len() implies is_digit(#[trigger] xt[i]) by {
                    assert(xt[i] == x[i + 1]);
                }
                if xt.len() > 0 {
                    assert(xt.last() == x.last());
                }
            }
            assert(clean(yt)) by {
                assert forall|i: int| 0 <= i < yt.len() implies is_digit(#[trigger] yt[i]) by {
                    assert(yt[i] == y[i + 1]);
                }
                if yt.len() > 0 {
                    assert(yt.last() == y.last());
                }
            }
            lemma_order_of_padded(xt, yt, kx, ky);
            assert(px.drop_first() == xt + zeros(kx));
            assert(py.drop_first() == yt + zeros(ky));
        }
    }
}

/// Whether the digits `x` with the point at `p` are those of a value in normal form
/// that is not zero.
pub open spec fn sized(x: Seq<char>, p: int) -> bool {
    normal(FloatModel::Finite { negative: false, digits: x, point: p }) && x.len() > 0
}

/// Of two sizes with the point at one place, the digits decide.
proof fn lemma_same_point(x: Seq<char>, y: Seq<char>, p: int, shift: int)
    requires
        sized(x, p),
        sized(y, p),
        shift + p - x.len() >= 0,
        shift + p - y.len() >= 0,
    ensures
        int_order(scaled(x, p, shift) as int, scaled(y, p, shift) as int) == text_order(x, y),
{
    let n = if x.len() >= y.len() {
        x.len()
    } else {
        y.len()
    };
    let kx = (n - x.len()) as nat;
    let ky = (n - y.len()) as nat;
    let c = (shift + p - n) as nat;
    lemma_order_of_padded(x, y, kx, ky);
    let px = x + zeros(kx);
    let py = y + zeros(ky);
    assert(all_digits(px) && all_digits(py));
    lemma_order_of_equal_length(px, py);
    lemma_digits_value_zeros(x, kx);
    lemma_digits_value_zeros(y, ky);
    lemma_pow10_add(kx, c);
    lemma_pow10_add(ky, c);
    lemma_pow10_positive(c);
    let a = digits_value(px);
    let b = digits_value(py);
    let f = pow10(c);
    assert(scaled(x, p, shift) == a * f) by {
        assert((digits_value(x) * pow10(kx)) * f == digits_value(x) * (pow10(kx) * f))
            by (nonlinear_arith);
    }
    assert(scaled(y, p, shift) == b * f) by {
        assert((digits_value(y) * pow10(ky)) * f == digits_value(y) * (pow10(ky) * f))
            by (nonlinear_arith);
    }
    assert(a < b ==> a * f < b * f) by (nonlinear_arith)
        requires
            f > 0,
    ;
    assert(a > b ==> a * f > b * f) by (nonlinear_arith)
        requires
            f > 0,
    ;
}

/// Of two sizes, the one with the point further left is the smaller.
proof fn lemma_lower_point(x: Seq<char>, px: int, y: Seq<char>, py: int, shift: int)
    requires
        sized(x, px),
        sized(y, py),
        px < py,
        shift + px - x.len() >= 0,
        shift + py - y.len() >= 0,
    ensures
        scaled(x, px, shift) < scaled(y, py, shift),
{
    lemma_digits_value_bounds(x);
    lemma_digits_value_bounds(y);
    let ex = (shift + px - x.len()) as nat;
    let ey = (shift + py - y.len()) as nat;
    lemma_pow10_add(x.len(), ex);
    lemma_pow10_add((y.len() - 1) as nat, ey);
    lemma_pow10_grows((shift + px) as nat, (shift + py - 1) as nat);
    lemma_pow10_positive(ex);
    lemma_pow10_positive(ey);
    let a = digits_value(x);
    let b = digits_value(y);
    let fx = pow10(ex);
    let fy = pow10(ey);
    let top = pow10(x.len());
    let low = pow10((y.len() - 1) as nat);
    assert(a * fx < top * fx) by (nonlinear_arith)
        requires
            a < top,
            fx > 0,
    ;
    assert(low * fy <= b * fy) by (nonlinear_arith)
        requires
            low <= b,
            fy > 0,
    ;
}

/// The order of two finite values in normal form is the order of the numbers that
/// they stand for.
pub proof fn law_order_is_numeric(a: FloatModel, b: FloatModel, shift: int)
    requires
        normal(a),
        normal(b),
        a is Finite,
        b is Finite,
        whole_at(a, shift),
        whole_at(b, shift),
    ensures
        float_order(a, b) == Some(int_order(number_times(a, shift), number_times(b, shift))),
{
    let x = a->Finite_digits;
    let y = b->Finite_digits;
    let px = a->Finite_point;
    let py = b->Finite_point;
    let vx = scaled(x, px, shift);
    let vy = scaled(y, py, shift);
    if x.len() == 0 {
        assert(digits_value(x) == 0);
        assert(vx == 0) by (nonlinear_arith)
            requires
                vx == 0 * pow10((shift + px - x.len()) as nat),
        ;
    } else {
        lemma_digits_value_bounds(x);
        lemma_pow10_positive((x.len() - 1) as nat);
        lemma_pow10_positive((shift + px - x.len()) as nat);
        let d = digits_value(x);
        let f = pow10((shift + px - x.len()) as nat);
        assert(d * f > 0) by (nonlinear_arith)
            requires
                d > 0,
                f > 0,
        ;
    }
    if y.len() == 0 {
        assert(digits_value(y) == 0);
        assert(vy == 0) by (nonlinear_arith)
            requires
                vy == 0 * pow10((shift + py - y.len()) as nat),
        ;
    } else {
        lemma_digits_value_bounds(y);
        lemma_pow10_positive((y.len() - 1) as nat);
        lemma_pow10_positive((shift + py - y.len()) as nat);
        let d = digits_value(y);
        let f = pow10((shift + py - y.len()) as nat);
        assert(d * f > 0) by (nonlinear_arith)
            requires
                d > 0,
                f > 0,
        ;
    }
    if x.len() > 0 && y.len() > 0 {
        if px < py {
            lemma_lower_point(x, px, y, py, shift);
        } else if py < px {
            lemma_lower_point(y, py, x, px, shift);
        } else {
            lemma_same_point(x, y, px, shift);
        }
    }
}

/// Taking the zeros off both ends of digits keeps the number that they stand for.
pub proof fn lemma_significant_number(digits: Seq<char>, point: int, shift: int)
    requires
        all_digits(digits),
        shift + point - digits.len() >= 0,
    ensures
        scaled(significant(digits), point - leading_zeros(digits), shift) == scaled(
            digits,
            point,
            shift,
        ),
{
    lemma_leading_zeros(digits);
    let k = leading_zeros(digits);
    let body = digits.skip(k as int);
    lemma_trailing_zeros(body);
    let t = trailing_zeros(body);
    let kept = significant(digits);
    lemma_digits_value_leading(digits, k);
    assert(body == kept + zeros(t)) by {
        assert(body =~= kept + zeros(t));
    }
    lemma_digits_value_zeros(kept, t);
    let e = (shift + point - digits.len()) as nat;
    lemma_pow10_add(t, e);
    assert((digits_value(kept) * pow10(t)) * pow10(e) == digits_value(kept) * (pow10(t) * pow10(
        e,
    ))) by (nonlinear_arith);
    assert(shift + (point - k) - kept.len() == t + e);
}

/// Within the range of the point, the value in normal form of digits stands for the
/// number that the digits stand for.
pub proof fn law_normal_form_keeps_the_number(
    negative: bool,
    digits: Seq<char>,
    point: int,
    shift: int,
)
    requires
        all_digits(digits),
        shift + point - digits.len() >= 0,
        MIN_POINT <= point - leading_zeros(digits) <= MAX_POINT,
    ensures
        normal(normalize(negative, digits, point)),
        normalize(negative, digits, point) is Finite,
        number_times(normalize(negative, digits, point), shift) == number_times(
            FloatModel::Finite { negative, digits, point },
            shift,
        ),
{
    lemma_leading_zeros(digits);
    lemma_trailing_zeros(digits.skip(leading_zeros(digits) as int));
    lemma_significant_number(digits, point, shift);
    let kept = significant(digits);
    if kept.len() == 0 {
        assert(digits_value(kept) == 0);
        assert(scaled(kept, point - leading_zeros(digits), shift) == 0) by (nonlinear_arith)
            requires
                scaled(kept, point - leading_zeros(digits), shift) == 0 * pow10(
                    (shift + (point - leading_zeros(digits)) - kept.len()) as nat,
                ),
        ;
        assert(scaled(kept, 0, shift) == 0) by (nonlinear_arith)
            requires
                scaled(kept, 0, shift) == 0 * pow10((shift + 0 - kept.len()) as nat),
        ;
    }
}

/// The float of an integer stands for that integer.
pub proof fn law_float_of_int_is_the_integer(n: int)
    requires
        i32::MIN <= n <= i32::MAX,
    ensures
        float_of_int(n) is Finite,
        normal(float_of_int(n)),
        whole_at(float_of_int(n), 0),
        number_times(float_of_int(n), 0) == n,
{
    let size = (if n < 0 {
        -n
    } else {
        n
    }) as nat;
    let text = nat_text(size);
    lemma_nat_text(size);
    lemma_nat_text_short(size);
    lemma_leading_zeros(text);
    lemma_trailing_zeros(text.skip(leading_zeros(text) as int));
    lemma_significant_number(text, text.len() as int, 0);
    assert(pow10(0) == 1);
    assert(scaled(text, text.len() as int, 0) == size) by (nonlinear_arith)
        requires
            scaled(text, text.len() as int, 0) == digits_value(text) * 1,
            digits_value(text) == size,
    ;
    let kept = significant(text);
    if kept.len() == 0 {
        assert(digits_value(kept) == 0);
        assert(scaled(kept, text.len() - leading_zeros(text), 0) == 0) by (nonlinear_arith)
            requires
                scaled(kept, text.len() - leading_zeros(text), 0) == 0 * pow10(
                    (0 + (text.len() - leading_zeros(text)) - kept.len()) as nat,
                ),
        ;
        assert(pow10(0) == 1);
        assert(scaled(kept, 0, 0) == 0) by (nonlinear_arith)
            requires
                scaled(kept, 0, 0) == 0 * pow10(0),
        ;
    }
}

/// The text of a number below ten to the power ten has at most ten digits.
pub proof fn lemma_nat_text_short(n: nat)
    requires
        n <= 0x8000_0000,
    ensures
        nat_text(n).len() <= 10,
{
    reveal_with_fuel(nat_text, 11);
}

} // verus!
