//! Equality and order of values.
//!
//! Values of one kind compare as that kind does. An integer and a float compare by
//! their numeric value. Two lists are equal where they have one length and equal items;
//! they are ordered by length and, at one length, by the first pair of items that an
//! order tells apart. Every other pair is unequal and has no order.

use crate::float::{float_of_int, float_order, Float};
use crate::order::{compare_int, compare_text, int_order, text_order, Order};
use crate::text::chars_of;
use crate::value::{lemma_values_model, values_model, Value, ValueModel};
use vstd::prelude::*;

verus! {

/// Whether two values are equal.
pub open spec fn equals(a: ValueModel, b: ValueModel) -> bool
    decreases a, 1int,
{
    match (a, b) {
        (ValueModel::Int(x), ValueModel::Int(y)) => x == y,
        (ValueModel::Float(x), ValueModel::Float(y)) => float_order(x, y) == Some(Order::Equal),
        (ValueModel::Str(x), ValueModel::Str(y)) => x == y,
        (ValueModel::Bool(x), ValueModel::Bool(y)) => x == y,
        (ValueModel::List(x), ValueModel::List(y)) => x.len() == y.len() && all_equal(x, y),
        (ValueModel::Null, ValueModel::Null) => true,
        (ValueModel::Undefined, ValueModel::Undefined) => true,
        (ValueModel::Int(x), ValueModel::Float(y)) => float_order(float_of_int(x), y) == Some(
            Order::Equal,
        ),
        (ValueModel::Float(x), ValueModel::Int(y)) => float_order(x, float_of_int(y)) == Some(
            Order::Equal,
        ),
        _ => false,
    }
}

/// Whether the items of `a` and `b` are equal pair by pair, as far as both reach.
pub open spec fn all_equal(a: Seq<ValueModel>, b: Seq<ValueModel>) -> bool
    decreases a, 0int,
{
    if a.len() == 0 || b.len() == 0 {
        true
    } else {
        equals(a[0], b[0]) && all_equal(a.drop_first(), b.drop_first())
    }
}

/// The order of two values, where they have one.
pub open spec fn order(a: ValueModel, b: ValueModel) -> Option<Order>
    decreases a, 1int,
{
    match (a, b) {
        (ValueModel::Int(x), ValueModel::Int(y)) => Some(int_order(x, y)),
        (ValueModel::Float(x), ValueModel::Float(y)) => float_order(x, y),
        (ValueModel::Str(x), ValueModel::Str(y)) => Some(text_order(x, y)),
        (ValueModel::Bool(x), ValueModel::Bool(y)) => Some(
            int_order(if x { 1 } else { 0 }, if y { 1 } else { 0 }),
        ),
        (ValueModel::Int(x), ValueModel::Float(y)) => float_order(float_of_int(x), y),
        (ValueModel::Float(x), ValueModel::Int(y)) => float_order(x, float_of_int(y)),
        (ValueModel::List(x), ValueModel::List(y)) => if x.len() != y.len() {
            Some(int_order(x.len() as int, y.len() as int))
        } else {
            Some(first_difference(x, y))
        },
        _ => None,
    }
}

/// The order of the first pair of items that has an order other than equality;
/// equality where there is no such pair.
pub open spec fn first_difference(a: Seq<ValueModel>, b: Seq<ValueModel>) -> Order
    decreases a, 0int,
{
    if a.len() == 0 || b.len() == 0 {
        Order::Equal
    } else {
        match order(a[0], b[0]) {
            Some(Order::Less) => Order::Less,
            Some(Order::Greater) => Order::Greater,
            _ => first_difference(a.drop_first(), b.drop_first()),
        }
    }
}

/// Whether the items of two vectors are equal pair by pair, as far as both reach.
fn equal_items(a: &Vec<Value>, b: &Vec<Value>) -> (r: bool)
    ensures
        r == all_equal(values_model(a@), values_model(b@)),
    decreases a,
{
    let ghost ma = values_model(a@);
    let ghost mb = values_model(b@);
    proof {
        lemma_values_model(a@);
        lemma_values_model(b@);
        assert(ma.skip(0) == ma && mb.skip(0) == mb);
    }
    let mut i: usize = 0;
    while i < a.len() && i < b.len()
        invariant
            i <= a.len(),
            i <= b.len(),
            ma == values_model(a@),
            mb == values_model(b@),
            ma.len() == a.len(),
            mb.len() == b.len(),
            forall|k: int| 0 <= k < a.len() ==> ma[k] == #[trigger] a@[k]@,
            forall|k: int| 0 <= k < b.len() ==> mb[k] == #[trigger] b@[k]@,
            all_equal(ma, mb) == all_equal(ma.skip(i as int), mb.skip(i as int)),
        decreases a.len() - i,
    {
        assert(ma.skip(i as int).drop_first() == ma.skip(i + 1));
        assert(mb.skip(i as int).drop_first() == mb.skip(i + 1));
        assert(ma.skip(i as int)[0] == a@[i as int]@);
        assert(mb.skip(i as int)[0] == b@[i as int]@);
        if !a[i].compare_equals(&b[i]) {
            return false;
        }
        i += 1;
    }
    true
}

/// The order of the first pair of items that has an order other than equality.
fn first_differing(a: &Vec<Value>, b: &Vec<Value>) -> (r: Order)
    ensures
        r == first_difference(values_model(a@), values_model(b@)),
    decreases a,
{
    let ghost ma = values_model(a@);
    let ghost mb = values_model(b@);
    proof {
        lemma_values_model(a@);
        lemma_values_model(b@);
        assert(ma.skip(0) == ma && mb.skip(0) == mb);
    }
    let mut i: usize = 0;
    while i < a.len() && i < b.len()
        invariant
            i <= a.len(),
            i <= b.len(),
            ma == values_model(a@),
            mb == values_model(b@),
            ma.len() == a.len(),
            mb.len() == b.len(),
            forall|k: int| 0 <= k < a.len() ==> ma[k] == #[trigger] a@[k]@,
            forall|k: int| 0 <= k < b.len() ==> mb[k] == #[trigger] b@[k]@,
            first_difference(ma, mb) == first_difference(ma.skip(i as int), mb.skip(i as int)),
        decreases a.len() - i,
    {
        assert(ma.skip(i as int).drop_first() == ma.skip(i + 1));
        assert(mb.skip(i as int).drop_first() == mb.skip(i + 1));
        assert(ma.skip(i as int)[0] == a@[i as int]@);
        assert(mb.skip(i as int)[0] == b@[i as int]@);
        match a[i].compare_order(&b[i]) {
            Some(Order::Less) => {
                return Order::Less;
            },
            Some(Order::Greater) => {
                return Order::Greater;
            },
            _ => {},
        }
        i += 1;
    }
    Order::Equal
}

impl Value {
    /// Whether `self` and `other` are equal.
    pub fn compare_equals(&self, other: &Value) -> (r: bool)
        ensures
            r == equals(self@, other@),
        decreases self,
    {
        match (self, other) {
            (Value::Int(x), Value::Int(y)) => *x == *y,
            (Value::Float(x), Value::Float(y)) => x.same_number(y),
            (Value::Str(x), Value::Str(y)) => *x == *y,
            (Value::Bool(x), Value::Bool(y)) => *x == *y,
            (Value::List(x), Value::List(y)) => {
                proof {
                    lemma_values_model(x@);
                    lemma_values_model(y@);
                }
                x.len() == y.len() && equal_items(x, y)
            },
            (Value::Null, Value::Null) => true,
            (Value::Undefined, Value::Undefined) => true,
            (Value::Int(x), Value::Float(y)) => Float::from_int(*x).same_number(y),
            (Value::Float(x), Value::Int(y)) => x.same_number(&Float::from_int(*y)),
            _ => false,
        }
    }

    /// The order of `self` and `other`, where they have one.
    pub fn compare_order(&self, other: &Value) -> (r: Option<Order>)
        ensures
            r == order(self@, other@),
        decreases self,
    {
        match (self, other) {
            (Value::Int(x), Value::Int(y)) => Some(compare_int(*x, *y)),
            (Value::Float(x), Value::Float(y)) => x.order(y),
            (Value::Str(x), Value::Str(y)) => {
                let a = chars_of(x.as_str());
                let b = chars_of(y.as_str());
                Some(compare_text(a.as_slice(), b.as_slice()))
            },
            (Value::Bool(x), Value::Bool(y)) => Some(
                compare_int(if *x { 1 } else { 0 }, if *y { 1 } else { 0 }),
            ),
            (Value::Int(x), Value::Float(y)) => Float::from_int(*x).order(y),
            (Value::Float(x), Value::Int(y)) => x.order(&Float::from_int(*y)),
            (Value::List(x), Value::List(y)) => {
                proof {
                    lemma_values_model(x@);
                    lemma_values_model(y@);
                }
                if x.len() != y.len() {
                    Some(if x.len() < y.len() { Order::Less } else { Order::Greater })
                } else {
                    Some(first_differing(x, y))
                }
            },
            _ => None,
        }
    }
}

} // verus!
