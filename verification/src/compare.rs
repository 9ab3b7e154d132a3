//! Equality and order of runtime values with the operators `==` and `<`.
//!
//! Values of one kind are compared by what they hold, values of different
//! kinds by the order of the kinds. Two closures are equal when they agree in
//! the number of parameters and of statements in the body, and no closure is
//! less or greater than another.

use crate::ast::lemma_block_view;
use crate::evaluator::{object_eq, object_lt};
use crate::object::{Function, Object, ObjectView};
use crate::semantics::{same_value, value_before};
use core::cmp::Ordering;
use vstd::prelude::*;
use vstd::std_specs::cmp::{PartialEqSpecImpl, PartialOrdSpecImpl};

verus! {

/// Whether two values cannot be ordered: two closures, or two return signals
/// that carry values that cannot be ordered.
pub open spec fn unordered(a: ObjectView, b: ObjectView) -> bool
    decreases a,
{
    match (a, b) {
        (ObjectView::Function(_), ObjectView::Function(_)) => true,
        (ObjectView::ReturnValue(x), ObjectView::ReturnValue(y)) => unordered(*x, *y),
        _ => false,
    }
}

/// The order of two values: none where they cannot be ordered, else less,
/// greater or equal by the structural order.
pub open spec fn value_order(a: ObjectView, b: ObjectView) -> Option<Ordering> {
    if unordered(a, b) {
        None
    } else if value_before(a, b) {
        Some(Ordering::Less)
    } else if value_before(b, a) {
        Some(Ordering::Greater)
    } else {
        Some(Ordering::Equal)
    }
}

fn is_unordered(a: &Object, b: &Object) -> (r: bool)
    ensures
        r == unordered(a@, b@),
    decreases a,
{
    match (a, b) {
        (Object::Function(_), Object::Function(_)) => true,
        (Object::ReturnValue(x), Object::ReturnValue(y)) => is_unordered(&**x, &**y),
        _ => false,
    }
}

impl PartialEq for Function {
    fn eq(&self, other: &Self) -> (r: bool) {
        proof {
            lemma_block_view(&self.body);
            lemma_block_view(&other.body);
        }
        self.parameters.len() == other.parameters.len() && self.body.statements.len()
            == other.body.statements.len()
    }
}

impl PartialEqSpecImpl for Function {
    open spec fn obeys_eq_spec() -> bool {
        true
    }

    open spec fn eq_spec(&self, other: &Self) -> bool {
        self@.parameters.len() == other@.parameters.len() && self@.body.statements.len()
            == other@.body.statements.len()
    }
}

impl PartialOrd for Function {
    fn partial_cmp(&self, other: &Self) -> (r: Option<Ordering>) {
        None
    }
}

impl PartialOrdSpecImpl for Function {
    open spec fn obeys_partial_cmp_spec() -> bool {
        true
    }

    open spec fn partial_cmp_spec(&self, other: &Self) -> Option<Ordering> {
        None
    }
}

impl PartialEq for Object {
    fn eq(&self, other: &Self) -> (r: bool) {
        object_eq(self, other)
    }
}

impl PartialEqSpecImpl for Object {
    open spec fn obeys_eq_spec() -> bool {
        true
    }

    open spec fn eq_spec(&self, other: &Self) -> bool {
        same_value(self@, other@)
    }
}

impl PartialOrd for Object {
    fn partial_cmp(&self, other: &Self) -> (r: Option<Ordering>) {
        if is_unordered(self, other) {
            None
        } else if object_lt(self, other) {
            Some(Ordering::Less)
        } else if object_lt(other, self) {
            Some(Ordering::Greater)
        } else {
            Some(Ordering::Equal)
        }
    }
}

impl PartialOrdSpecImpl for Object {
    open spec fn obeys_partial_cmp_spec() -> bool {
        true
    }

    open spec fn partial_cmp_spec(&self, other: &Self) -> Option<Ordering> {
        value_order(self@, other@)
    }
}

} // verus!
