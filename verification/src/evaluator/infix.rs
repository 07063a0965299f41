//! Binary operators.

use vstd::prelude::*;
use vstd::wrapping::i64_specs::{wrapping_add, wrapping_mul, wrapping_sub};
use crate::evaluator::env::Environment;
use crate::evaluator::object::{Object, ObjectView};
use crate::evaluator::{eval_expression, outcome, result_view, semantics, EvaluationError};
use crate::parser::ast::{Expression, InfixOperation};

verus! {

/// The sum of two integers, wrapping around.
fn sum(a: &Object, b: &Object) -> (result: Option<Object>)
    ensures
        match (a@, b@) {
            (ObjectView::Integer(x), ObjectView::Integer(y)) => result matches Some(value)
                && value@ == ObjectView::Integer(wrapping_add(x, y)),
            _ => result is None,
        },
{
    match (a, b) {
        (Object::Integer(a), Object::Integer(b)) => {
            let a = *a;
            let b = *b;
            Some(Object::Integer(a.wrapping_add(b)))
        },
        _ => None,
    }
}

/// The difference of two integers, wrapping around.
fn subtraction(a: &Object, b: &Object) -> (result: Option<Object>)
    ensures
        match (a@, b@) {
            (ObjectView::Integer(x), ObjectView::Integer(y)) => result matches Some(value)
                && value@ == ObjectView::Integer(wrapping_sub(x, y)),
            _ => result is None,
        },
{
    match (a, b) {
        (Object::Integer(a), Object::Integer(b)) => {
            let a = *a;
            let b = *b;
            Some(Object::Integer(a.wrapping_sub(b)))
        },
        _ => None,
    }
}

/// The product of two integers, wrapping around.
fn product(a: &Object, b: &Object) -> (result: Option<Object>)
    ensures
        match (a@, b@) {
            (ObjectView::Integer(x), ObjectView::Integer(y)) => result matches Some(value)
                && value@ == ObjectView::Integer(wrapping_mul(x, y)),
            _ => result is None,
        },
{
    match (a, b) {
        (Object::Integer(a), Object::Integer(b)) => {
            let a = *a;
            let b = *b;
            Some(Object::Integer(a.wrapping_mul(b)))
        },
        _ => None,
    }
}

/// Whether one integer is less than another.
fn less_than(a: &Object, b: &Object) -> (result: Option<Object>)
    ensures
        match (a@, b@) {
            (ObjectView::Integer(x), ObjectView::Integer(y)) => result matches Some(value)
                && value@ == ObjectView::Bool(x < y),
            _ => result is None,
        },
{
    match (a, b) {
        (Object::Integer(a), Object::Integer(b)) => {
            let a = *a;
            let b = *b;
            Some(Object::Bool(a < b))
        },
        _ => None,
    }
}

/// Whether one integer is greater than another.
fn greater_than(a: &Object, b: &Object) -> (result: Option<Object>)
    ensures
        match (a@, b@) {
            (ObjectView::Integer(x), ObjectView::Integer(y)) => result matches Some(value)
                && value@ == ObjectView::Bool(x > y),
            _ => result is None,
        },
{
    match (a, b) {
        (Object::Integer(a), Object::Integer(b)) => {
            let a = *a;
            let b = *b;
            Some(Object::Bool(a > b))
        },
        _ => None,
    }
}

/// Whether one integer is at most another.
fn less_than_equal(a: &Object, b: &Object) -> (result: Option<Object>)
    ensures
        match (a@, b@) {
            (ObjectView::Integer(x), ObjectView::Integer(y)) => result matches Some(value)
                && value@ == ObjectView::Bool(x <= y),
            _ => result is None,
        },
{
    match (a, b) {
        (Object::Integer(a), Object::Integer(b)) => {
            let a = *a;
            let b = *b;
            Some(Object::Bool(a <= b))
        },
        _ => None,
    }
}

/// Whether one integer is at least another.
fn greater_than_equal(a: &Object, b: &Object) -> (result: Option<Object>)
    ensures
        match (a@, b@) {
            (ObjectView::Integer(x), ObjectView::Integer(y)) => result matches Some(value)
                && value@ == ObjectView::Bool(x >= y),
            _ => result is None,
        },
{
    match (a, b) {
        (Object::Integer(a), Object::Integer(b)) => {
            let a = *a;
            let b = *b;
            Some(Object::Bool(a >= b))
        },
        _ => None,
    }
}

/// The magnitude of a quotient is that of the dividend at most, and less
/// where the divisor is neither 1 nor -1.
proof fn lemma_quotient(a: int, b: int)
    requires
        b != 0,
    ensures
        a >= 0 ==> -a <= semantics::truncated_quotient(a, b) <= a,
        a < 0 ==> a <= semantics::truncated_quotient(a, b) <= -a,
        a < 0 && b < -1 ==> semantics::truncated_quotient(a, b) < -a,
        a == 0 ==> semantics::truncated_quotient(a, b) == 0,
        a < 0 && b == -1 ==> semantics::truncated_quotient(a, b) == -a,
        a < 0 && b < 0 ==> (a * -1) / (b * -1) == semantics::truncated_quotient(a, b),
        a < 0 && b > 0 ==> ((a * -1) / b) * -1 == semantics::truncated_quotient(a, b),
        a > 0 && b < 0 ==> (a / (b * -1)) * -1 == semantics::truncated_quotient(a, b),
{
    let x = if a >= 0 {
        a
    } else {
        -a
    };
    let d = if b > 0 {
        b
    } else {
        -b
    };
    assert(a * -1 == -a);
    assert(b * -1 == -b);
    vstd::arithmetic::div_mod::lemma_div_pos_is_pos(x, d);
    vstd::arithmetic::div_mod::lemma_div_basics_5(x, d);
    vstd::arithmetic::div_mod::lemma_div_basics(d);
    vstd::arithmetic::div_mod::lemma_div_basics(x);
    if x > 0 && d > 1 {
        vstd::arithmetic::div_mod::lemma_div_decreases(x, d);
    }
}

/// The quotient of two integers, rounded towards zero; none by zero.
fn division(a: &Object, b: &Object) -> (result: Option<Object>)
    ensures
        match (a@, b@) {
            (ObjectView::Integer(x), ObjectView::Integer(y)) => if y == 0 {
                result is None
            } else {
                result matches Some(value) && value@ == ObjectView::Integer(
                    semantics::quotient(x, y),
                )
            },
            _ => result is None,
        },
{
    match (a, b) {
        (Object::Integer(a), Object::Integer(b)) => {
            let a = *a;
            let b = *b;
            if b == 0 {
                None
            } else {
                proof {
                    lemma_quotient(a as int, b as int);
                }
                match a.checked_div(b) {
                    Some(q) => Some(Object::Integer(q)),
                    None => Some(Object::Integer(i64::MIN)),
                }
            }
        },
        _ => None,
    }
}

/// Whether two integers, or two booleans, are the same.
fn equal(a: &Object, b: &Object) -> (result: Option<Object>)
    ensures
        match (a@, b@) {
            (ObjectView::Integer(x), ObjectView::Integer(y)) => result matches Some(value)
                && value@ == ObjectView::Bool(x == y),
            (ObjectView::Bool(x), ObjectView::Bool(y)) => result matches Some(value) && value@
                == ObjectView::Bool(x == y),
            _ => result is None,
        },
{
    match (a, b) {
        (Object::Integer(a), Object::Integer(b)) => Some(Object::Bool(*a == *b)),
        (Object::Bool(a), Object::Bool(b)) => Some(Object::Bool(*a == *b)),
        _ => None,
    }
}

/// Whether two integers, or two booleans, differ.
fn not_equal(a: &Object, b: &Object) -> (result: Option<Object>)
    ensures
        match (a@, b@) {
            (ObjectView::Integer(x), ObjectView::Integer(y)) => result matches Some(value)
                && value@ == ObjectView::Bool(x != y),
            (ObjectView::Bool(x), ObjectView::Bool(y)) => result matches Some(value) && value@
                == ObjectView::Bool(x != y),
            _ => result is None,
        },
{
    match (a, b) {
        (Object::Integer(a), Object::Integer(b)) => Some(Object::Bool(*a != *b)),
        (Object::Bool(a), Object::Bool(b)) => Some(Object::Bool(*a != *b)),
        _ => None,
    }
}

/// What a binary operator gives for two values.
pub fn apply(operation: &InfixOperation, left: Object, right: Object) -> (result: Result<
    Object,
    EvaluationError,
>)
    ensures
        result_view(result) == semantics::apply_infix(*operation, left@, right@),
{
    let value = match operation {
        InfixOperation::Sum => sum(&left, &right),
        InfixOperation::Subtraction => subtraction(&left, &right),
        InfixOperation::Division => division(&left, &right),
        InfixOperation::Product => product(&left, &right),
        InfixOperation::Equal => equal(&left, &right),
        InfixOperation::LessThan => less_than(&left, &right),
        InfixOperation::GreaterThan => greater_than(&left, &right),
        InfixOperation::LessThanEqual => less_than_equal(&left, &right),
        InfixOperation::GreaterThanEqual => greater_than_equal(&left, &right),
        InfixOperation::NotEqual => not_equal(&left, &right),
    };
    match value {
        Some(v) => Ok(v),
        None => Err(
            EvaluationError::InfixOperationNotImplemented { operation: *operation, left, right },
        ),
    }
}

/// The value of a binary operation.
pub fn eval(
    env: &mut Environment,
    scope: usize,
    operation: &InfixOperation,
    left: &Expression,
    right: &Expression,
    depth: usize,
) -> (result: Result<Object, EvaluationError>)
    ensures
        outcome(final(env)@, result) == semantics::eval_infix(
            depth as nat,
            old(env)@,
            scope,
            *operation,
            left@,
            right@,
        ),
    decreases depth, 3nat,
{
    let left_v = match eval_expression(env, scope, left, depth) {
        Ok(v) => v,
        Err(e) => {
            return Err(e);
        },
    };
    let right_v = match eval_expression(env, scope, right, depth) {
        Ok(v) => v,
        Err(e) => {
            return Err(e);
        },
    };
    apply(operation, left_v, right_v)
}

} // verus!
