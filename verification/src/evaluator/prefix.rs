//! Unary operators.

use vstd::prelude::*;
use crate::evaluator::env::Environment;
use crate::evaluator::object::Object;
use crate::evaluator::{eval_expression, outcome, semantics, EvaluationError};
use crate::parser::ast::{Expression, PrefixOperation};

verus! {

fn eval_negative(env: &mut Environment, scope: usize, right: &Expression, depth: usize) -> (result:
    Result<Object, EvaluationError>)
    ensures
        outcome(final(env)@, result) == semantics::eval_prefix(
            depth as nat,
            old(env)@,
            scope,
            PrefixOperation::Negative,
            right@,
        ),
    decreases depth, 3nat,
{
    let v = match eval_expression(env, scope, right, depth) {
        Ok(v) => v,
        Err(e) => {
            return Err(e);
        },
    };
    match v {
        Object::Integer(a) => Ok(Object::Integer(0i64.wrapping_sub(a))),
        v => Err(
            EvaluationError::PrefixOperationNotImplemented {
                operation: PrefixOperation::Negative,
                right: v,
            },
        ),
    }
}

fn eval_negate(env: &mut Environment, scope: usize, right: &Expression, depth: usize) -> (result:
    Result<Object, EvaluationError>)
    ensures
        outcome(final(env)@, result) == semantics::eval_prefix(
            depth as nat,
            old(env)@,
            scope,
            PrefixOperation::Negate,
            right@,
        ),
    decreases depth, 3nat,
{
    let v = match eval_expression(env, scope, right, depth) {
        Ok(v) => v,
        Err(e) => {
            return Err(e);
        },
    };
    match v {
        Object::Bool(a) => Ok(Object::Bool(!a)),
        v => Err(
            EvaluationError::PrefixOperationNotImplemented {
                operation: PrefixOperation::Negate,
                right: v,
            },
        ),
    }
}

/// The value of a unary operation.
pub fn eval(
    env: &mut Environment,
    scope: usize,
    operation: &PrefixOperation,
    right: &Expression,
    depth: usize,
) -> (result: Result<Object, EvaluationError>)
    ensures
        outcome(final(env)@, result) == semantics::eval_prefix(
            depth as nat,
            old(env)@,
            scope,
            *operation,
            right@,
        ),
    decreases depth, 4nat,
{
    match operation {
        PrefixOperation::Negate => eval_negate(env, scope, right, depth),
        PrefixOperation::Negative => eval_negative(env, scope, right, depth),
    }
}

} // verus!
