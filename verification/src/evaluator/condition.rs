//! `if` and `else`.

use vstd::prelude::*;
use crate::evaluator::env::Environment;
use crate::evaluator::object::Object;
use crate::evaluator::{eval_expression, eval_statements, outcome, semantics, EvaluationError};
use crate::parser::ast::{Expression, Statement};

verus! {

/// The value of an `if`: that of the block that the condition picks.
pub fn eval(
    env: &mut Environment,
    scope: usize,
    condition: &Expression,
    consequence: &Vec<Statement>,
    alternative: &Option<Vec<Statement>>,
    depth: usize,
) -> (result: Result<Object, EvaluationError>)
    ensures
        outcome(final(env)@, result) == semantics::eval_condition(
            depth as nat,
            old(env)@,
            scope,
            condition@,
            consequence.deep_view(),
            alternative.deep_view(),
        ),
    decreases depth, 3nat,
{
    let value = match eval_expression(env, scope, condition, depth) {
        Ok(value) => value,
        Err(e) => {
            return Err(e);
        },
    };
    match value {
        Object::Bool(true) => eval_statements(env, scope, consequence, depth),
        Object::Bool(false) => match alternative {
            None => Ok(Object::Null),
            Some(alt) => eval_statements(env, scope, alt, depth),
        },
        v => Err(EvaluationError::UnexpectedType { value: v, expected: "bool" }),
    }
}

} // verus!
