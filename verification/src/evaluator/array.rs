//! Arrays: literals and indexing.

use vstd::prelude::*;
use crate::evaluator::env::Environment;
use crate::evaluator::object::{lemma_model_unfolds, Object};
use crate::evaluator::{eval_expressions, outcome, result_view, semantics, EvaluationError};
use crate::parser::ast::Expression;

verus! {

/// The item of an array at an index.
pub fn eval_indexing(arr: Vec<Object>, index: Object) -> (result: Result<Object, EvaluationError>)
    ensures
        result_view(result) == semantics::index_array(arr.deep_view(), index@),
{
    match index {
        Object::Integer(i) => {
            if i < 0 || arr.len() as u64 <= i as u64 {
                let value = Object::Array(arr);
                proof {
                    lemma_model_unfolds(value);
                }
                return Err(
                    EvaluationError::IndexOutOfBounds {
                        value,
                        index: #[verifier::truncate]
                        (i as usize),
                    },
                );
            }
            Ok(arr[i as usize].duplicate())
        },
        i => {
            let value = Object::Array(arr);
            proof {
                lemma_model_unfolds(value);
            }
            Err(EvaluationError::NotIndexable { value, index: Some(i) })
        },
    }
}

/// The value of an array literal.
pub fn eval_array(env: &mut Environment, scope: usize, array: &Vec<Expression>, depth: usize) -> (
    result: Result<Object, EvaluationError>)
    ensures
        outcome(final(env)@, result) == semantics::eval_array(
            depth as nat,
            old(env)@,
            scope,
            array.deep_view(),
        ),
    decreases depth, 3nat,
{
    match eval_expressions(env, scope, array, depth) {
        Ok(v) => {
            let value = Object::Array(v);
            proof {
                lemma_model_unfolds(value);
            }
            Ok(value)
        },
        Err(e) => Err(e),
    }
}

} // verus!
