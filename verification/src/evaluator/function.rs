//! Function values and calls.

use vstd::prelude::*;
use crate::evaluator::builtin::{eval_builtin_call, is_builtin_name};
use crate::evaluator::env::Environment;
use crate::evaluator::object::Object;
use crate::evaluator::{
    eval_expression,
    eval_expressions,
    eval_statements,
    outcome,
    semantics,
    EvaluationError,
};
use crate::parser::ast::{clone_names, clone_statements, Expression, Statement};

verus! {

/// The value of a call.
pub fn eval_call(
    env: &mut Environment,
    scope: usize,
    function: &Expression,
    arguments: &Vec<Expression>,
    depth: usize,
) -> (result: Result<Object, EvaluationError>)
    ensures
        outcome(final(env)@, result) == semantics::eval_call(
            depth as nat,
            old(env)@,
            scope,
            function@,
            arguments.deep_view(),
        ),
    decreases depth, 4nat,
{
    let function_value = match eval_expression(env, scope, function, depth) {
        Ok(value) => value,
        Err(e) => {
            return Err(e);
        },
    };
    if !is_callable(&function_value) {
        return Err(EvaluationError::NotCallable { value: function_value });
    }
    let arg_values = match eval_expressions(env, scope, arguments, depth) {
        Ok(values) => values,
        Err(e) => {
            return Err(e);
        },
    };
    match function_value {
        Object::Function(arg_names, body, closure) => eval_monkey_call(
            env,
            arg_values,
            arg_names,
            body,
            closure,
            depth,
        ),
        Object::BuiltInFunction(name) => eval_builtin_call(env, arg_values, name),
        other => Err(EvaluationError::NotCallable { value: other }),
    }
}

/// Whether a value can be called.
pub fn is_callable(value: &Object) -> (r: bool)
    ensures
        r == semantics::callable(value@),
{
    match value {
        Object::Function(_, _, _) => true,
        Object::BuiltInFunction(name) => is_builtin_name(name),
        _ => false,
    }
}

/// Binds each name in `scope` to the value at its place, as far as both go.
fn bind_arguments(
    env: &mut Environment,
    scope: usize,
    arg_names: &Vec<String>,
    arg_values: Vec<Object>,
)
    ensures
        final(env)@ == semantics::bind_parameters(
            old(env)@,
            scope,
            arg_names.deep_view(),
            arg_values.deep_view(),
            0,
        ),
{
    let mut i: usize = 0;
    let ghost values = arg_values.deep_view();
    let count = arg_values.len();
    for value in it: arg_values
        invariant
            i == it.index(),
            count == values.len(),
            it.seq().len() == values.len(),
            forall|j: int| 0 <= j < values.len() ==> it.seq()[j]@ == values[j],
            semantics::bind_parameters(old(env)@, scope, arg_names.deep_view(), values, 0)
                == semantics::bind_parameters(
                env@,
                scope,
                arg_names.deep_view(),
                values,
                i as nat,
            ),
    {
        if i < arg_names.len() {
            env.set(scope, arg_names[i].clone(), value);
        }
        i += 1;
    }
}

/// The value of the call of a function value.
fn eval_monkey_call(
    env: &mut Environment,
    arg_values: Vec<Object>,
    arg_names: Vec<String>,
    body: Vec<Statement>,
    closure: usize,
    depth: usize,
) -> (result: Result<Object, EvaluationError>)
    ensures
        outcome(final(env)@, result) == semantics::eval_monkey_call(
            depth as nat,
            old(env)@,
            arg_values.deep_view(),
            arg_names.deep_view(),
            body.deep_view(),
            closure,
        ),
    decreases depth, 3nat,
{
    let new_scope = env.with_parent(closure);
    bind_arguments(env, new_scope, &arg_names, arg_values);
    eval_statements(env, new_scope, &body, depth)
}

/// The function value of a function literal: it names a new scope of its own
/// inside `scope`.
pub fn eval_function(
    env: &mut Environment,
    scope: usize,
    arguments: &Vec<String>,
    body: &Vec<Statement>,
) -> (result: Result<Object, EvaluationError>)
    ensures
        outcome(final(env)@, result) == semantics::eval_function(
            old(env)@,
            scope,
            arguments.deep_view(),
            body.deep_view(),
        ),
{
    let own = env.with_parent(scope);
    Ok(Object::Function(clone_names(arguments), clone_statements(body), own))
}

} // verus!
