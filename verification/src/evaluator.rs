//! From syntax trees to values.

pub mod array;
pub mod builtin;
pub mod condition;
pub mod env;
pub mod function;
pub mod hashmap;
pub mod infix;
pub mod object;
pub mod prefix;
pub mod semantics;

use vstd::prelude::*;
use crate::evaluator::env::{Environment, EnvironmentView};
use crate::evaluator::object::Object;
use crate::evaluator::semantics::{EvaluationErrorView, Outcome};
use crate::parser::ast::{Expression, InfixOperation, PrefixOperation, Statement};

verus! {

/// Why an evaluation gives no value.
#[allow(inconsistent_fields)]
#[derive(PartialEq, Debug)]
pub enum EvaluationError {
    /// A binary operator on operands it does not take.
    InfixOperationNotImplemented { operation: InfixOperation, left: Object, right: Object },
    /// A unary operator on an operand it does not take.
    PrefixOperationNotImplemented { operation: PrefixOperation, right: Object },
    /// A built-in function on arguments it does not take.
    InvalidArguments { values: Vec<Object>, expected: &'static str },
    /// A value of another kind than its place asks for.
    UnexpectedType { value: Object, expected: &'static str },
    /// An index that an array does not have.
    IndexOutOfBounds { value: Object, index: usize },
    /// A key that is not hashable.
    NotHashable { value: Object },
    /// A call of a value that is no function.
    NotCallable { value: Object },
    /// An index into a value that has none, or of a kind the value does not take.
    NotIndexable { value: Object, index: Option<Object> },
    /// More expressions open at once, one inside the other, than were allowed.
    DepthExceeded,
}

impl View for EvaluationError {
    type V = EvaluationErrorView;

    open spec fn view(&self) -> EvaluationErrorView {
        match self {
            EvaluationError::InfixOperationNotImplemented { operation, left, right } => {
                EvaluationErrorView::InfixOperationNotImplemented {
                    operation: *operation,
                    left: left@,
                    right: right@,
                }
            },
            EvaluationError::PrefixOperationNotImplemented { operation, right } => {
                EvaluationErrorView::PrefixOperationNotImplemented {
                    operation: *operation,
                    right: right@,
                }
            },
            EvaluationError::InvalidArguments { values, expected } => {
                EvaluationErrorView::InvalidArguments {
                    values: values.deep_view(),
                    expected: expected@,
                }
            },
            EvaluationError::UnexpectedType { value, expected } => {
                EvaluationErrorView::UnexpectedType { value: value@, expected: expected@ }
            },
            EvaluationError::IndexOutOfBounds { value, index } => {
                EvaluationErrorView::IndexOutOfBounds { value: value@, index: *index }
            },
            EvaluationError::NotHashable { value } => EvaluationErrorView::NotHashable {
                value: value@,
            },
            EvaluationError::NotCallable { value } => EvaluationErrorView::NotCallable {
                value: value@,
            },
            EvaluationError::NotIndexable { value, index } => EvaluationErrorView::NotIndexable {
                value: value@,
                index: index.deep_view(),
            },
            EvaluationError::DepthExceeded => EvaluationErrorView::DepthExceeded,
        }
    }
}

/// What a result stands for.
pub open spec fn result_view<T: DeepView>(result: Result<T, EvaluationError>) -> Result<
    T::V,
    EvaluationErrorView,
> {
    match result {
        Ok(value) => Ok(value.deep_view()),
        Err(error) => Err(error@),
    }
}

/// An environment with what a result stands for.
pub open spec fn outcome<T: DeepView>(env: EnvironmentView, result: Result<T, EvaluationError>)
    -> Outcome<T::V> {
    (env, result_view(result))
}

/// The values of the expressions, in order.
pub fn eval_expressions(
    env: &mut Environment,
    scope: usize,
    expressions: &Vec<Expression>,
    depth: usize,
) -> (result: Result<Vec<Object>, EvaluationError>)
    ensures
        outcome(final(env)@, result) == semantics::eval_expressions(
            depth as nat,
            old(env)@,
            scope,
            expressions.deep_view(),
            0,
            Seq::empty(),
        ),
    decreases depth, 2nat,
{
    let mut values: Vec<Object> = Vec::new();
    let mut i: usize = 0;
    assert(values.deep_view() =~= Seq::<object::ObjectView>::empty());
    while i < expressions.len()
        invariant
            i <= expressions.len(),
            semantics::eval_expressions(
                depth as nat,
                old(env)@,
                scope,
                expressions.deep_view(),
                0,
                Seq::empty(),
            ) == semantics::eval_expressions(
                depth as nat,
                env@,
                scope,
                expressions.deep_view(),
                i as nat,
                values.deep_view(),
            ),
        decreases expressions.len() - i,
    {
        let ghost done = values.deep_view();
        match eval_expression(env, scope, &expressions[i], depth) {
            Ok(value) => {
                values.push(value);
                assert(values.deep_view() =~= done.push(value@));
            },
            Err(error) => {
                return Err(error);
            },
        }
        i += 1;
    }
    Ok(values)
}

/// What indexing a value gives.
pub fn eval_index(
    env: &mut Environment,
    scope: usize,
    array: &Expression,
    index: &Expression,
    depth: usize,
) -> (result: Result<Object, EvaluationError>)
    ensures
        outcome(final(env)@, result) == semantics::eval_index(
            depth as nat,
            old(env)@,
            scope,
            array@,
            index@,
        ),
    decreases depth, 3nat,
{
    let array_v = match eval_expression(env, scope, array, depth) {
        Ok(value) => value,
        Err(error) => {
            return Err(error);
        },
    };
    let index_v = match eval_expression(env, scope, index, depth) {
        Ok(value) => value,
        Err(error) => {
            return Err(error);
        },
    };
    proof {
        object::lemma_model_unfolds(array_v);
    }
    match array_v {
        Object::Array(arr) => array::eval_indexing(arr, index_v),
        Object::HashMap(hm) => hashmap::eval_indexing(hm, index_v),
        v => Err(EvaluationError::NotIndexable { value: v, index: Some(index_v) }),
    }
}

/// The value of an expression.
pub fn eval_expression(
    env: &mut Environment,
    scope: usize,
    expression: &Expression,
    depth: usize,
) -> (result: Result<Object, EvaluationError>)
    ensures
        outcome(final(env)@, result) == semantics::eval_expression(
            depth as nat,
            old(env)@,
            scope,
            expression@,
        ),
    decreases depth, 0nat,
{
    proof {
        crate::parser::ast::lemma_model_unfolds(*expression);
    }
    if depth == 0 {
        return Err(EvaluationError::DepthExceeded);
    }
    let inner = depth - 1;
    match expression {
        Expression::IntegerLiteral { value } => Ok(Object::Integer(*value)),
        Expression::StringLiteral { value } => Ok(Object::Str(value.clone())),
        Expression::Array { array } => array::eval_array(env, scope, array, inner),
        Expression::HashMap { pairs } => hashmap::eval_hashmap(env, scope, pairs, inner),
        Expression::Index { array, index } => eval_index(env, scope, array, index, inner),
        Expression::Boolean { value } => Ok(Object::Bool(*value)),
        Expression::IdentifierExpression { identifier } => Ok(
            env.get(scope, identifier.as_str()),
        ),
        Expression::InfixExpression { operation, right, left } => infix::eval(
            env,
            scope,
            operation,
            left,
            right,
            inner,
        ),
        Expression::IfExpression { condition, consequence, alternative } => condition::eval(
            env,
            scope,
            condition,
            consequence,
            alternative,
            inner,
        ),
        Expression::PrefixExpression { operation, right } => prefix::eval(
            env,
            scope,
            operation,
            right,
            inner,
        ),
        Expression::FunctionExpression { arguments, body } => function::eval_function(
            env,
            scope,
            arguments,
            body,
        ),
        Expression::CallExpression { arguments, function } => function::eval_call(
            env,
            scope,
            function,
            arguments,
            inner,
        ),
    }
}

/// What a statement gives: the value of a `return`, and nothing otherwise.
pub fn eval_statement(
    env: &mut Environment,
    scope: usize,
    statement: &Statement,
    depth: usize,
) -> (result: Result<Option<Object>, EvaluationError>)
    ensures
        outcome(final(env)@, result) == semantics::eval_statement(
            depth as nat,
            old(env)@,
            scope,
            statement@,
        ),
    decreases depth, 1nat,
{
    match statement {
        Statement::ReturnStatement { expression } => match eval_expression(
            env,
            scope,
            expression,
            depth,
        ) {
            Err(e) => Err(e),
            Ok(v) => Ok(Some(v)),
        },
        Statement::LetStatement { identifier, expression } => {
            match eval_expression(env, scope, expression, depth) {
                Err(e) => Err(e),
                Ok(val) => {
                    env.set(scope, identifier.clone(), val);
                    Ok(None)
                },
            }
        },
        Statement::ExpressionStatement { expression } => {
            match eval_expression(env, scope, expression, depth) {
                Err(e) => Err(e),
                Ok(_) => Ok(None),
            }
        },
    }
}

/// The value of a block in `scope`: that of its first `return`, or `Null`
/// where it comes to its end.
pub fn eval_statements(
    env: &mut Environment,
    scope: usize,
    statements: &Vec<Statement>,
    depth: usize,
) -> (result: Result<Object, EvaluationError>)
    ensures
        outcome(final(env)@, result) == semantics::eval_statements(
            depth as nat,
            old(env)@,
            scope,
            statements.deep_view(),
            0,
        ),
    decreases depth, 2nat,
{
    let mut i: usize = 0;
    while i < statements.len()
        invariant
            i <= statements.len(),
            semantics::eval_statements(depth as nat, old(env)@, scope, statements.deep_view(), 0)
                == semantics::eval_statements(
                depth as nat,
                env@,
                scope,
                statements.deep_view(),
                i as nat,
            ),
        decreases statements.len() - i,
    {
        match eval_statement(env, scope, &statements[i], depth) {
            Err(e) => {
                return Err(e);
            },
            Ok(Some(v)) => {
                return Ok(v);
            },
            Ok(None) => {},
        }
        i += 1;
    }
    Ok(Object::Null)
}

/// A new environment that holds the built-in functions and nothing else.
pub fn new_environment() -> (env: Environment)
    ensures
        env@ == semantics::with_builtins(EnvironmentView::fresh()),
{
    let mut env = Environment::new();
    builtin::set_builtins_to_env(&mut env);
    env
}

/// The value of a program run on its own, with at most `depth` expressions
/// open at once.
pub fn eval_program(program: &Vec<Statement>, depth: usize) -> (result: Result<
    Object,
    EvaluationError,
>)
    ensures
        result_view(result) == semantics::eval_program(depth as nat, program.deep_view()).1,
{
    let mut env = new_environment();
    eval_statements(&mut env, 0, program, depth)
}

} // verus!
