//! The built-in functions.

use vstd::prelude::*;
use crate::evaluator::env::Environment;
use crate::evaluator::object::{display_all, join_texts, lemma_model_unfolds, Object};
use crate::evaluator::{outcome, semantics, EvaluationError};
use crate::text::string_is;

verus! {

/// Whether a built-in function has this name.
pub fn is_builtin_name(name: &String) -> (r: bool)
    ensures
        r == semantics::is_builtin(name@),
{
    string_is(name, "len") || string_is(name, "first") || string_is(name, "last") || string_is(
        name,
        "rest",
    ) || string_is(name, "push") || string_is(name, "puts")
}

/// A length as an integer value.
fn length_of(length: usize) -> (value: i64)
    ensures
        value == semantics::length_value(length as nat),
{
    if length as u64 <= 9223372036854775807u64 {
        length as i64
    } else {
        i64::MAX
    }
}

/// Whether the arguments are one array.
fn is_one_array(arg_values: &Vec<Object>) -> (r: bool)
    ensures
        r == (arg_values.deep_view().len() == 1 && arg_values.deep_view()[0] is Array),
{
    arg_values.len() == 1 && matches!(arg_values[0], Object::Array(_))
}

/// What a built-in function gives for its arguments.
pub fn eval_builtin_call(env: &mut Environment, arg_values: Vec<Object>, name: String) -> (result:
    Result<Object, EvaluationError>)
    requires
        semantics::is_builtin(name@),
    ensures
        outcome(final(env)@, result) == semantics::call_builtin(
            old(env)@,
            arg_values.deep_view(),
            name@,
        ),
{
    let mut arg_values = arg_values;
    let ghost values = arg_values.deep_view();
    if string_is(&name, "len") {
        if arg_values.len() == 1 {
            proof {
                lemma_model_unfolds(arg_values[0]);
            }
            match &arg_values[0] {
                Object::Str(v) => {
                    return Ok(Object::Integer(length_of(v.as_str().as_bytes().len())));
                },
                Object::Array(a) => {
                    return Ok(Object::Integer(length_of(a.len())));
                },
                _ => {},
            }
        }
        Err(EvaluationError::InvalidArguments { values: arg_values, expected: "string" })
    } else if string_is(&name, "first") {
        if !is_one_array(&arg_values) {
            return Err(EvaluationError::InvalidArguments { values: arg_values, expected: "array" });
        }
        proof {
            lemma_model_unfolds(arg_values[0]);
        }
        match arg_values.pop() {
            Some(Object::Array(mut items)) => {
                if items.len() > 0 {
                    Ok(items.swap_remove(0))
                } else {
                    Err(EvaluationError::IndexOutOfBounds { value: Object::Array(items), index: 0 })
                }
            },
            _ => Ok(Object::Null),
        }
    } else if string_is(&name, "last") {
        if !is_one_array(&arg_values) {
            return Err(EvaluationError::InvalidArguments { values: arg_values, expected: "array" });
        }
        proof {
            lemma_model_unfolds(arg_values[0]);
        }
        match arg_values.pop() {
            Some(Object::Array(mut items)) => {
                match items.pop() {
                    Some(item) => Ok(item),
                    None => Err(
                        EvaluationError::IndexOutOfBounds { value: Object::Array(items), index: 0 },
                    ),
                }
            },
            _ => Ok(Object::Null),
        }
    } else if string_is(&name, "rest") {
        if !is_one_array(&arg_values) {
            return Err(EvaluationError::InvalidArguments { values: arg_values, expected: "array" });
        }
        proof {
            lemma_model_unfolds(arg_values[0]);
        }
        match arg_values.pop() {
            Some(Object::Array(mut items)) => {
                if items.len() >= 2 {
                    let ghost before = items.deep_view();
                    let _ = items.remove(0);
                    assert(items.deep_view() =~= before.skip(1));
                    let value = Object::Array(items);
                    proof {
                        lemma_model_unfolds(value);
                    }
                    Ok(value)
                } else {
                    Err(EvaluationError::IndexOutOfBounds { value: Object::Array(items), index: 1 })
                }
            },
            _ => Ok(Object::Null),
        }
    } else if string_is(&name, "push") {
        if !(arg_values.len() == 2 && matches!(arg_values[0], Object::Array(_))) {
            return Err(
                EvaluationError::InvalidArguments { values: arg_values, expected: "array, object" },
            );
        }
        proof {
            lemma_model_unfolds(arg_values[0]);
        }
        let item = arg_values.pop();
        let array = arg_values.pop();
        match (array, item) {
            (Some(Object::Array(mut items)), Some(item)) => {
                let ghost before = items.deep_view();
                items.push(item);
                assert(items.deep_view() =~= before.push(item@));
                let value = Object::Array(items);
                proof {
                    lemma_model_unfolds(value);
                }
                Ok(value)
            },
            _ => Ok(Object::Null),
        }
    } else {
        let texts = display_all(&arg_values);
        env.write_line(join_texts(&texts, " "));
        Ok(Object::Null)
    }
}

/// Binds each built-in function under its name in the outermost scope.
pub fn set_builtins_to_env(env: &mut Environment)
    ensures
        final(env)@ == semantics::with_builtins(old(env)@),
{
    env.set(0, String::from_str("len"), Object::BuiltInFunction(String::from_str("len")));
    env.set(0, String::from_str("first"), Object::BuiltInFunction(String::from_str("first")));
    env.set(0, String::from_str("last"), Object::BuiltInFunction(String::from_str("last")));
    env.set(0, String::from_str("rest"), Object::BuiltInFunction(String::from_str("rest")));
    env.set(0, String::from_str("push"), Object::BuiltInFunction(String::from_str("push")));
    env.set(0, String::from_str("puts"), Object::BuiltInFunction(String::from_str("puts")));
}

} // verus!
