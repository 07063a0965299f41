//! Hash maps: literals and indexing.

use vstd::prelude::*;
use crate::evaluator::env::Environment;
use crate::evaluator::object::{find, hashable, insert, lemma_model_unfolds, Object, ObjectView};
use crate::evaluator::{eval_expression, outcome, result_view, semantics, EvaluationError};
use crate::parser::ast::Expression;

verus! {

/// Accepts a key that is hashable, and refuses any other.
pub fn check_key_type(key: &Object) -> (result: Result<(), EvaluationError>)
    ensures
        hashable(key@) ==> result is Ok,
        !hashable(key@) ==> (result matches Err(error) && error@ == (
        semantics::EvaluationErrorView::NotHashable { value: key@ })),
{
    match key {
        Object::Null => Ok(()),
        Object::Bool(_) => Ok(()),
        Object::Integer(_) => Ok(()),
        Object::Str(_) => Ok(()),
        _ => Err(EvaluationError::NotHashable { value: key.duplicate() }),
    }
}

/// The value of a hash map under a key: `Null` where it has none.
pub fn eval_indexing(hm: Vec<(Object, Object)>, index: Object) -> (result: Result<
    Object,
    EvaluationError,
>)
    ensures
        result_view(result) == semantics::index_hashmap(hm.deep_view(), index@),
{
    match check_key_type(&index) {
        Ok(_) => {},
        Err(e) => {
            return Err(e);
        },
    }
    match find(&hm, &index) {
        Some(place) => Ok(hm[place].1.duplicate()),
        None => Ok(Object::Null),
    }
}

/// Puts `value` under the hashable key `key`: in the place of the pair that
/// had the key, or else behind the last pair.
pub fn insert_pair(pairs: &mut Vec<(Object, Object)>, key: Object, value: Object)
    requires
        hashable(key@),
    ensures
        final(pairs).deep_view() == insert(old(pairs).deep_view(), key@, value@),
{
    match find(pairs, &key) {
        Some(place) => {
            pairs[place] = (key, value);
            assert(pairs.deep_view() =~= insert(old(pairs).deep_view(), key@, value@));
        },
        None => {
            pairs.push((key, value));
            assert(pairs.deep_view() =~= insert(old(pairs).deep_view(), key@, value@));
        },
    }
}

/// The value of a hash map literal.
pub fn eval_hashmap(
    env: &mut Environment,
    scope: usize,
    pairs: &Vec<(Expression, Expression)>,
    depth: usize,
) -> (result: Result<Object, EvaluationError>)
    ensures
        outcome(final(env)@, result) == semantics::eval_hashmap(
            depth as nat,
            old(env)@,
            scope,
            pairs.deep_view(),
        ),
    decreases depth, 3nat,
{
    let mut hm: Vec<(Object, Object)> = Vec::new();
    let mut i: usize = 0;
    assert(hm.deep_view() =~= Seq::<(ObjectView, ObjectView)>::empty());
    while i < pairs.len()
        invariant
            i <= pairs.len(),
            semantics::eval_hashmap(depth as nat, old(env)@, scope, pairs.deep_view())
                == semantics::eval_pairs(
                depth as nat,
                env@,
                scope,
                pairs.deep_view(),
                i as nat,
                hm.deep_view(),
            ),
        decreases pairs.len() - i,
    {
        let key = match eval_expression(env, scope, &pairs[i].0, depth) {
            Ok(key) => key,
            Err(e) => {
                return Err(e);
            },
        };
        let val = match eval_expression(env, scope, &pairs[i].1, depth) {
            Ok(val) => val,
            Err(e) => {
                return Err(e);
            },
        };
        match check_key_type(&key) {
            Ok(_) => {},
            Err(e) => {
                return Err(e);
            },
        }
        insert_pair(&mut hm, key, val);
        i += 1;
    }
    let value = Object::HashMap(hm);
    proof {
        lemma_model_unfolds(value);
    }
    Ok(value)
}

} // verus!
