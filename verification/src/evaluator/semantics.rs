//! The meaning of programs: what evaluation gives, and what it leaves behind.
//!
//! Every function here takes the environment before a step and gives the
//! environment after it with the value or the error of the step. `depth` is
//! how many expressions may be open at once, one inside the other: the one
//! that would be one too many fails with `DepthExceeded`.

use vstd::prelude::*;
use vstd::wrapping::i64_specs::{wrapping_add, wrapping_mul, wrapping_sub};
use crate::evaluator::env::EnvironmentView;
use crate::evaluator::object::{display_texts, hashable, insert, join, lookup, ObjectView};
use crate::parser::ast::{ExpressionView, InfixOperation, PrefixOperation, StatementView};

verus! {

/// Why an evaluation gives no value.
#[allow(inconsistent_fields)]
pub enum EvaluationErrorView {
    InfixOperationNotImplemented { operation: InfixOperation, left: ObjectView, right: ObjectView },
    PrefixOperationNotImplemented { operation: PrefixOperation, right: ObjectView },
    InvalidArguments { values: Seq<ObjectView>, expected: Seq<char> },
    UnexpectedType { value: ObjectView, expected: Seq<char> },
    IndexOutOfBounds { value: ObjectView, index: usize },
    NotHashable { value: ObjectView },
    NotCallable { value: ObjectView },
    NotIndexable { value: ObjectView, index: Option<ObjectView> },
    DepthExceeded,
}

/// The environment after a step, with what the step gave.
pub type Outcome<T> = (EnvironmentView, Result<T, EvaluationErrorView>);

/// The quotient of two integers, rounded towards zero.
pub open spec fn truncated_quotient(a: int, b: int) -> int
    recommends
        b != 0,
{
    if a >= 0 {
        if b > 0 {
            a / b
        } else {
            -(a / (-b))
        }
    } else {
        if b > 0 {
            -((-a) / b)
        } else {
            (-a) / (-b)
        }
    }
}

/// The quotient of two 64-bit integers, rounded towards zero. The one quotient
/// that does not fit, that of the least integer by -1, wraps to the least
/// integer.
pub open spec fn quotient(a: i64, b: i64) -> i64
    recommends
        b != 0,
{
    if a == i64::MIN && b == -1 {
        i64::MIN
    } else {
        truncated_quotient(a as int, b as int) as i64
    }
}

/// What a binary operator gives for two values. Arithmetic and the four
/// order comparisons take two integers; `==` and `!=` take two integers or two
/// booleans. Sums, differences and products wrap around. Every other pair of
/// operands is refused, and so is a division by zero.
pub open spec fn apply_infix(operation: InfixOperation, left: ObjectView, right: ObjectView)
    -> Result<ObjectView, EvaluationErrorView> {
    let refused = Err(
        EvaluationErrorView::InfixOperationNotImplemented { operation, left, right },
    );
    match (left, right) {
        (ObjectView::Integer(a), ObjectView::Integer(b)) => match operation {
            InfixOperation::Sum => Ok(ObjectView::Integer(wrapping_add(a, b))),
            InfixOperation::Subtraction => Ok(ObjectView::Integer(wrapping_sub(a, b))),
            InfixOperation::Product => Ok(ObjectView::Integer(wrapping_mul(a, b))),
            InfixOperation::Division => if b == 0 {
                refused
            } else {
                Ok(ObjectView::Integer(quotient(a, b)))
            },
            InfixOperation::Equal => Ok(ObjectView::Bool(a == b)),
            InfixOperation::NotEqual => Ok(ObjectView::Bool(a != b)),
            InfixOperation::LessThan => Ok(ObjectView::Bool(a < b)),
            InfixOperation::GreaterThan => Ok(ObjectView::Bool(a > b)),
            InfixOperation::LessThanEqual => Ok(ObjectView::Bool(a <= b)),
            InfixOperation::GreaterThanEqual => Ok(ObjectView::Bool(a >= b)),
        },
        (ObjectView::Bool(a), ObjectView::Bool(b)) => match operation {
            InfixOperation::Equal => Ok(ObjectView::Bool(a == b)),
            InfixOperation::NotEqual => Ok(ObjectView::Bool(a != b)),
            _ => refused,
        },
        _ => refused,
    }
}

/// What a unary operator gives for a value: `-` takes an integer and wraps
/// around, `!` takes a boolean.
pub open spec fn apply_prefix(operation: PrefixOperation, right: ObjectView) -> Result<
    ObjectView,
    EvaluationErrorView,
> {
    match (operation, right) {
        (PrefixOperation::Negative, ObjectView::Integer(a)) => Ok(
            ObjectView::Integer(wrapping_sub(0, a)),
        ),
        (PrefixOperation::Negate, ObjectView::Bool(a)) => Ok(ObjectView::Bool(!a)),
        _ => Err(EvaluationErrorView::PrefixOperationNotImplemented { operation, right }),
    }
}

/// The item of an array at an index: an integer from 0 up to the length.
pub open spec fn index_array(items: Seq<ObjectView>, index: ObjectView) -> Result<
    ObjectView,
    EvaluationErrorView,
> {
    match index {
        ObjectView::Integer(i) => if 0 <= i < items.len() {
            Ok(items[i as int])
        } else {
            Err(
                EvaluationErrorView::IndexOutOfBounds {
                    value: ObjectView::Array(items),
                    index: i as usize,
                },
            )
        },
        _ => Err(
            EvaluationErrorView::NotIndexable {
                value: ObjectView::Array(items),
                index: Some(index),
            },
        ),
    }
}

/// The value of a hash map under a key: `Null` where it has none.
pub open spec fn index_hashmap(pairs: Seq<(ObjectView, ObjectView)>, index: ObjectView) -> Result<
    ObjectView,
    EvaluationErrorView,
> {
    if !hashable(index) {
        Err(EvaluationErrorView::NotHashable { value: index })
    } else {
        match lookup(pairs, index) {
            Some(value) => Ok(value),
            None => Ok(ObjectView::Null),
        }
    }
}

/// What indexing a value gives: arrays and hash maps can be indexed. Any
/// other value is refused, with the index that was asked of it.
pub open spec fn index_value(value: ObjectView, index: ObjectView) -> Result<
    ObjectView,
    EvaluationErrorView,
> {
    match value {
        ObjectView::Array(items) => index_array(items, index),
        ObjectView::HashMap(pairs) => index_hashmap(pairs, index),
        _ => Err(EvaluationErrorView::NotIndexable { value, index: Some(index) }),
    }
}

/// The names of the built-in functions.
pub open spec fn is_builtin(name: Seq<char>) -> bool {
    name == "len"@ || name == "first"@ || name == "last"@ || name == "rest"@ || name == "push"@
        || name == "puts"@
}

/// A length as a value: the greatest integer where it does not fit.
pub open spec fn length_value(length: nat) -> i64 {
    if length <= i64::MAX {
        length as i64
    } else {
        i64::MAX
    }
}

/// What a built-in function gives for its arguments.
///
/// `len` takes one string or one array and gives its length, of a string the
/// number of its bytes. `first`, `last` and `rest` take one array: its first
/// item, its last item, all but its first; `first` and `last` refuse an empty
/// array, `rest` one of fewer than two items. `push` takes an array and a
/// value, and gives a new array with the value behind the last item. `puts`
/// takes any values and writes one line, the values as they are shown with a
/// space between each two.
pub open spec fn call_builtin(env: EnvironmentView, values: Seq<ObjectView>, name: Seq<char>)
    -> Outcome<ObjectView>
    recommends
        is_builtin(name),
{
    if name == "len"@ {
        if values.len() == 1 && values[0] is Str {
            (
                env,
                Ok(
                    ObjectView::Integer(
                        length_value(vstd::utf8::encode_utf8(values[0]->Str_0).len()),
                    ),
                ),
            )
        } else if values.len() == 1 && values[0] is Array {
            (env, Ok(ObjectView::Integer(length_value(values[0]->Array_0.len()))))
        } else {
            (env, Err(EvaluationErrorView::InvalidArguments { values, expected: "string"@ }))
        }
    } else if name == "first"@ {
        if values.len() == 1 && values[0] is Array {
            let items = values[0]->Array_0;
            if items.len() > 0 {
                (env, Ok(items[0]))
            } else {
                (env, Err(EvaluationErrorView::IndexOutOfBounds { value: values[0], index: 0 }))
            }
        } else {
            (env, Err(EvaluationErrorView::InvalidArguments { values, expected: "array"@ }))
        }
    } else if name == "last"@ {
        if values.len() == 1 && values[0] is Array {
            let items = values[0]->Array_0;
            if items.len() > 0 {
                (env, Ok(items[items.len() - 1]))
            } else {
                (env, Err(EvaluationErrorView::IndexOutOfBounds { value: values[0], index: 0 }))
            }
        } else {
            (env, Err(EvaluationErrorView::InvalidArguments { values, expected: "array"@ }))
        }
    } else if name == "rest"@ {
        if values.len() == 1 && values[0] is Array {
            let items = values[0]->Array_0;
            if items.len() >= 2 {
                (env, Ok(ObjectView::Array(items.skip(1))))
            } else {
                (env, Err(EvaluationErrorView::IndexOutOfBounds { value: values[0], index: 1 }))
            }
        } else {
            (env, Err(EvaluationErrorView::InvalidArguments { values, expected: "array"@ }))
        }
    } else if name == "push"@ {
        if values.len() == 2 && values[0] is Array {
            (env, Ok(ObjectView::Array(values[0]->Array_0.push(values[1]))))
        } else {
            (
                env,
                Err(EvaluationErrorView::InvalidArguments { values, expected: "array, object"@ }),
            )
        }
    } else {
        (env.write(join(display_texts(values), " "@)), Ok(ObjectView::Null))
    }
}

/// The environment with each name bound in `scope` to the value at its place,
/// from place `from` on, as far as both names and values go.
pub open spec fn bind_parameters(
    env: EnvironmentView,
    scope: usize,
    names: Seq<Seq<char>>,
    values: Seq<ObjectView>,
    from: nat,
) -> EnvironmentView
    decreases names.len() - from,
{
    if from >= names.len() || from >= values.len() {
        env
    } else {
        bind_parameters(
            env.bind(scope, names[from as int], values[from as int]),
            scope,
            names,
            values,
            from + 1,
        )
    }
}

/// The environment with the built-in functions bound in the outermost scope,
/// each under its name.
pub open spec fn with_builtins(env: EnvironmentView) -> EnvironmentView {
    env.bind(0, "len"@, ObjectView::BuiltInFunction("len"@)).bind(
        0,
        "first"@,
        ObjectView::BuiltInFunction("first"@),
    ).bind(0, "last"@, ObjectView::BuiltInFunction("last"@)).bind(
        0,
        "rest"@,
        ObjectView::BuiltInFunction("rest"@),
    ).bind(0, "push"@, ObjectView::BuiltInFunction("push"@)).bind(
        0,
        "puts"@,
        ObjectView::BuiltInFunction("puts"@),
    )
}

/// An expression. Literals are their value; a name is what the environment
/// binds it to as seen from `scope`.
pub open spec fn eval_expression(
    depth: nat,
    env: EnvironmentView,
    scope: usize,
    expression: ExpressionView,
) -> Outcome<ObjectView>
    decreases depth, 0nat, 0nat,
{
    if depth == 0 {
        (env, Err(EvaluationErrorView::DepthExceeded))
    } else {
        let inner = (depth - 1) as nat;
        match expression {
            ExpressionView::IntegerLiteral { value } => (env, Ok(ObjectView::Integer(value))),
            ExpressionView::StringLiteral { value } => (env, Ok(ObjectView::Str(value))),
            ExpressionView::Boolean { value } => (env, Ok(ObjectView::Bool(value))),
            ExpressionView::IdentifierExpression { identifier } => (
                env,
                Ok(env.lookup(scope, identifier)),
            ),
            ExpressionView::Array { array } => eval_array(inner, env, scope, array),
            ExpressionView::HashMap { pairs } => eval_hashmap(inner, env, scope, pairs),
            ExpressionView::Index { array, index } => eval_index(inner, env, scope, *array, *index),
            ExpressionView::InfixExpression { operation, left, right } => eval_infix(
                inner,
                env,
                scope,
                operation,
                *left,
                *right,
            ),
            ExpressionView::IfExpression { condition, consequence, alternative } => eval_condition(
                inner,
                env,
                scope,
                *condition,
                consequence,
                alternative,
            ),
            ExpressionView::PrefixExpression { operation, right } => eval_prefix(
                inner,
                env,
                scope,
                operation,
                *right,
            ),
            ExpressionView::FunctionExpression { arguments, body } => eval_function(
                env,
                scope,
                arguments,
                body,
            ),
            ExpressionView::CallExpression { function, arguments } => eval_call(
                inner,
                env,
                scope,
                *function,
                arguments,
            ),
        }
    }
}

/// The expressions from place `from` on, in order, each in the environment
/// that the one before left behind: their values behind `done`, or the first
/// error.
pub open spec fn eval_expressions(
    depth: nat,
    env: EnvironmentView,
    scope: usize,
    expressions: Seq<ExpressionView>,
    from: nat,
    done: Seq<ObjectView>,
) -> Outcome<Seq<ObjectView>>
    decreases depth, 1nat, expressions.len() - from,
{
    if from >= expressions.len() {
        (env, Ok(done))
    } else {
        match eval_expression(depth, env, scope, expressions[from as int]) {
            (after, Err(error)) => (after, Err(error)),
            (after, Ok(value)) => eval_expressions(
                depth,
                after,
                scope,
                expressions,
                from + 1,
                done.push(value),
            ),
        }
    }
}

/// An array literal: its items in order.
pub open spec fn eval_array(
    depth: nat,
    env: EnvironmentView,
    scope: usize,
    array: Seq<ExpressionView>,
) -> Outcome<ObjectView>
    decreases depth, 3nat, 0nat,
{
    match eval_expressions(depth, env, scope, array, 0, Seq::empty()) {
        (after, Err(error)) => (after, Err(error)),
        (after, Ok(values)) => (after, Ok(ObjectView::Array(values))),
    }
}

/// The pairs of a hash map literal from place `from` on, in order: of each
/// the key, then the value, then the pair goes into `map`, where a later pair
/// takes the place of an earlier one with the same key. A key that is not
/// hashable is refused once its value has been evaluated.
pub open spec fn eval_pairs(
    depth: nat,
    env: EnvironmentView,
    scope: usize,
    pairs: Seq<(ExpressionView, ExpressionView)>,
    from: nat,
    map: Seq<(ObjectView, ObjectView)>,
) -> Outcome<ObjectView>
    decreases depth, 1nat, pairs.len() - from,
{
    if from >= pairs.len() {
        (env, Ok(ObjectView::HashMap(map)))
    } else {
        match eval_expression(depth, env, scope, pairs[from as int].0) {
            (after_key, Err(error)) => (after_key, Err(error)),
            (after_key, Ok(key)) => match eval_expression(
                depth,
                after_key,
                scope,
                pairs[from as int].1,
            ) {
                (after, Err(error)) => (after, Err(error)),
                (after, Ok(value)) => if !hashable(key) {
                    (after, Err(EvaluationErrorView::NotHashable { value: key }))
                } else {
                    eval_pairs(depth, after, scope, pairs, from + 1, insert(map, key, value))
                },
            },
        }
    }
}

/// A hash map literal.
pub open spec fn eval_hashmap(
    depth: nat,
    env: EnvironmentView,
    scope: usize,
    pairs: Seq<(ExpressionView, ExpressionView)>,
) -> Outcome<ObjectView>
    decreases depth, 3nat, 0nat,
{
    eval_pairs(depth, env, scope, pairs, 0, Seq::empty())
}

/// An index expression: the indexed value, then the index, then the lookup.
pub open spec fn eval_index(
    depth: nat,
    env: EnvironmentView,
    scope: usize,
    array: ExpressionView,
    index: ExpressionView,
) -> Outcome<ObjectView>
    decreases depth, 3nat, 0nat,
{
    match eval_expression(depth, env, scope, array) {
        (after_array, Err(error)) => (after_array, Err(error)),
        (after_array, Ok(value)) => match eval_expression(depth, after_array, scope, index) {
            (after, Err(error)) => (after, Err(error)),
            (after, Ok(key)) => (after, index_value(value, key)),
        },
    }
}

/// A binary operation: the left operand, then the right one, then the
/// operator.
pub open spec fn eval_infix(
    depth: nat,
    env: EnvironmentView,
    scope: usize,
    operation: InfixOperation,
    left: ExpressionView,
    right: ExpressionView,
) -> Outcome<ObjectView>
    decreases depth, 3nat, 0nat,
{
    match eval_expression(depth, env, scope, left) {
        (after_left, Err(error)) => (after_left, Err(error)),
        (after_left, Ok(left_value)) => match eval_expression(depth, after_left, scope, right) {
            (after, Err(error)) => (after, Err(error)),
            (after, Ok(right_value)) => (after, apply_infix(operation, left_value, right_value)),
        },
    }
}

/// A unary operation: the operand, then the operator.
pub open spec fn eval_prefix(
    depth: nat,
    env: EnvironmentView,
    scope: usize,
    operation: PrefixOperation,
    right: ExpressionView,
) -> Outcome<ObjectView>
    decreases depth, 3nat, 0nat,
{
    match eval_expression(depth, env, scope, right) {
        (after, Err(error)) => (after, Err(error)),
        (after, Ok(value)) => (after, apply_prefix(operation, value)),
    }
}

/// `if`: the condition, which must give a boolean; then the block it picks,
/// in the same scope. Without a block for `false`, that case gives `Null`.
pub open spec fn eval_condition(
    depth: nat,
    env: EnvironmentView,
    scope: usize,
    condition: ExpressionView,
    consequence: Seq<StatementView>,
    alternative: Option<Seq<StatementView>>,
) -> Outcome<ObjectView>
    decreases depth, 3nat, 0nat,
{
    match eval_expression(depth, env, scope, condition) {
        (after, Err(error)) => (after, Err(error)),
        (after, Ok(ObjectView::Bool(true))) => eval_statements(depth, after, scope, consequence, 0),
        (after, Ok(ObjectView::Bool(false))) => match alternative {
            Some(block) => eval_statements(depth, after, scope, block, 0),
            None => (after, Ok(ObjectView::Null)),
        },
        (after, Ok(value)) => (
            after,
            Err(EvaluationErrorView::UnexpectedType { value, expected: "bool"@ }),
        ),
    }
}

/// A function literal: a function value that names a new, empty scope inside
/// `scope`. That scope is the function's own, so two functions are the same
/// one exactly if they name the same scope. Nothing is copied: what the
/// function sees of `scope`, it sees when it is called.
pub open spec fn eval_function(
    env: EnvironmentView,
    scope: usize,
    arguments: Seq<Seq<char>>,
    body: Seq<StatementView>,
) -> Outcome<ObjectView> {
    (
        env.child(scope),
        Ok(ObjectView::Function(arguments, body, env.scopes.len() as usize)),
    )
}

/// The call of a function value: a new scope inside the one that the function
/// names, the parameters bound there to the arguments place by place, then
/// the body as a block in that scope.
pub open spec fn eval_monkey_call(
    depth: nat,
    env: EnvironmentView,
    values: Seq<ObjectView>,
    names: Seq<Seq<char>>,
    body: Seq<StatementView>,
    closure: usize,
) -> Outcome<ObjectView>
    decreases depth, 3nat, 0nat,
{
    let scope = env.scopes.len() as usize;
    eval_statements(
        depth,
        bind_parameters(env.child(closure), scope, names, values, 0),
        scope,
        body,
        0,
    )
}

/// Whether a value can be called: a function value, or a built-in function
/// that there is.
pub open spec fn callable(value: ObjectView) -> bool {
    match value {
        ObjectView::Function(_, _, _) => true,
        ObjectView::BuiltInFunction(name) => is_builtin(name),
        _ => false,
    }
}

/// A call: the callee, which must be a function value or a built-in function
/// and is refused otherwise; then the arguments in order, in the caller's
/// scope; then the call itself.
pub open spec fn eval_call(
    depth: nat,
    env: EnvironmentView,
    scope: usize,
    function: ExpressionView,
    arguments: Seq<ExpressionView>,
) -> Outcome<ObjectView>
    decreases depth, 4nat, 0nat,
{
    match eval_expression(depth, env, scope, function) {
        (after_function, Err(error)) => (after_function, Err(error)),
        (after_function, Ok(callee)) => if !callable(callee) {
            (after_function, Err(EvaluationErrorView::NotCallable { value: callee }))
        } else {
            match eval_expressions(depth, after_function, scope, arguments, 0, Seq::empty()) {
                (after, Err(error)) => (after, Err(error)),
                (after, Ok(values)) => match callee {
                    ObjectView::Function(names, body, closure) => eval_monkey_call(
                        depth,
                        after,
                        values,
                        names,
                        body,
                        closure,
                    ),
                    ObjectView::BuiltInFunction(name) => call_builtin(after, values, name),
                    _ => (after, Err(EvaluationErrorView::NotCallable { value: callee })),
                },
            }
        },
    }
}

/// A statement: `let` binds its value in `scope` itself, `return` gives its
/// value, a bare expression is evaluated and its value dropped.
pub open spec fn eval_statement(
    depth: nat,
    env: EnvironmentView,
    scope: usize,
    statement: StatementView,
) -> Outcome<Option<ObjectView>>
    decreases depth, 1nat, 0nat,
{
    match statement {
        StatementView::ReturnStatement { expression } => match eval_expression(
            depth,
            env,
            scope,
            expression,
        ) {
            (after, Err(error)) => (after, Err(error)),
            (after, Ok(value)) => (after, Ok(Some(value))),
        },
        StatementView::LetStatement { identifier, expression } => match eval_expression(
            depth,
            env,
            scope,
            expression,
        ) {
            (after, Err(error)) => (after, Err(error)),
            (after, Ok(value)) => (after.bind(scope, identifier, value), Ok(None)),
        },
        StatementView::ExpressionStatement { expression } => match eval_expression(
            depth,
            env,
            scope,
            expression,
        ) {
            (after, Err(error)) => (after, Err(error)),
            (after, Ok(_)) => (after, Ok(None)),
        },
    }
}

/// A block from its statement at place `from` on: the statements in order up
/// to the first `return`, whose value is the block's, or the first error. A
/// block that comes to its end gives `Null`.
pub open spec fn eval_statements(
    depth: nat,
    env: EnvironmentView,
    scope: usize,
    statements: Seq<StatementView>,
    from: nat,
) -> Outcome<ObjectView>
    decreases depth, 2nat, statements.len() - from,
{
    if from >= statements.len() {
        (env, Ok(ObjectView::Null))
    } else {
        match eval_statement(depth, env, scope, statements[from as int]) {
            (after, Err(error)) => (after, Err(error)),
            (after, Ok(Some(value))) => (after, Ok(value)),
            (after, Ok(None)) => eval_statements(depth, after, scope, statements, from + 1),
        }
    }
}

/// A program run on its own: in a new environment that holds the built-in
/// functions and nothing else.
pub open spec fn eval_program(depth: nat, program: Seq<StatementView>) -> Outcome<ObjectView> {
    eval_statements(depth, with_builtins(EnvironmentView::fresh()), 0, program, 0)
}

/// Arithmetic is exact wherever the exact result fits 64 bits.
pub proof fn lemma_arithmetic_exact(a: i64, b: i64)
    ensures
        i64::MIN <= a + b <= i64::MAX ==> apply_infix(
            InfixOperation::Sum,
            ObjectView::Integer(a),
            ObjectView::Integer(b),
        ) == Ok::<ObjectView, EvaluationErrorView>(ObjectView::Integer((a + b) as i64)),
        i64::MIN <= a - b <= i64::MAX ==> apply_infix(
            InfixOperation::Subtraction,
            ObjectView::Integer(a),
            ObjectView::Integer(b),
        ) == Ok::<ObjectView, EvaluationErrorView>(ObjectView::Integer((a - b) as i64)),
        i64::MIN <= a * b <= i64::MAX ==> apply_infix(
            InfixOperation::Product,
            ObjectView::Integer(a),
            ObjectView::Integer(b),
        ) == Ok::<ObjectView, EvaluationErrorView>(ObjectView::Integer((a * b) as i64)),
        b != 0 && !(a == i64::MIN && b == -1) ==> i64::MIN <= truncated_quotient(a as int, b as int)
            <= i64::MAX && apply_infix(
            InfixOperation::Division,
            ObjectView::Integer(a),
            ObjectView::Integer(b),
        ) == Ok::<ObjectView, EvaluationErrorView>(
            ObjectView::Integer(truncated_quotient(a as int, b as int) as i64),
        ),
        i64::MIN < a ==> apply_prefix(PrefixOperation::Negative, ObjectView::Integer(a)) == Ok::<
            ObjectView,
            EvaluationErrorView,
        >(ObjectView::Integer((-a) as i64)),
{
    if i64::MIN <= a * b <= i64::MAX {
        let product = a * b;
        if product >= 0 {
            vstd::arithmetic::div_mod::lemma_small_mod(
                product as nat,
                0x1_0000_0000_0000_0000nat,
            );
        } else {
            vstd::arithmetic::div_mod::lemma_small_mod(
                (product + 0x1_0000_0000_0000_0000) as nat,
                0x1_0000_0000_0000_0000nat,
            );
            vstd::arithmetic::div_mod::lemma_mod_add_multiples_vanish(
                product,
                0x1_0000_0000_0000_0000int,
            );
        }
    }
    if b != 0 && !(a == i64::MIN && b == -1) {
        let x: int = if a >= 0 {
            a as int
        } else {
            -a
        };
        let d: int = if b > 0 {
            b as int
        } else {
            -b
        };
        vstd::arithmetic::div_mod::lemma_div_pos_is_pos(x, d);
        vstd::arithmetic::div_mod::lemma_div_basics_5(x, d);
        if x > 0 && d > 1 {
            vstd::arithmetic::div_mod::lemma_div_decreases(x, d);
        }
        vstd::arithmetic::div_mod::lemma_div_basics(x);
    }
}

/// Of the built-in functions only `puts` changes the environment: no other
/// one binds or writes anything, whatever its arguments.
pub proof fn lemma_builtins_keep_environment(
    env: EnvironmentView,
    values: Seq<ObjectView>,
    name: Seq<char>,
)
    requires
        is_builtin(name),
        name != "puts"@,
    ensures
        call_builtin(env, values, name).0 == env,
{
}

/// `push` gives a new array: the items of the old one, then the new item.
/// Nothing that the environment binds is changed by it.
pub proof fn lemma_push_appends(env: EnvironmentView, items: Seq<ObjectView>, item: ObjectView)
    ensures
        call_builtin(env, seq![ObjectView::Array(items), item], "push"@) == (
            env,
            Ok::<ObjectView, EvaluationErrorView>(ObjectView::Array(items.push(item))),
        ),
{
    reveal_strlit("push");
    reveal_strlit("len");
    reveal_strlit("first");
    reveal_strlit("last");
    reveal_strlit("rest");
    assert("push"@.len() == 4 && "push"@[0] == 'p');
    assert("len"@.len() == 3);
    assert("first"@.len() == 5);
    assert("last"@.len() == 4 && "last"@[0] == 'l');
    assert("rest"@.len() == 4 && "rest"@[0] == 'r');
}

/// The first `return` ends its block: a block that comes to a `return`
/// gives what the returned expression gives, whatever stands behind it.
pub proof fn lemma_return_ends_block(
    depth: nat,
    env: EnvironmentView,
    scope: usize,
    statements: Seq<StatementView>,
    from: nat,
    expression: ExpressionView,
)
    requires
        from < statements.len(),
        statements[from as int] == (StatementView::ReturnStatement { expression }),
    ensures
        eval_statements(depth, env, scope, statements, from) == eval_expression(
            depth,
            env,
            scope,
            expression,
        ),
{
    let step = eval_statement(depth, env, scope, statements[from as int]);
    let inner = eval_expression(depth, env, scope, expression);
    assert(step.0 == inner.0);
    match inner.1 {
        Ok(value) => {
            assert(step.1 == Ok::<Option<ObjectView>, EvaluationErrorView>(Some(value)));
        },
        Err(error) => {
            assert(step.1 == Err::<Option<ObjectView>, EvaluationErrorView>(error));
        },
    }
}

/// The keys of a hash map literal: where the literal gives a value, that
/// value is a hash map whose keys are hashable, and none of them stands
/// twice.
pub proof fn lemma_hashmap_literal_keys(
    depth: nat,
    env: EnvironmentView,
    scope: usize,
    pairs: Seq<(ExpressionView, ExpressionView)>,
    from: nat,
    map: Seq<(ObjectView, ObjectView)>,
)
    requires
        crate::evaluator::object::distinct_keys(map),
    ensures
        eval_pairs(depth, env, scope, pairs, from, map).1 matches Ok(value) ==> value
            matches ObjectView::HashMap(found) && crate::evaluator::object::distinct_keys(found),
    decreases pairs.len() - from,
{
    if from < pairs.len() {
        match eval_expression(depth, env, scope, pairs[from as int].0) {
            (after_key, Ok(key)) => match eval_expression(
                depth,
                after_key,
                scope,
                pairs[from as int].1,
            ) {
                (after, Ok(value)) => {
                    if hashable(key) {
                        crate::evaluator::object::lemma_insert_keeps_distinct_keys(map, key, value);
                        lemma_hashmap_literal_keys(
                            depth,
                            after,
                            scope,
                            pairs,
                            from + 1,
                            insert(map, key, value),
                        );
                    }
                },
                _ => {},
            },
            _ => {},
        }
    }
}

/// Whether an evaluation came to its end within the depth it was allowed.
pub open spec fn finished<T>(outcome: Outcome<T>) -> bool {
    outcome.1 != Err::<T, EvaluationErrorView>(EvaluationErrorView::DepthExceeded)
}

/// The depth decides nothing but whether an evaluation comes to its end: one
/// that does, gives the same and leaves the same behind at every greater
/// depth.
pub proof fn lemma_deeper_expression(
    depth: nat,
    deeper: nat,
    env: EnvironmentView,
    scope: usize,
    expression: ExpressionView,
)
    requires
        depth <= deeper,
    ensures
        finished(eval_expression(depth, env, scope, expression)) ==> eval_expression(
            deeper,
            env,
            scope,
            expression,
        ) == eval_expression(depth, env, scope, expression),
    decreases depth, 0nat, 0nat,
{
    if depth > 0 {
        let d = (depth - 1) as nat;
        let e = (deeper - 1) as nat;
        match expression {
            ExpressionView::Array { array } => {
                lemma_deeper_array(d, e, env, scope, array);
            },
            ExpressionView::HashMap { pairs } => {
                lemma_deeper_pairs(d, e, env, scope, pairs, 0, Seq::empty());
            },
            ExpressionView::Index { array, index } => {
                lemma_deeper_index(d, e, env, scope, *array, *index);
            },
            ExpressionView::InfixExpression { operation, left, right } => {
                lemma_deeper_infix(d, e, env, scope, operation, *left, *right);
            },
            ExpressionView::IfExpression { condition, consequence, alternative } => {
                lemma_deeper_condition(d, e, env, scope, *condition, consequence, alternative);
            },
            ExpressionView::PrefixExpression { operation, right } => {
                lemma_deeper_prefix(d, e, env, scope, operation, *right);
            },
            ExpressionView::CallExpression { function, arguments } => {
                lemma_deeper_call(d, e, env, scope, *function, arguments);
            },
            _ => {},
        }
    }
}

proof fn lemma_deeper_expressions(
    depth: nat,
    deeper: nat,
    env: EnvironmentView,
    scope: usize,
    expressions: Seq<ExpressionView>,
    from: nat,
    done: Seq<ObjectView>,
)
    requires
        depth <= deeper,
    ensures
        finished(eval_expressions(depth, env, scope, expressions, from, done))
            ==> eval_expressions(deeper, env, scope, expressions, from, done) == eval_expressions(
            depth,
            env,
            scope,
            expressions,
            from,
            done,
        ),
    decreases depth, 1nat, expressions.len() - from,
{
    if from < expressions.len() {
        lemma_deeper_expression(depth, deeper, env, scope, expressions[from as int]);
        match eval_expression(depth, env, scope, expressions[from as int]) {
            (after, Ok(value)) => {
                lemma_deeper_expressions(
                    depth,
                    deeper,
                    after,
                    scope,
                    expressions,
                    from + 1,
                    done.push(value),
                );
            },
            _ => {},
        }
    }
}

proof fn lemma_deeper_array(
    depth: nat,
    deeper: nat,
    env: EnvironmentView,
    scope: usize,
    array: Seq<ExpressionView>,
)
    requires
        depth <= deeper,
    ensures
        finished(eval_array(depth, env, scope, array)) ==> eval_array(deeper, env, scope, array)
            == eval_array(depth, env, scope, array),
    decreases depth, 3nat, 0nat,
{
    lemma_deeper_expressions(depth, deeper, env, scope, array, 0, Seq::empty());
}

proof fn lemma_deeper_pairs(
    depth: nat,
    deeper: nat,
    env: EnvironmentView,
    scope: usize,
    pairs: Seq<(ExpressionView, ExpressionView)>,
    from: nat,
    map: Seq<(ObjectView, ObjectView)>,
)
    requires
        depth <= deeper,
    ensures
        finished(eval_pairs(depth, env, scope, pairs, from, map)) ==> eval_pairs(
            deeper,
            env,
            scope,
            pairs,
            from,
            map,
        ) == eval_pairs(depth, env, scope, pairs, from, map),
        from == 0 && map == Seq::<(ObjectView, ObjectView)>::empty() && finished(
            eval_hashmap(depth, env, scope, pairs),
        ) ==> eval_hashmap(deeper, env, scope, pairs) == eval_hashmap(depth, env, scope, pairs),
    decreases depth, 1nat, pairs.len() - from,
{
    if from < pairs.len() {
        lemma_deeper_expression(depth, deeper, env, scope, pairs[from as int].0);
        match eval_expression(depth, env, scope, pairs[from as int].0) {
            (after_key, Ok(key)) => {
                lemma_deeper_expression(depth, deeper, after_key, scope, pairs[from as int].1);
                match eval_expression(depth, after_key, scope, pairs[from as int].1) {
                    (after, Ok(value)) => {
                        if hashable(key) {
                            lemma_deeper_pairs(
                                depth,
                                deeper,
                                after,
                                scope,
                                pairs,
                                from + 1,
                                insert(map, key, value),
                            );
                        }
                    },
                    _ => {},
                }
            },
            _ => {},
        }
    }
}

proof fn lemma_deeper_index(
    depth: nat,
    deeper: nat,
    env: EnvironmentView,
    scope: usize,
    array: ExpressionView,
    index: ExpressionView,
)
    requires
        depth <= deeper,
    ensures
        finished(eval_index(depth, env, scope, array, index)) ==> eval_index(
            deeper,
            env,
            scope,
            array,
            index,
        ) == eval_index(depth, env, scope, array, index),
    decreases depth, 3nat, 0nat,
{
    lemma_deeper_expression(depth, deeper, env, scope, array);
    match eval_expression(depth, env, scope, array) {
        (after, Ok(_)) => {
            lemma_deeper_expression(depth, deeper, after, scope, index);
        },
        _ => {},
    }
}

proof fn lemma_deeper_infix(
    depth: nat,
    deeper: nat,
    env: EnvironmentView,
    scope: usize,
    operation: InfixOperation,
    left: ExpressionView,
    right: ExpressionView,
)
    requires
        depth <= deeper,
    ensures
        finished(eval_infix(depth, env, scope, operation, left, right)) ==> eval_infix(
            deeper,
            env,
            scope,
            operation,
            left,
            right,
        ) == eval_infix(depth, env, scope, operation, left, right),
    decreases depth, 3nat, 0nat,
{
    lemma_deeper_expression(depth, deeper, env, scope, left);
    match eval_expression(depth, env, scope, left) {
        (after, Ok(_)) => {
            lemma_deeper_expression(depth, deeper, after, scope, right);
        },
        _ => {},
    }
}

proof fn lemma_deeper_prefix(
    depth: nat,
    deeper: nat,
    env: EnvironmentView,
    scope: usize,
    operation: PrefixOperation,
    right: ExpressionView,
)
    requires
        depth <= deeper,
    ensures
        finished(eval_prefix(depth, env, scope, operation, right)) ==> eval_prefix(
            deeper,
            env,
            scope,
            operation,
            right,
        ) == eval_prefix(depth, env, scope, operation, right),
    decreases depth, 3nat, 0nat,
{
    lemma_deeper_expression(depth, deeper, env, scope, right);
}

proof fn lemma_deeper_condition(
    depth: nat,
    deeper: nat,
    env: EnvironmentView,
    scope: usize,
    condition: ExpressionView,
    consequence: Seq<StatementView>,
    alternative: Option<Seq<StatementView>>,
)
    requires
        depth <= deeper,
    ensures
        finished(eval_condition(depth, env, scope, condition, consequence, alternative))
            ==> eval_condition(deeper, env, scope, condition, consequence, alternative)
            == eval_condition(depth, env, scope, condition, consequence, alternative),
    decreases depth, 3nat, 0nat,
{
    lemma_deeper_expression(depth, deeper, env, scope, condition);
    match eval_expression(depth, env, scope, condition) {
        (after, Ok(ObjectView::Bool(true))) => {
            lemma_deeper_statements(depth, deeper, after, scope, consequence, 0);
        },
        (after, Ok(ObjectView::Bool(false))) => {
            match alternative {
                Some(block) => {
                    lemma_deeper_statements(depth, deeper, after, scope, block, 0);
                },
                None => {},
            }
        },
        _ => {},
    }
}

proof fn lemma_deeper_monkey_call(
    depth: nat,
    deeper: nat,
    env: EnvironmentView,
    values: Seq<ObjectView>,
    names: Seq<Seq<char>>,
    body: Seq<StatementView>,
    closure: usize,
)
    requires
        depth <= deeper,
    ensures
        finished(eval_monkey_call(depth, env, values, names, body, closure)) ==> eval_monkey_call(
            deeper,
            env,
            values,
            names,
            body,
            closure,
        ) == eval_monkey_call(depth, env, values, names, body, closure),
    decreases depth, 3nat, 0nat,
{
    let scope = env.scopes.len() as usize;
    lemma_deeper_statements(
        depth,
        deeper,
        bind_parameters(env.child(closure), scope, names, values, 0),
        scope,
        body,
        0,
    );
}

proof fn lemma_deeper_call(
    depth: nat,
    deeper: nat,
    env: EnvironmentView,
    scope: usize,
    function: ExpressionView,
    arguments: Seq<ExpressionView>,
)
    requires
        depth <= deeper,
    ensures
        finished(eval_call(depth, env, scope, function, arguments)) ==> eval_call(
            deeper,
            env,
            scope,
            function,
            arguments,
        ) == eval_call(depth, env, scope, function, arguments),
    decreases depth, 4nat, 0nat,
{
    lemma_deeper_expression(depth, deeper, env, scope, function);
    match eval_expression(depth, env, scope, function) {
        (after_function, Ok(callee)) => {
            lemma_deeper_expressions(
                depth,
                deeper,
                after_function,
                scope,
                arguments,
                0,
                Seq::empty(),
            );
            match eval_expressions(depth, after_function, scope, arguments, 0, Seq::empty()) {
                (after, Ok(values)) => {
                    match callee {
                        ObjectView::Function(names, body, closure) => {
                            lemma_deeper_monkey_call(
                                depth,
                                deeper,
                                after,
                                values,
                                names,
                                body,
                                closure,
                            );
                        },
                        _ => {},
                    }
                },
                _ => {},
            }
        },
        _ => {},
    }
}

proof fn lemma_deeper_statement(
    depth: nat,
    deeper: nat,
    env: EnvironmentView,
    scope: usize,
    statement: StatementView,
)
    requires
        depth <= deeper,
    ensures
        finished(eval_statement(depth, env, scope, statement)) ==> eval_statement(
            deeper,
            env,
            scope,
            statement,
        ) == eval_statement(depth, env, scope, statement),
    decreases depth, 1nat, 0nat,
{
    match statement {
        StatementView::ReturnStatement { expression } => {
            lemma_deeper_expression(depth, deeper, env, scope, expression);
        },
        StatementView::LetStatement { identifier, expression } => {
            lemma_deeper_expression(depth, deeper, env, scope, expression);
        },
        StatementView::ExpressionStatement { expression } => {
            lemma_deeper_expression(depth, deeper, env, scope, expression);
        },
    }
}

/// A block that comes to its end within a depth gives the same and leaves the
/// same behind at every greater depth.
pub proof fn lemma_deeper_statements(
    depth: nat,
    deeper: nat,
    env: EnvironmentView,
    scope: usize,
    statements: Seq<StatementView>,
    from: nat,
)
    requires
        depth <= deeper,
    ensures
        finished(eval_statements(depth, env, scope, statements, from)) ==> eval_statements(
            deeper,
            env,
            scope,
            statements,
            from,
        ) == eval_statements(depth, env, scope, statements, from),
    decreases depth, 2nat, statements.len() - from,
{
    if from < statements.len() {
        lemma_deeper_statement(depth, deeper, env, scope, statements[from as int]);
        match eval_statement(depth, env, scope, statements[from as int]) {
            (after, Ok(None)) => {
                lemma_deeper_statements(depth, deeper, after, scope, statements, from + 1);
            },
            _ => {},
        }
    }
}

proof fn lemma_grown_twice(env: EnvironmentView, middle: EnvironmentView, last: EnvironmentView)
    requires
        last.extends(middle),
        middle.extends(env),
    ensures
        last.extends(env),
{
    crate::evaluator::env::lemma_extends(env, middle, last, 0, Seq::empty(), ObjectView::Null);
}

proof fn lemma_grows_by_binding(
    env: EnvironmentView,
    scope: usize,
    names: Seq<Seq<char>>,
    values: Seq<ObjectView>,
    from: nat,
)
    ensures
        bind_parameters(env, scope, names, values, from).extends(env),
    decreases names.len() - from,
{
    crate::evaluator::env::lemma_extends(env, env, env, scope, Seq::empty(), ObjectView::Null);
    if !(from >= names.len() || from >= values.len()) {
        let bound = env.bind(scope, names[from as int], values[from as int]);
        crate::evaluator::env::lemma_extends(
            env,
            env,
            env,
            scope,
            names[from as int],
            values[from as int],
        );
        lemma_grows_by_binding(bound, scope, names, values, from + 1);
        lemma_grown_twice(env, bound, bind_parameters(bound, scope, names, values, from + 1));
    }
}

proof fn lemma_grows_by_builtin(env: EnvironmentView, values: Seq<ObjectView>, name: Seq<char>)
    ensures
        call_builtin(env, values, name).0.extends(env),
{
    crate::evaluator::env::lemma_extends(
        env,
        env,
        env,
        0,
        join(display_texts(values), " "@),
        ObjectView::Null,
    );
}

/// Evaluation only grows the environment. Whatever an expression gives, value
/// or error, every scope that was there is still there afterwards, at its
/// place and inside the same scope, and every line that was written still
/// stands before the new ones: the scope of a function value stays where it
/// is.
pub proof fn lemma_grows_expression(
    depth: nat,
    env: EnvironmentView,
    scope: usize,
    expression: ExpressionView,
)
    ensures
        eval_expression(depth, env, scope, expression).0.extends(env),
    decreases depth, 0nat, 0nat,
{
    crate::evaluator::env::lemma_extends(env, env, env, scope, Seq::empty(), ObjectView::Null);
    if depth > 0 {
        let d = (depth - 1) as nat;
        match expression {
            ExpressionView::Array { array } => {
                lemma_grows_expressions(d, env, scope, array, 0, Seq::empty());
            },
            ExpressionView::HashMap { pairs } => {
                lemma_grows_pairs(d, env, scope, pairs, 0, Seq::empty());
            },
            ExpressionView::Index { array, index } => {
                lemma_grows_index(d, env, scope, *array, *index);
            },
            ExpressionView::InfixExpression { operation, left, right } => {
                lemma_grows_infix(d, env, scope, operation, *left, *right);
            },
            ExpressionView::IfExpression { condition, consequence, alternative } => {
                lemma_grows_condition(d, env, scope, *condition, consequence, alternative);
            },
            ExpressionView::PrefixExpression { operation, right } => {
                lemma_grows_prefix(d, env, scope, operation, *right);
            },
            ExpressionView::CallExpression { function, arguments } => {
                lemma_grows_call(d, env, scope, *function, arguments);
            },
            _ => {},
        }
    }
}

proof fn lemma_grows_expressions(
    depth: nat,
    env: EnvironmentView,
    scope: usize,
    expressions: Seq<ExpressionView>,
    from: nat,
    done: Seq<ObjectView>,
)
    ensures
        eval_expressions(depth, env, scope, expressions, from, done).0.extends(env),
        from == 0 && done == Seq::<ObjectView>::empty() ==> eval_array(
            depth,
            env,
            scope,
            expressions,
        ).0.extends(env),
    decreases depth, 1nat, expressions.len() - from,
{
    crate::evaluator::env::lemma_extends(env, env, env, scope, Seq::empty(), ObjectView::Null);
    if from < expressions.len() {
        lemma_grows_expression(depth, env, scope, expressions[from as int]);
        match eval_expression(depth, env, scope, expressions[from as int]) {
            (after, Ok(value)) => {
                lemma_grows_expressions(
                    depth,
                    after,
                    scope,
                    expressions,
                    from + 1,
                    done.push(value),
                );
                lemma_grown_twice(
                    env,
                    after,
                    eval_expressions(depth, after, scope, expressions, from + 1, done.push(value)).0,
                );
            },
            _ => {},
        }
    }
}

proof fn lemma_grows_pairs(
    depth: nat,
    env: EnvironmentView,
    scope: usize,
    pairs: Seq<(ExpressionView, ExpressionView)>,
    from: nat,
    map: Seq<(ObjectView, ObjectView)>,
)
    ensures
        eval_pairs(depth, env, scope, pairs, from, map).0.extends(env),
        from == 0 && map == Seq::<(ObjectView, ObjectView)>::empty() ==> eval_hashmap(
            depth,
            env,
            scope,
            pairs,
        ).0.extends(env),
    decreases depth, 1nat, pairs.len() - from,
{
    crate::evaluator::env::lemma_extends(env, env, env, scope, Seq::empty(), ObjectView::Null);
    if from < pairs.len() {
        lemma_grows_expression(depth, env, scope, pairs[from as int].0);
        match eval_expression(depth, env, scope, pairs[from as int].0) {
            (after_key, Ok(key)) => {
                lemma_grows_expression(depth, after_key, scope, pairs[from as int].1);
                match eval_expression(depth, after_key, scope, pairs[from as int].1) {
                    (after, Ok(value)) => {
                        lemma_grown_twice(env, after_key, after);
                        if hashable(key) {
                            lemma_grows_pairs(
                                depth,
                                after,
                                scope,
                                pairs,
                                from + 1,
                                insert(map, key, value),
                            );
                            lemma_grown_twice(
                                env,
                                after,
                                eval_pairs(
                                    depth,
                                    after,
                                    scope,
                                    pairs,
                                    from + 1,
                                    insert(map, key, value),
                                ).0,
                            );
                        }
                    },
                    (after, Err(_)) => {
                        lemma_grown_twice(env, after_key, after);
                    },
                }
            },
            _ => {},
        }
    }
}

proof fn lemma_grows_index(
    depth: nat,
    env: EnvironmentView,
    scope: usize,
    array: ExpressionView,
    index: ExpressionView,
)
    ensures
        eval_index(depth, env, scope, array, index).0.extends(env),
    decreases depth, 3nat, 0nat,
{
    lemma_grows_expression(depth, env, scope, array);
    match eval_expression(depth, env, scope, array) {
        (after, Ok(_)) => {
            lemma_grows_expression(depth, after, scope, index);
            lemma_grown_twice(env, after, eval_expression(depth, after, scope, index).0);
        },
        _ => {},
    }
}

proof fn lemma_grows_infix(
    depth: nat,
    env: EnvironmentView,
    scope: usize,
    operation: InfixOperation,
    left: ExpressionView,
    right: ExpressionView,
)
    ensures
        eval_infix(depth, env, scope, operation, left, right).0.extends(env),
    decreases depth, 3nat, 0nat,
{
    lemma_grows_expression(depth, env, scope, left);
    match eval_expression(depth, env, scope, left) {
        (after, Ok(_)) => {
            lemma_grows_expression(depth, after, scope, right);
            lemma_grown_twice(env, after, eval_expression(depth, after, scope, right).0);
        },
        _ => {},
    }
}

proof fn lemma_grows_prefix(
    depth: nat,
    env: EnvironmentView,
    scope: usize,
    operation: PrefixOperation,
    right: ExpressionView,
)
    ensures
        eval_prefix(depth, env, scope, operation, right).0.extends(env),
    decreases depth, 3nat, 0nat,
{
    lemma_grows_expression(depth, env, scope, right);
}

proof fn lemma_grows_condition(
    depth: nat,
    env: EnvironmentView,
    scope: usize,
    condition: ExpressionView,
    consequence: Seq<StatementView>,
    alternative: Option<Seq<StatementView>>,
)
    ensures
        eval_condition(depth, env, scope, condition, consequence, alternative).0.extends(env),
    decreases depth, 3nat, 0nat,
{
    lemma_grows_expression(depth, env, scope, condition);
    match eval_expression(depth, env, scope, condition) {
        (after, Ok(ObjectView::Bool(true))) => {
            lemma_grows_statements(depth, after, scope, consequence, 0);
            lemma_grown_twice(env, after, eval_statements(depth, after, scope, consequence, 0).0);
        },
        (after, Ok(ObjectView::Bool(false))) => {
            match alternative {
                Some(block) => {
                    lemma_grows_statements(depth, after, scope, block, 0);
                    lemma_grown_twice(env, after, eval_statements(depth, after, scope, block, 0).0);
                },
                None => {},
            }
        },
        _ => {},
    }
}

proof fn lemma_grows_monkey_call(
    depth: nat,
    env: EnvironmentView,
    values: Seq<ObjectView>,
    names: Seq<Seq<char>>,
    body: Seq<StatementView>,
    closure: usize,
)
    ensures
        eval_monkey_call(depth, env, values, names, body, closure).0.extends(env),
    decreases depth, 3nat, 0nat,
{
    let scope = env.scopes.len() as usize;
    let inside = env.child(closure);
    let bound = bind_parameters(inside, scope, names, values, 0);
    crate::evaluator::env::lemma_extends(env, env, env, closure, Seq::empty(), ObjectView::Null);
    lemma_grows_by_binding(inside, scope, names, values, 0);
    lemma_grown_twice(env, inside, bound);
    lemma_grows_statements(depth, bound, scope, body, 0);
    lemma_grown_twice(env, bound, eval_statements(depth, bound, scope, body, 0).0);
}

proof fn lemma_grows_call(
    depth: nat,
    env: EnvironmentView,
    scope: usize,
    function: ExpressionView,
    arguments: Seq<ExpressionView>,
)
    ensures
        eval_call(depth, env, scope, function, arguments).0.extends(env),
    decreases depth, 4nat, 0nat,
{
    lemma_grows_expression(depth, env, scope, function);
    match eval_expression(depth, env, scope, function) {
        (after_function, Ok(callee)) => {
            lemma_grows_expressions(depth, after_function, scope, arguments, 0, Seq::empty());
            match eval_expressions(depth, after_function, scope, arguments, 0, Seq::empty()) {
                (after, Ok(values)) => {
                    lemma_grown_twice(env, after_function, after);
                    match callee {
                        ObjectView::Function(names, body, closure) => {
                            lemma_grows_monkey_call(depth, after, values, names, body, closure);
                            lemma_grown_twice(
                                env,
                                after,
                                eval_monkey_call(depth, after, values, names, body, closure).0,
                            );
                        },
                        ObjectView::BuiltInFunction(name) => {
                            lemma_grows_by_builtin(after, values, name);
                            lemma_grown_twice(env, after, call_builtin(after, values, name).0);
                        },
                        _ => {},
                    }
                },
                (after, Err(_)) => {
                    lemma_grown_twice(env, after_function, after);
                },
            }
        },
        _ => {},
    }
}

proof fn lemma_grows_statement(
    depth: nat,
    env: EnvironmentView,
    scope: usize,
    statement: StatementView,
)
    ensures
        eval_statement(depth, env, scope, statement).0.extends(env),
    decreases depth, 1nat, 0nat,
{
    match statement {
        StatementView::ReturnStatement { expression } => {
            lemma_grows_expression(depth, env, scope, expression);
        },
        StatementView::LetStatement { identifier, expression } => {
            lemma_grows_expression(depth, env, scope, expression);
            match eval_expression(depth, env, scope, expression) {
                (after, Ok(value)) => {
                    crate::evaluator::env::lemma_extends(
                        after,
                        after,
                        after,
                        scope,
                        identifier,
                        value,
                    );
                    lemma_grown_twice(env, after, after.bind(scope, identifier, value));
                },
                _ => {},
            }
        },
        StatementView::ExpressionStatement { expression } => {
            lemma_grows_expression(depth, env, scope, expression);
        },
    }
}

/// A block only grows the environment.
pub proof fn lemma_grows_statements(
    depth: nat,
    env: EnvironmentView,
    scope: usize,
    statements: Seq<StatementView>,
    from: nat,
)
    ensures
        eval_statements(depth, env, scope, statements, from).0.extends(env),
    decreases depth, 2nat, statements.len() - from,
{
    crate::evaluator::env::lemma_extends(env, env, env, scope, Seq::empty(), ObjectView::Null);
    if from < statements.len() {
        lemma_grows_statement(depth, env, scope, statements[from as int]);
        match eval_statement(depth, env, scope, statements[from as int]) {
            (after, Ok(None)) => {
                lemma_grows_statements(depth, after, scope, statements, from + 1);
                lemma_grown_twice(
                    env,
                    after,
                    eval_statements(depth, after, scope, statements, from + 1).0,
                );
            },
            _ => {},
        }
    }
}

} // verus!
