use rustymonkey::evaluator::array;
use rustymonkey::evaluator::builtin::{eval_builtin_call, is_builtin_name, set_builtins_to_env};
use rustymonkey::evaluator::env::Environment;
use rustymonkey::evaluator::hashmap;
use rustymonkey::evaluator::infix;
use rustymonkey::evaluator::object::Object;
use rustymonkey::evaluator::{
    eval_expression, eval_program, eval_statements, new_environment, EvaluationError,
};
use rustymonkey::parser::ast::{Expression, InfixOperation, PrefixOperation};
use rustymonkey::parser::Parser;

fn run(program: &str) -> Result<Object, EvaluationError> {
    let ast = Parser::new(program).parse_program().unwrap();
    eval_program(&ast, 1000)
}

fn run_in(env: &mut Environment, program: &str) -> Result<Object, EvaluationError> {
    let ast = Parser::new(program).parse_program().unwrap();
    eval_statements(env, 0, &ast, 1000)
}

fn text(s: &str) -> Object {
    Object::Str(String::from(s))
}

fn numbers(values: &[i64]) -> Object {
    Object::Array(values.iter().map(|v| Object::Integer(*v)).collect())
}

#[test]
fn evaluates_an_empty_program_to_null() {
    assert_eq!(run(""), Ok(Object::Null));
    assert_eq!(run("1;"), Ok(Object::Null));
    assert_eq!(run("let a = 1;"), Ok(Object::Null));
    assert_eq!(eval_program(&vec![], 0), Ok(Object::Null));
}

#[test]
fn evaluates_literals_to_themselves() {
    assert_eq!(run("12"), Ok(Object::Integer(12)));
    assert_eq!(run("true"), Ok(Object::Bool(true)));
    assert_eq!(run("\"hola\""), Ok(text("hola")));
    assert_eq!(run("[]"), Ok(Object::Array(vec![])));
    assert_eq!(run("{}"), Ok(Object::HashMap(vec![])));
}

#[test]
fn evaluates_an_unbound_name_to_null() {
    assert_eq!(run("nothing"), Ok(Object::Null));
}

#[test]
fn refuses_sums_of_strings_and_of_arrays() {
    assert_eq!(
        run("\"hello\" + \"world\""),
        Err(EvaluationError::InfixOperationNotImplemented {
            operation: InfixOperation::Sum,
            left: text("hello"),
            right: text("world"),
        })
    );
    assert_eq!(
        run("[1,2] + [2,false]"),
        Err(EvaluationError::InfixOperationNotImplemented {
            operation: InfixOperation::Sum,
            left: numbers(&[1, 2]),
            right: Object::Array(vec![Object::Integer(2), Object::Bool(false)]),
        })
    );
}

#[test]
fn refuses_operands_of_mixed_or_wrong_kinds() {
    assert_eq!(
        run("1 == true"),
        Err(EvaluationError::InfixOperationNotImplemented {
            operation: InfixOperation::Equal,
            left: Object::Integer(1),
            right: Object::Bool(true),
        })
    );
    assert_eq!(
        run("true < false"),
        Err(EvaluationError::InfixOperationNotImplemented {
            operation: InfixOperation::LessThan,
            left: Object::Bool(true),
            right: Object::Bool(false),
        })
    );
    assert_eq!(
        run("true * true"),
        Err(EvaluationError::InfixOperationNotImplemented {
            operation: InfixOperation::Product,
            left: Object::Bool(true),
            right: Object::Bool(true),
        })
    );
    assert_eq!(
        run("\"a\" == \"a\""),
        Err(EvaluationError::InfixOperationNotImplemented {
            operation: InfixOperation::Equal,
            left: text("a"),
            right: text("a"),
        })
    );
    assert_eq!(
        run("nothing != 1"),
        Err(EvaluationError::InfixOperationNotImplemented {
            operation: InfixOperation::NotEqual,
            left: Object::Null,
            right: Object::Integer(1),
        })
    );
}

#[test]
fn compares_booleans_and_integers() {
    assert_eq!(run("true == true"), Ok(Object::Bool(true)));
    assert_eq!(run("true == false"), Ok(Object::Bool(false)));
    assert_eq!(run("true != false"), Ok(Object::Bool(true)));
    assert_eq!(run("false != false"), Ok(Object::Bool(false)));
    assert_eq!(run("3 == 3"), Ok(Object::Bool(true)));
    assert_eq!(run("3 == 4"), Ok(Object::Bool(false)));
    assert_eq!(run("3 != 4"), Ok(Object::Bool(true)));
    assert_eq!(run("3 != 3"), Ok(Object::Bool(false)));
    assert_eq!(run("1 < 2 == true"), Ok(Object::Bool(true)));
}

#[test]
fn divides_towards_zero() {
    assert_eq!(run("7 / 2"), Ok(Object::Integer(3)));
    assert_eq!(run("-7 / 2"), Ok(Object::Integer(-3)));
    assert_eq!(run("7 / -2"), Ok(Object::Integer(-3)));
    assert_eq!(run("-7 / -2"), Ok(Object::Integer(3)));
    assert_eq!(run("0 / -2"), Ok(Object::Integer(0)));
    assert_eq!(run("-6 / 3"), Ok(Object::Integer(-2)));
    assert_eq!(run("1 / 5"), Ok(Object::Integer(0)));
}

#[test]
fn refuses_a_division_by_zero() {
    assert_eq!(
        run("1 / 0"),
        Err(EvaluationError::InfixOperationNotImplemented {
            operation: InfixOperation::Division,
            left: Object::Integer(1),
            right: Object::Integer(0),
        })
    );
    assert_eq!(
        run("0 / (1 - 1)"),
        Err(EvaluationError::InfixOperationNotImplemented {
            operation: InfixOperation::Division,
            left: Object::Integer(0),
            right: Object::Integer(0),
        })
    );
}

#[test]
fn wraps_arithmetic_around() {
    assert_eq!(run("9223372036854775807 + 1"), Ok(Object::Integer(i64::MIN)));
    assert_eq!(run("-9223372036854775807 - 2"), Ok(Object::Integer(i64::MAX)));
    assert_eq!(run("9223372036854775807 * 2"), Ok(Object::Integer(-2)));
    assert_eq!(run("4611686018427387904 * 4"), Ok(Object::Integer(0)));
    assert_eq!(run("-(-9223372036854775807 - 1)"), Ok(Object::Integer(i64::MIN)));
    assert_eq!(run("(-9223372036854775807 - 1) / -1"), Ok(Object::Integer(i64::MIN)));
    assert_eq!(run("(-9223372036854775807 - 1) / 1"), Ok(Object::Integer(i64::MIN)));
    assert_eq!(run("3037000500 * 3037000500"), Ok(Object::Integer(
        3037000500i64.wrapping_mul(3037000500)
    )));
}

#[test]
fn applies_operators_to_values() {
    let apply = |operation: InfixOperation, a: i64, b: i64| {
        infix::apply(&operation, Object::Integer(a), Object::Integer(b))
    };
    assert_eq!(apply(InfixOperation::Sum, 2, 1), Ok(Object::Integer(3)));
    assert_eq!(apply(InfixOperation::Subtraction, 66, 11), Ok(Object::Integer(55)));
    assert_eq!(apply(InfixOperation::Product, 5, 6), Ok(Object::Integer(30)));
    assert_eq!(apply(InfixOperation::Division, 100, 4), Ok(Object::Integer(25)));
    assert_eq!(apply(InfixOperation::Division, i64::MIN, -1), Ok(Object::Integer(i64::MIN)));
    assert_eq!(apply(InfixOperation::Division, i64::MIN, 2), Ok(Object::Integer(i64::MIN / 2)));
    assert_eq!(apply(InfixOperation::Division, i64::MAX, -1), Ok(Object::Integer(-i64::MAX)));
    assert_eq!(apply(InfixOperation::Sum, i64::MIN, -1), Ok(Object::Integer(i64::MAX)));
    assert_eq!(apply(InfixOperation::Product, i64::MIN, -1), Ok(Object::Integer(i64::MIN)));
    assert_eq!(apply(InfixOperation::LessThanEqual, -1, -1), Ok(Object::Bool(true)));
    assert_eq!(apply(InfixOperation::GreaterThan, -1, -2), Ok(Object::Bool(true)));
    assert_eq!(
        infix::apply(&InfixOperation::Sum, Object::Null, Object::Integer(1)),
        Err(EvaluationError::InfixOperationNotImplemented {
            operation: InfixOperation::Sum,
            left: Object::Null,
            right: Object::Integer(1),
        })
    );
}

#[test]
fn refuses_prefix_operators_on_other_kinds() {
    assert_eq!(
        run("-true"),
        Err(EvaluationError::PrefixOperationNotImplemented {
            operation: PrefixOperation::Negative,
            right: Object::Bool(true),
        })
    );
    assert_eq!(
        run("!5"),
        Err(EvaluationError::PrefixOperationNotImplemented {
            operation: PrefixOperation::Negate,
            right: Object::Integer(5),
        })
    );
    assert_eq!(
        run("!nothing"),
        Err(EvaluationError::PrefixOperationNotImplemented {
            operation: PrefixOperation::Negate,
            right: Object::Null,
        })
    );
    assert_eq!(run("!!true"), Ok(Object::Bool(true)));
    assert_eq!(run("--5"), Ok(Object::Integer(5)));
}

#[test]
fn indexes_arrays_within_their_bounds_only() {
    assert_eq!(run("[1,2][1]"), Ok(Object::Integer(2)));
    assert_eq!(run("[1,2][0]"), Ok(Object::Integer(1)));
    assert_eq!(
        run("[1,2][2]"),
        Err(EvaluationError::IndexOutOfBounds { value: numbers(&[1, 2]), index: 2 })
    );
    assert_eq!(
        run("[][0]"),
        Err(EvaluationError::IndexOutOfBounds { value: numbers(&[]), index: 0 })
    );
    assert_eq!(
        run("[1,2][-1]"),
        Err(EvaluationError::IndexOutOfBounds { value: numbers(&[1, 2]), index: -1i64 as usize })
    );
    assert_eq!(
        array::eval_indexing(vec![Object::Integer(7)], Object::Integer(i64::MIN)),
        Err(EvaluationError::IndexOutOfBounds {
            value: numbers(&[7]),
            index: i64::MIN as usize,
        })
    );
    assert_eq!(array::eval_indexing(vec![Object::Integer(7)], Object::Integer(0)), Ok(
        Object::Integer(7)
    ));
}

#[test]
fn refuses_indexes_of_other_kinds() {
    assert_eq!(
        run("[1,2][true]"),
        Err(EvaluationError::NotIndexable {
            value: numbers(&[1, 2]),
            index: Some(Object::Bool(true)),
        })
    );
    assert_eq!(
        run("[1,2][\"0\"]"),
        Err(EvaluationError::NotIndexable { value: numbers(&[1, 2]), index: Some(text("0")) })
    );
    assert_eq!(
        run("5[0]"),
        Err(EvaluationError::NotIndexable {
            value: Object::Integer(5),
            index: Some(Object::Integer(0)),
        })
    );
    assert_eq!(
        run("\"abc\"[0]"),
        Err(EvaluationError::NotIndexable {
            value: text("abc"),
            index: Some(Object::Integer(0)),
        })
    );
    assert_eq!(
        run("nothing[0]"),
        Err(EvaluationError::NotIndexable {
            value: Object::Null,
            index: Some(Object::Integer(0)),
        })
    );
}

#[test]
fn indexes_hash_maps_by_hashable_keys() {
    assert_eq!(run("{1: 2}[1]"), Ok(Object::Integer(2)));
    assert_eq!(run("{1: 2}[3]"), Ok(Object::Null));
    assert_eq!(run("{}[3]"), Ok(Object::Null));
    assert_eq!(run("{true: 2, false: 3}[false]"), Ok(Object::Integer(3)));
    assert_eq!(run("{\"1\": 2}[1]"), Ok(Object::Null));
    assert_eq!(run("{nothing: 2}[other]"), Ok(Object::Integer(2)));
    assert_eq!(
        run("{1: 2}[[1]]"),
        Err(EvaluationError::NotHashable { value: numbers(&[1]) })
    );
    assert_eq!(
        run("{1: 2}[{}]"),
        Err(EvaluationError::NotHashable { value: Object::HashMap(vec![]) })
    );
    assert_eq!(
        run("{1: 2}[len]"),
        Err(EvaluationError::NotHashable { value: Object::BuiltInFunction(String::from("len")) })
    );
    assert_eq!(
        hashmap::eval_indexing(vec![(text("a"), Object::Integer(1))], text("a")),
        Ok(Object::Integer(1))
    );
}

#[test]
fn checks_keys() {
    assert_eq!(hashmap::check_key_type(&Object::Null), Ok(()));
    assert_eq!(hashmap::check_key_type(&Object::Integer(1)), Ok(()));
    assert_eq!(hashmap::check_key_type(&Object::Bool(false)), Ok(()));
    assert_eq!(hashmap::check_key_type(&text("k")), Ok(()));
    assert_eq!(
        hashmap::check_key_type(&numbers(&[1])),
        Err(EvaluationError::NotHashable { value: numbers(&[1]) })
    );
}

#[test]
fn refuses_keys_that_are_not_hashable() {
    assert_eq!(
        run("{[1,2]: 3}"),
        Err(EvaluationError::NotHashable { value: numbers(&[1, 2]) })
    );
    assert_eq!(
        run("{1: 2, {}: 3}"),
        Err(EvaluationError::NotHashable { value: Object::HashMap(vec![]) })
    );
    assert!(matches!(run("{fn(){1}: 3}"), Err(EvaluationError::NotHashable { .. })));
}

#[test]
fn keeps_the_last_value_of_a_key() {
    assert_eq!(
        run("{1: 2, 3: 4, 1: 5}"),
        Ok(Object::HashMap(vec![
            (Object::Integer(1), Object::Integer(5)),
            (Object::Integer(3), Object::Integer(4)),
        ]))
    );
    assert_eq!(run("{1: 2, 3: 4, 1: 5}[1]"), Ok(Object::Integer(5)));
    let mut pairs = vec![(text("a"), Object::Integer(1))];
    hashmap::insert_pair(&mut pairs, text("b"), Object::Integer(2));
    hashmap::insert_pair(&mut pairs, text("a"), Object::Integer(3));
    assert_eq!(pairs, vec![(text("a"), Object::Integer(3)), (text("b"), Object::Integer(2))]);
}

#[test]
fn stops_at_the_first_error() {
    let mut env = new_environment();
    assert_eq!(
        run_in(&mut env, "[puts(1), -true, puts(2)]"),
        Err(EvaluationError::PrefixOperationNotImplemented {
            operation: PrefixOperation::Negative,
            right: Object::Bool(true),
        })
    );
    assert_eq!(env.output(), &vec![String::from("1")]);
    assert_eq!(
        run_in(&mut env, "let a = 1; let b = !2; let c = 3;"),
        Err(EvaluationError::PrefixOperationNotImplemented {
            operation: PrefixOperation::Negate,
            right: Object::Integer(2),
        })
    );
    assert_eq!(run_in(&mut env, "a"), Ok(Object::Integer(1)));
    assert_eq!(run_in(&mut env, "c"), Ok(Object::Null));
    assert_eq!(
        run_in(&mut env, "len(-true, puts(3))"),
        Err(EvaluationError::PrefixOperationNotImplemented {
            operation: PrefixOperation::Negative,
            right: Object::Bool(true),
        })
    );
    assert_eq!(
        run_in(&mut env, "{!1: puts(4)}"),
        Err(EvaluationError::PrefixOperationNotImplemented {
            operation: PrefixOperation::Negate,
            right: Object::Integer(1),
        })
    );
    assert_eq!(env.output(), &vec![String::from("1")]);
}

#[test]
fn evaluates_the_value_of_a_pair_before_it_refuses_the_key() {
    let mut env = new_environment();
    assert_eq!(
        run_in(&mut env, "{[1]: puts(\"seen\")}"),
        Err(EvaluationError::NotHashable { value: numbers(&[1]) })
    );
    assert_eq!(env.output(), &vec![String::from("seen")]);
}

#[test]
fn refuses_a_call_before_it_evaluates_the_arguments() {
    let mut env = new_environment();
    assert_eq!(
        run_in(&mut env, "3(puts(\"unseen\"))"),
        Err(EvaluationError::NotCallable { value: Object::Integer(3) })
    );
    assert_eq!(
        run_in(&mut env, "nothing(-true)"),
        Err(EvaluationError::NotCallable { value: Object::Null })
    );
    assert_eq!(env.output(), &Vec::<String>::new());
    assert_eq!(
        run_in(&mut env, "puts(\"callee\")(puts(\"unseen\"))"),
        Err(EvaluationError::NotCallable { value: Object::Null })
    );
    assert_eq!(env.output(), &vec![String::from("callee")]);
    assert_eq!(
        run_in(&mut env, "len(puts(\"seen\"))"),
        Err(EvaluationError::InvalidArguments { values: vec![Object::Null], expected: "string" })
    );
    assert_eq!(env.output(), &vec![String::from("callee"), String::from("seen")]);
}

#[test]
fn measures_lengths() {
    assert_eq!(run("len(\"\")"), Ok(Object::Integer(0)));
    assert_eq!(run("len([])"), Ok(Object::Integer(0)));
    assert_eq!(run("len(\"h\u{e9}llo\")"), Ok(Object::Integer(6)));
    assert_eq!(run("len([[1,2,3]])"), Ok(Object::Integer(1)));
}

#[test]
fn refuses_arguments_that_a_builtin_does_not_take() {
    assert_eq!(
        run("len(1)"),
        Err(EvaluationError::InvalidArguments {
            values: vec![Object::Integer(1)],
            expected: "string",
        })
    );
    assert_eq!(
        run("len()"),
        Err(EvaluationError::InvalidArguments { values: vec![], expected: "string" })
    );
    assert_eq!(
        run("len(\"a\", \"b\")"),
        Err(EvaluationError::InvalidArguments {
            values: vec![text("a"), text("b")],
            expected: "string",
        })
    );
    assert_eq!(
        run("first(1)"),
        Err(EvaluationError::InvalidArguments {
            values: vec![Object::Integer(1)],
            expected: "array",
        })
    );
    assert_eq!(
        run("last(\"abc\")"),
        Err(EvaluationError::InvalidArguments { values: vec![text("abc")], expected: "array" })
    );
    assert_eq!(
        run("rest([1], [2])"),
        Err(EvaluationError::InvalidArguments {
            values: vec![numbers(&[1]), numbers(&[2])],
            expected: "array",
        })
    );
    assert_eq!(
        run("push([1])"),
        Err(EvaluationError::InvalidArguments {
            values: vec![numbers(&[1])],
            expected: "array, object",
        })
    );
    assert_eq!(
        run("push(1, [1])"),
        Err(EvaluationError::InvalidArguments {
            values: vec![Object::Integer(1), numbers(&[1])],
            expected: "array, object",
        })
    );
    assert_eq!(
        run("push([1], 2, 3)"),
        Err(EvaluationError::InvalidArguments {
            values: vec![numbers(&[1]), Object::Integer(2), Object::Integer(3)],
            expected: "array, object",
        })
    );
}

#[test]
fn takes_arrays_apart() {
    assert_eq!(run("first([6])"), Ok(Object::Integer(6)));
    assert_eq!(run("last([6])"), Ok(Object::Integer(6)));
    assert_eq!(run("first([[1], 2])"), Ok(numbers(&[1])));
    assert_eq!(run("rest([1, 2])"), Ok(numbers(&[2])));
    assert_eq!(run("rest([1, 2, 3])"), Ok(numbers(&[2, 3])));
    assert_eq!(run("rest(rest([1, 2, 3]))"), Ok(numbers(&[3])));
    assert_eq!(
        run("first([])"),
        Err(EvaluationError::IndexOutOfBounds { value: numbers(&[]), index: 0 })
    );
    assert_eq!(
        run("last([])"),
        Err(EvaluationError::IndexOutOfBounds { value: numbers(&[]), index: 0 })
    );
    assert_eq!(
        run("rest([])"),
        Err(EvaluationError::IndexOutOfBounds { value: numbers(&[]), index: 1 })
    );
    assert_eq!(
        run("rest([1])"),
        Err(EvaluationError::IndexOutOfBounds { value: numbers(&[1]), index: 1 })
    );
}

#[test]
fn pushes_without_changing_the_array() {
    assert_eq!(run("push([], 1)"), Ok(numbers(&[1])));
    assert_eq!(run("push([1], [2])"), Ok(Object::Array(vec![Object::Integer(1), numbers(&[2])])));
    assert_eq!(
        run("let a = [1]; let b = push(a, 2); let c = push(a, 3); [a, b, c]"),
        Ok(Object::Array(vec![numbers(&[1]), numbers(&[1, 2]), numbers(&[1, 3])]))
    );
}

#[test]
fn writes_lines() {
    let mut env = new_environment();
    assert_eq!(run_in(&mut env, "puts(\"a\", 1, [1, \"b\"], true, nothing)"), Ok(Object::Null));
    assert_eq!(run_in(&mut env, "puts()"), Ok(Object::Null));
    assert_eq!(run_in(&mut env, "puts(-12); puts({1: 2}, len, fn(a, b) { a })"), Ok(Object::Null));
    assert_eq!(
        env.output(),
        &vec![
            String::from("a 1 [1, b] true NULL"),
            String::from(""),
            String::from("-12"),
            String::from("HashMap builtin(len) ][a, b]"),
        ]
    );
}

#[test]
fn calls_builtins_by_name() {
    let mut env = Environment::new();
    assert_eq!(
        eval_builtin_call(&mut env, vec![numbers(&[4, 5])], String::from("last")),
        Ok(Object::Integer(5))
    );
    assert_eq!(
        eval_builtin_call(&mut env, vec![text("x"), text("y")], String::from("puts")),
        Ok(Object::Null)
    );
    assert_eq!(env.output(), &vec![String::from("x y")]);
    for name in ["len", "first", "last", "rest", "push", "puts"] {
        assert!(is_builtin_name(&String::from(name)));
    }
    assert!(!is_builtin_name(&String::from("map")));
    assert!(!is_builtin_name(&String::from("")));
}

#[test]
fn binds_the_builtins() {
    let mut env = Environment::new();
    assert_eq!(env.get(0, "len"), Object::Null);
    set_builtins_to_env(&mut env);
    for name in ["len", "first", "last", "rest", "push", "puts"] {
        assert_eq!(env.get(0, name), Object::BuiltInFunction(String::from(name)));
    }
    assert_eq!(run("len"), Ok(Object::BuiltInFunction(String::from("len"))));
    assert_eq!(run("let len = 3; len"), Ok(Object::Integer(3)));
}

#[test]
fn refuses_to_call_what_is_no_function() {
    assert_eq!(run("nothing()"), Err(EvaluationError::NotCallable { value: Object::Null }));
    assert_eq!(run("\"f\"(1)"), Err(EvaluationError::NotCallable { value: text("f") }));
    assert_eq!(run("[1](0)"), Err(EvaluationError::NotCallable { value: numbers(&[1]) }));
    let mut env = new_environment();
    env.set(0, String::from("odd"), Object::BuiltInFunction(String::from("odd")));
    assert_eq!(
        run_in(&mut env, "odd(1)"),
        Err(EvaluationError::NotCallable { value: Object::BuiltInFunction(String::from("odd")) })
    );
}

#[test]
fn tolerates_too_few_and_too_many_arguments() {
    assert_eq!(run("fn (a, b) { a }(1)"), Ok(Object::Integer(1)));
    assert_eq!(run("fn (a, b) { b }(1)"), Ok(Object::Null));
    assert_eq!(run("fn (a) { a }(1, 2, 3)"), Ok(Object::Integer(1)));
    assert_eq!(run("fn () { 7 }(1, 2, 3)"), Ok(Object::Integer(7)));
    assert_eq!(run("fn (a, a) { a }(1, 2)"), Ok(Object::Integer(2)));
}

#[test]
fn evaluates_arguments_in_the_scope_of_the_caller() {
    assert_eq!(
        run("let x = 1; let f = fn (a) { let x = 10; a + x }; f(x + 1)"),
        Ok(Object::Integer(12))
    );
    assert_eq!(run("let x = 1; let f = fn (x) { x * 2 }; f(5) + x"), Ok(Object::Integer(11)));
    assert_eq!(run("let f = fn () { let hidden = 1; hidden }; f(); hidden"), Ok(Object::Null));
}

#[test]
fn sees_later_bindings_of_the_defining_scope() {
    assert_eq!(run("let f = fn () { c }; let c = 3; f()"), Ok(Object::Integer(3)));
    assert_eq!(run("let f = fn () { c }; let c = 3; let c = 4; f()"), Ok(Object::Integer(4)));
    assert_eq!(
        run("let make = fn () { let f = fn () { c }; let c = 5; f }; let c = 1; make()()"),
        Ok(Object::Integer(5))
    );
    assert_eq!(
        run("let counter = fn (n) { fn () { n } }; let a = counter(1); let b = counter(2); a() + b()"),
        Ok(Object::Integer(3))
    );
}

#[test]
fn ends_only_the_innermost_block_on_return() {
    assert_eq!(run("let f = fn () { if (true) { return 1; }; 2 }; f()"), Ok(Object::Integer(2)));
    assert_eq!(run("let f = fn () { return 1; 2 }; f()"), Ok(Object::Integer(1)));
    assert_eq!(run("if (true) { return 1; 2 }"), Ok(Object::Integer(1)));
    assert_eq!(run("if (true) { 1; }"), Ok(Object::Null));
    assert_eq!(run("let f = fn () { }; f()"), Ok(Object::Null));
}

#[test]
fn binds_in_the_scope_of_the_block() {
    assert_eq!(run("if (true) { let x = 5; }; x"), Ok(Object::Integer(5)));
    assert_eq!(run("let a = 1; let a = 2; a"), Ok(Object::Integer(2)));
    assert_eq!(run("let a = 1; if (false) { 1 } else { let a = 7; }; a"), Ok(Object::Integer(7)));
}

#[test]
fn refuses_a_condition_that_is_no_boolean() {
    assert_eq!(
        run("if (nothing) { 1 } else { 2 }"),
        Err(EvaluationError::UnexpectedType { value: Object::Null, expected: "bool" })
    );
    assert_eq!(
        run("if (\"true\") { 1 }"),
        Err(EvaluationError::UnexpectedType { value: text("true"), expected: "bool" })
    );
    assert_eq!(run("if (1 < 2) { 1 } else { 2 }"), Ok(Object::Integer(1)));
    assert_eq!(run("if (1 > 2) { 1 } else { 2 }"), Ok(Object::Integer(2)));
}

#[test]
fn keeps_bindings_from_one_program_to_the_next() {
    let mut env = new_environment();
    assert_eq!(run_in(&mut env, "let a = 5;"), Ok(Object::Null));
    assert_eq!(run_in(&mut env, "let double = fn (x) { x * 2 };"), Ok(Object::Null));
    assert_eq!(run_in(&mut env, "double(a)"), Ok(Object::Integer(10)));
    assert_eq!(run_in(&mut env, "let a = 6; double(a)"), Ok(Object::Integer(12)));
}

#[test]
fn gives_each_function_value_an_identity() {
    let mut env = new_environment();
    let first = run_in(&mut env, "let f = fn (a) { a }; f").unwrap();
    let again = run_in(&mut env, "f").unwrap();
    let second = run_in(&mut env, "fn (a) { a }").unwrap();
    let third = run_in(&mut env, "fn (a) { a }").unwrap();
    assert_eq!(first, again);
    assert_ne!(first, second);
    assert_ne!(second, third);
    assert!(matches!(first, Object::Function(..)));
}

#[test]
fn fails_beyond_the_depth_allowed() {
    let one = Parser::new("1").parse_program().unwrap();
    assert_eq!(eval_program(&one, 0), Err(EvaluationError::DepthExceeded));
    assert_eq!(eval_program(&one, 1), Ok(Object::Integer(1)));
    let sum = Parser::new("1 + 2").parse_program().unwrap();
    assert_eq!(eval_program(&sum, 0), Err(EvaluationError::DepthExceeded));
    assert_eq!(eval_program(&sum, 1), Err(EvaluationError::DepthExceeded));
    assert_eq!(eval_program(&sum, 2), Ok(Object::Integer(3)));
    let nested = Parser::new("-(1 + 2)").parse_program().unwrap();
    assert_eq!(eval_program(&nested, 2), Err(EvaluationError::DepthExceeded));
    assert_eq!(eval_program(&nested, 3), Ok(Object::Integer(-3)));
    let forever = Parser::new("let f = fn (x) { f(x + 1) }; f(0)").parse_program().unwrap();
    assert_eq!(eval_program(&forever, 50), Err(EvaluationError::DepthExceeded));
    assert_eq!(eval_program(&forever, 500), Err(EvaluationError::DepthExceeded));
}

#[test]
fn gives_the_same_at_every_depth_that_is_enough() {
    let factorial = Parser::new(
        "let factorial = fn (n) { if (n == 0) { 1 } else { n * factorial(n - 1) } }; factorial(8)",
    )
    .parse_program()
    .unwrap();
    let mut least = 0;
    while eval_program(&factorial, least) == Err(EvaluationError::DepthExceeded) {
        least += 1;
    }
    assert!(least > 8);
    for depth in [least, least + 1, least + 100, 5000] {
        assert_eq!(eval_program(&factorial, depth), Ok(Object::Integer(40_320)));
    }
}

#[test]
fn evaluates_one_expression() {
    let mut env = new_environment();
    let scope = env.with_parent(0);
    env.set(scope, String::from("x"), Object::Integer(4));
    let expression = Expression::InfixExpression {
        operation: InfixOperation::Product,
        left: Box::new(Expression::IdentifierExpression { identifier: String::from("x") }),
        right: Box::new(Expression::IntegerLiteral { value: 3 }),
    };
    assert_eq!(eval_expression(&mut env, scope, &expression, 10), Ok(Object::Integer(12)));
    assert_eq!(
        eval_expression(&mut env, 0, &expression, 10),
        Err(EvaluationError::InfixOperationNotImplemented {
            operation: InfixOperation::Product,
            left: Object::Null,
            right: Object::Integer(3),
        })
    );
}
