use rustymonkey::parser::ast::{Expression, InfixOperation, PrefixOperation, Statement};
use rustymonkey::parser::grammar::Precedence;
use rustymonkey::parser::lexer::Token;
use rustymonkey::parser::{infix_operator_precedence, parse, parse_integer, ParseError, Parser};

fn program(s: &str) -> Result<Vec<Statement>, ParseError> {
    Parser::new(s).parse_program()
}

fn name(s: &str) -> Expression {
    Expression::IdentifierExpression { identifier: String::from(s) }
}

fn number(value: i64) -> Expression {
    Expression::IntegerLiteral { value }
}

fn infix(operation: InfixOperation, left: Expression, right: Expression) -> Expression {
    Expression::InfixExpression { operation, left: Box::new(left), right: Box::new(right) }
}

fn returned(expression: Expression) -> Result<Vec<Statement>, ParseError> {
    Ok(vec![Statement::ReturnStatement { expression }])
}

#[test]
fn parses_an_empty_text_to_an_empty_program() {
    assert_eq!(program(""), Ok(vec![]));
    assert_eq!(program("   "), Ok(vec![]));
}

#[test]
fn parses_tokens_given_directly() {
    let tokens = vec![
        Token::Integer { string: String::from("5") },
        Token::Plus,
        Token::Integer { string: String::from("2") },
        Token::Asterisk,
        Token::Integer { string: String::from("10") },
    ];
    assert_eq!(
        parse(tokens),
        returned(infix(
            InfixOperation::Sum,
            number(5),
            infix(InfixOperation::Product, number(2), number(10))
        ))
    );
    let mut parser = Parser::from_tokens(vec![Token::Return, Token::True, Token::Semicolon]);
    assert_eq!(
        parser.parse_statement_list(),
        Ok(vec![Statement::ReturnStatement { expression: Expression::Boolean { value: true } }])
    );
}

#[test]
fn parses_signed_integer_tokens_as_the_text_reads() {
    assert_eq!(parse(vec![Token::Integer { string: String::from("-12") }]), returned(number(-12)));
    assert_eq!(parse(vec![Token::Integer { string: String::from("+12") }]), returned(number(12)));
    assert_eq!(
        parse(vec![Token::Integer { string: String::from("1x") }]),
        Err(ParseError::FailedParsingInteger { string: String::from("1x") })
    );
}

#[test]
fn parses_the_levels_of_the_ladder() {
    assert_eq!(
        program("a < b == c"),
        returned(infix(
            InfixOperation::Equal,
            infix(InfixOperation::LessThan, name("a"), name("b")),
            name("c")
        ))
    );
    assert_eq!(
        program("a == b < c"),
        returned(infix(
            InfixOperation::Equal,
            name("a"),
            infix(InfixOperation::LessThan, name("b"), name("c"))
        ))
    );
    assert_eq!(
        program("a + b >= c * d"),
        returned(infix(
            InfixOperation::GreaterThanEqual,
            infix(InfixOperation::Sum, name("a"), name("b")),
            infix(InfixOperation::Product, name("c"), name("d"))
        ))
    );
    assert_eq!(
        program("a - b - c"),
        returned(infix(
            InfixOperation::Subtraction,
            infix(InfixOperation::Subtraction, name("a"), name("b")),
            name("c")
        ))
    );
    assert_eq!(
        program("a / b * c"),
        returned(infix(
            InfixOperation::Product,
            infix(InfixOperation::Division, name("a"), name("b")),
            name("c")
        ))
    );
    assert_eq!(
        program("a != b != c"),
        returned(infix(
            InfixOperation::NotEqual,
            infix(InfixOperation::NotEqual, name("a"), name("b")),
            name("c")
        ))
    );
}

#[test]
fn levels_are_ordered() {
    assert_eq!(Precedence::Lowest.level(), 0);
    assert_eq!(Precedence::Equal.level(), 1);
    assert_eq!(Precedence::LessGreater.level(), 2);
    assert_eq!(Precedence::Sum.level(), 3);
    assert_eq!(Precedence::Product.level(), 4);
    assert_eq!(Precedence::Prefix.level(), 5);
    assert_eq!(infix_operator_precedence(&InfixOperation::Sum), Precedence::Sum);
    assert_eq!(infix_operator_precedence(&InfixOperation::Subtraction), Precedence::Sum);
    assert_eq!(infix_operator_precedence(&InfixOperation::Product), Precedence::Product);
    assert_eq!(infix_operator_precedence(&InfixOperation::Division), Precedence::Product);
    assert_eq!(infix_operator_precedence(&InfixOperation::Equal), Precedence::Equal);
    assert_eq!(infix_operator_precedence(&InfixOperation::NotEqual), Precedence::Equal);
    assert_eq!(infix_operator_precedence(&InfixOperation::LessThan), Precedence::LessGreater);
    assert_eq!(
        infix_operator_precedence(&InfixOperation::GreaterThanEqual),
        Precedence::LessGreater
    );
}

#[test]
fn parses_prefix_operators_tighter_than_binary_ones() {
    assert_eq!(
        program("!a == b"),
        returned(infix(
            InfixOperation::Equal,
            Expression::PrefixExpression {
                operation: PrefixOperation::Negate,
                right: Box::new(name("a")),
            },
            name("b")
        ))
    );
    assert_eq!(
        program("--a"),
        returned(Expression::PrefixExpression {
            operation: PrefixOperation::Negative,
            right: Box::new(Expression::PrefixExpression {
                operation: PrefixOperation::Negative,
                right: Box::new(name("a")),
            }),
        })
    );
}

#[test]
fn parses_calls_and_indexes_tighter_than_prefix_operators() {
    assert_eq!(
        program("-a[0]"),
        returned(Expression::PrefixExpression {
            operation: PrefixOperation::Negative,
            right: Box::new(Expression::Index {
                array: Box::new(name("a")),
                index: Box::new(number(0)),
            }),
        })
    );
    assert_eq!(
        program("!f(1)"),
        returned(Expression::PrefixExpression {
            operation: PrefixOperation::Negate,
            right: Box::new(Expression::CallExpression {
                function: Box::new(name("f")),
                arguments: vec![number(1)],
            }),
        })
    );
    assert_eq!(
        program("a[0](1)[2]"),
        returned(Expression::Index {
            array: Box::new(Expression::CallExpression {
                function: Box::new(Expression::Index {
                    array: Box::new(name("a")),
                    index: Box::new(number(0)),
                }),
                arguments: vec![number(1)],
            }),
            index: Box::new(number(2)),
        })
    );
    assert_eq!(
        program("a * b[1 + 2]"),
        returned(infix(
            InfixOperation::Product,
            name("a"),
            Expression::Index {
                array: Box::new(name("b")),
                index: Box::new(infix(InfixOperation::Sum, number(1), number(2))),
            }
        ))
    );
}

#[test]
fn parses_empty_and_nested_literals() {
    assert_eq!(program("[]"), returned(Expression::Array { array: vec![] }));
    assert_eq!(program("{}"), returned(Expression::HashMap { pairs: vec![] }));
    assert_eq!(program("f()"), returned(Expression::CallExpression {
        function: Box::new(name("f")),
        arguments: vec![],
    }));
    assert_eq!(
        program("[[1], {2: [3]}]"),
        returned(Expression::Array {
            array: vec![
                Expression::Array { array: vec![number(1)] },
                Expression::HashMap {
                    pairs: vec![(number(2), Expression::Array { array: vec![number(3)] })],
                },
            ],
        })
    );
}

#[test]
fn parses_a_last_expression_without_semicolon_as_the_return() {
    assert_eq!(
        program("1; 2"),
        Ok(vec![
            Statement::ExpressionStatement { expression: number(1) },
            Statement::ReturnStatement { expression: number(2) },
        ])
    );
    assert_eq!(
        program("1; 2;"),
        Ok(vec![
            Statement::ExpressionStatement { expression: number(1) },
            Statement::ExpressionStatement { expression: number(2) },
        ])
    );
    assert_eq!(
        program("if (a) { b } else { c; }"),
        returned(Expression::IfExpression {
            condition: Box::new(name("a")),
            consequence: vec![Statement::ReturnStatement { expression: name("b") }],
            alternative: Some(vec![Statement::ExpressionStatement { expression: name("c") }]),
        })
    );
}

#[test]
fn takes_the_implicit_return_only_where_the_block_ends() {
    assert_eq!(program("5 6"), Err(ParseError::MissingSemicolon));
    assert_eq!(program("5 let a = 1;"), Err(ParseError::MissingSemicolon));
    assert_eq!(program("1; 2 3;"), Err(ParseError::MissingSemicolon));
    assert_eq!(program("a b"), Err(ParseError::MissingSemicolon));
    assert_eq!(program("if (a) { 5 6 }"), Err(ParseError::MissingSemicolon));
    assert_eq!(program("fn () { a ) }"), Err(ParseError::MissingSemicolon));
    assert_eq!(program("5 ,"), Err(ParseError::MissingSemicolon));
    assert_eq!(program("5"), returned(number(5)));
    assert_eq!(
        program("fn () { 5 }"),
        returned(Expression::FunctionExpression {
            arguments: vec![],
            body: vec![Statement::ReturnStatement { expression: number(5) }],
        })
    );
}

#[test]
fn refuses_tokens_behind_the_program() {
    let stray = |program_text: &str| {
        assert_eq!(
            program(program_text),
            Err(ParseError::UnexpectedToken {
                token: Token::CloseBrace,
                expecting: String::from("Prefix operator/Integer/Identifier"),
            })
        );
    };
    stray("5 }");
    stray("} 5");
    stray("}");
    stray("1; 2; }");
    stray("let a = 1; } let b = 2;");
    stray("if (a) { b } }");
    assert_eq!(parse(vec![Token::CloseBrace]), Err(ParseError::UnexpectedToken {
        token: Token::CloseBrace,
        expecting: String::from("Prefix operator/Integer/Identifier"),
    }));
}

#[test]
fn parses_a_block_up_to_its_closing_brace() {
    let mut parser = Parser::new("1; } 2");
    assert_eq!(
        parser.parse_statement_list(),
        Ok(vec![Statement::ExpressionStatement { expression: number(1) }])
    );
    let mut parser = Parser::new("1 } 2");
    assert_eq!(
        parser.parse_statement_list(),
        Ok(vec![Statement::ReturnStatement { expression: number(1) }])
    );
    let mut parser = Parser::new("}");
    assert_eq!(parser.parse_statement_list(), Ok(vec![]));
}

#[test]
fn parses_integers_up_to_the_limits() {
    assert_eq!(program("9223372036854775807"), returned(number(i64::MAX)));
    assert_eq!(program("000012"), returned(number(12)));
    assert_eq!(
        program("9223372036854775808"),
        Err(ParseError::FailedParsingInteger { string: String::from("9223372036854775808") })
    );
    assert_eq!(
        program("1 + 99999999999999999999999999;"),
        Err(ParseError::FailedParsingInteger {
            string: String::from("99999999999999999999999999"),
        })
    );
}

#[test]
fn reads_integers_as_the_standard_parser_does() {
    let texts = [
        "", "-", "+", "0", "-0", "+0", "7", "-7", "+7", "0007", "12a", "a12", "1 2", " 1", "--1",
        "+-1", "9223372036854775807", "9223372036854775808", "-9223372036854775808",
        "-9223372036854775809", "18446744073709551616", "00000000000000000000000000000000001",
        "99999999999999999999999999999999", "\u{661}",
    ];
    for text in texts {
        assert_eq!(parse_integer(text), text.parse::<i64>().ok());
    }
    assert_eq!(parse_integer("-9223372036854775808"), Some(i64::MIN));
    assert_eq!(parse_integer("+15"), Some(15));
    assert_eq!(parse_integer("-"), None);
}

#[test]
fn fails_with_unexpected_end() {
    assert_eq!(program("let"), Err(ParseError::UnexpectedEnd));
    assert_eq!(program("let x"), Err(ParseError::UnexpectedEnd));
    assert_eq!(program("let x = "), Err(ParseError::UnexpectedEnd));
    assert_eq!(program("return"), Err(ParseError::UnexpectedEnd));
    assert_eq!(program("1 +"), Err(ParseError::UnexpectedEnd));
    assert_eq!(program("(1"), Err(ParseError::UnexpectedEnd));
    assert_eq!(program("f(1"), Err(ParseError::UnexpectedEnd));
    assert_eq!(program("f(1,"), Err(ParseError::UnexpectedEnd));
    assert_eq!(program("[1"), Err(ParseError::UnexpectedEnd));
    assert_eq!(program("a[1"), Err(ParseError::UnexpectedEnd));
    assert_eq!(program("{1: 2"), Err(ParseError::UnexpectedEnd));
    assert_eq!(program("{1"), Err(ParseError::UnexpectedEnd));
    assert_eq!(program("if (a) { b"), Err(ParseError::UnexpectedEnd));
    assert_eq!(program("if (a) { b } else"), Err(ParseError::UnexpectedEnd));
    assert_eq!(program("fn (a)"), Err(ParseError::UnexpectedEnd));
    assert_eq!(program("-"), Err(ParseError::UnexpectedEnd));
}

fn unexpected(token: Token, expecting: &str) -> Result<Vec<Statement>, ParseError> {
    Err(ParseError::UnexpectedToken { token, expecting: String::from(expecting) })
}

#[test]
fn fails_with_the_unexpected_token_and_what_was_expected() {
    let five = Token::Integer { string: String::from("5") };
    let x = Token::Identifier { name: String::from("x") };
    assert_eq!(program("let 5 = 3;"), unexpected(five.clone(), "Identifier"));
    assert_eq!(program("let x 5;"), unexpected(five.clone(), "Assign"));
    assert_eq!(program("if x"), unexpected(x.clone(), "OpenParenthesis"));
    assert_eq!(program("if (x x"), unexpected(x.clone(), "CloseParenthesis"));
    assert_eq!(program("if (x) x"), unexpected(x.clone(), "OpenBrace"));
    assert_eq!(program("if (x) { 5; 5; 5"), Err(ParseError::UnexpectedEnd));
    assert_eq!(program("if (x) { 5; ) }"), unexpected(
        Token::CloseParenthesis,
        "Prefix operator/Integer/Identifier"
    ));
    assert_eq!(program("fn x"), unexpected(x.clone(), "OpenParenthesis"));
    assert_eq!(program("a[1 5"), unexpected(five.clone(), "CloseSquare"));
    assert_eq!(program("{1 5}"), unexpected(five.clone(), "Colon"));
    assert_eq!(program("f(1 5)"), unexpected(five.clone(), "comma, close parenthesis"));
    assert_eq!(program("[1 5]"), unexpected(five.clone(), "comma, close square"));
    assert_eq!(program("{1: 2 5}"), unexpected(five.clone(), "comma, close brace"));
    assert_eq!(program("f(1]"), unexpected(Token::CloseSquare, "comma, close parenthesis"));
    assert_eq!(program("* 2"), unexpected(Token::Asterisk, "Prefix operator/Integer/Identifier"));
    assert_eq!(program(")"), unexpected(
        Token::CloseParenthesis,
        "Prefix operator/Integer/Identifier"
    ));
    assert_eq!(program("1 + ;"), unexpected(
        Token::Semicolon,
        "Prefix operator/Integer/Identifier"
    ));
    assert_eq!(program("[1,]"), unexpected(
        Token::CloseSquare,
        "Prefix operator/Integer/Identifier"
    ));
    assert_eq!(program("1 + $"), unexpected(
        Token::Illegal { character: '$' },
        "Prefix operator/Integer/Identifier"
    ));
}

#[test]
fn fails_on_a_missing_semicolon() {
    assert_eq!(program("let a = 1 let b = 2;"), Err(ParseError::MissingSemicolon));
    assert_eq!(program("let a = 1"), Err(ParseError::MissingSemicolon));
    assert_eq!(program("return 1"), Err(ParseError::MissingSemicolon));
    assert_eq!(program("fn () { let a = 1 }"), Err(ParseError::MissingSemicolon));
}

#[test]
fn fails_on_a_parameter_that_is_no_identifier() {
    assert_eq!(program("fn (a + b) { a };"), Err(ParseError::NonIdentifierExpression));
    assert_eq!(program("fn (a, 1) { a };"), Err(ParseError::NonIdentifierExpression));
    assert_eq!(program("fn (a, 1"), Err(ParseError::UnexpectedEnd));
    assert_eq!(program("fn (a, 1) x"), Err(ParseError::NonIdentifierExpression));
}

#[test]
fn copies_trees() {
    let tree = Parser::new("let f = fn (a, b) { if (a[0] < -b) { [a, {1: \"x\"}] } else { f(b) } };")
        .parse_program()
        .unwrap();
    let copy = tree.clone();
    assert_eq!(copy, tree);
    assert_eq!(tree[0].duplicate(), tree[0]);
}
