//! From source text to syntax trees.

pub mod ast;
pub mod grammar;
pub mod lexer;

use vstd::prelude::*;
use crate::parser::ast::{Expression, InfixOperation, PrefixOperation, Program, Statement};
use crate::parser::grammar::{ParseErrorView, Parsed, Precedence};
use crate::parser::lexer::{Lexer, Token, TokenView};

verus! {

/// Why a text is no program.
#[derive(PartialEq, Debug)]
pub enum ParseError {
    /// The tokens ran out in the middle of a construct.
    UnexpectedEnd,
    /// A token that cannot stand where it stands.
    UnexpectedToken { token: Token, expecting: String },
    /// An integer literal that does not fit 64 bits.
    FailedParsingInteger { string: String },
    /// A statement that is not the last of its block and has no semicolon.
    MissingSemicolon,
    /// A parameter of a function literal that is not a bare identifier.
    NonIdentifierExpression,
}

impl View for ParseError {
    type V = ParseErrorView;

    open spec fn view(&self) -> ParseErrorView {
        match self {
            ParseError::UnexpectedEnd => ParseErrorView::UnexpectedEnd,
            ParseError::UnexpectedToken { token, expecting } => ParseErrorView::UnexpectedToken {
                token: token@,
                expecting: expecting@,
            },
            ParseError::FailedParsingInteger { string } => ParseErrorView::FailedParsingInteger {
                string: string@,
            },
            ParseError::MissingSemicolon => ParseErrorView::MissingSemicolon,
            ParseError::NonIdentifierExpression => ParseErrorView::NonIdentifierExpression,
        }
    }
}

impl Precedence {
    /// The place of this level on the ladder.
    pub fn level(&self) -> (level: u8)
        ensures
            level == self.rank(),
    {
        match self {
            Precedence::Lowest => 0,
            Precedence::Equal => 1,
            Precedence::LessGreater => 2,
            Precedence::Sum => 3,
            Precedence::Product => 4,
            Precedence::Prefix => 5,
        }
    }
}

/// The level at which a binary operator binds.
pub fn infix_operator_precedence(operation: &InfixOperation) -> (precedence: Precedence)
    ensures
        precedence == grammar::precedence_of(*operation),
{
    match operation {
        InfixOperation::Sum => Precedence::Sum,
        InfixOperation::Subtraction => Precedence::Sum,
        InfixOperation::Product => Precedence::Product,
        InfixOperation::Division => Precedence::Product,
        InfixOperation::Equal => Precedence::Equal,
        InfixOperation::NotEqual => Precedence::Equal,
        InfixOperation::LessThan => Precedence::LessGreater,
        InfixOperation::GreaterThan => Precedence::LessGreater,
        InfixOperation::LessThanEqual => Precedence::LessGreater,
        InfixOperation::GreaterThanEqual => Precedence::LessGreater,
    }
}

/// The binary operator that a token writes, if it writes one.
fn infix_operation_of(token: &Token) -> (operation: Option<InfixOperation>)
    ensures
        operation == grammar::infix_operation(token@),
{
    match token {
        Token::Plus => Some(InfixOperation::Sum),
        Token::Asterisk => Some(InfixOperation::Product),
        Token::Slash => Some(InfixOperation::Division),
        Token::Minus => Some(InfixOperation::Subtraction),
        Token::Equal => Some(InfixOperation::Equal),
        Token::NotEqual => Some(InfixOperation::NotEqual),
        Token::LessThan => Some(InfixOperation::LessThan),
        Token::GreaterThan => Some(InfixOperation::GreaterThan),
        Token::LessThanEqual => Some(InfixOperation::LessThanEqual),
        Token::GreaterThanEqual => Some(InfixOperation::GreaterThanEqual),
        _ => None,
    }
}

/// The name of a token's kind.
fn token_name(token: &Token) -> (name: String)
    ensures
        name@ == grammar::token_name(token@),
{
    match token {
        Token::Identifier { .. } => String::from_str("Identifier"),
        Token::Integer { .. } => String::from_str("Integer"),
        Token::StringLiteral { .. } => String::from_str("StringLiteral"),
        Token::Let => String::from_str("Let"),
        Token::If => String::from_str("If"),
        Token::Else => String::from_str("Else"),
        Token::Function => String::from_str("Function"),
        Token::Assign => String::from_str("Assign"),
        Token::Return => String::from_str("Return"),
        Token::Plus => String::from_str("Plus"),
        Token::Minus => String::from_str("Minus"),
        Token::Asterisk => String::from_str("Asterisk"),
        Token::Slash => String::from_str("Slash"),
        Token::Bang => String::from_str("Bang"),
        Token::True => String::from_str("True"),
        Token::False => String::from_str("False"),
        Token::Equal => String::from_str("Equal"),
        Token::NotEqual => String::from_str("NotEqual"),
        Token::LessThan => String::from_str("LessThan"),
        Token::GreaterThan => String::from_str("GreaterThan"),
        Token::LessThanEqual => String::from_str("LessThanEqual"),
        Token::GreaterThanEqual => String::from_str("GreaterThanEqual"),
        Token::OpenParenthesis => String::from_str("OpenParenthesis"),
        Token::CloseParenthesis => String::from_str("CloseParenthesis"),
        Token::OpenBrace => String::from_str("OpenBrace"),
        Token::CloseBrace => String::from_str("CloseBrace"),
        Token::OpenSquare => String::from_str("OpenSquare"),
        Token::CloseSquare => String::from_str("CloseSquare"),
        Token::Comma => String::from_str("Comma"),
        Token::Colon => String::from_str("Colon"),
        Token::Semicolon => String::from_str("Semicolon"),
        Token::SingleQuote => String::from_str("SingleQuote"),
        Token::DoubleQuote => String::from_str("DoubleQuote"),
        Token::Illegal { .. } => String::from_str("Illegal"),
    }
}

/// What is expected behind an item of a list that `close` ends.
fn list_expecting(close: &Token) -> (text: String)
    ensures
        text@ == grammar::list_expecting(close@),
{
    match close {
        Token::CloseParenthesis => String::from_str("comma, close parenthesis"),
        Token::CloseSquare => String::from_str("comma, close square"),
        _ => String::from_str("comma, close brace"),
    }
}

/// The value of a decimal digit.
fn digit_value(c: char) -> (value: u8)
    requires
        '0' <= c <= '9',
    ensures
        value == c as int - '0' as int,
        value <= 9,
{
    (c as u32 - '0' as u32) as u8
}

proof fn lemma_digits_step(digits: Seq<char>, k: int)
    requires
        0 <= k < digits.len(),
        grammar::all_digits(digits),
    ensures
        grammar::digits_value(digits.take(k + 1)) == grammar::digits_value(digits.take(k)) * 10 + (
        digits[k] as int - '0' as int),
        grammar::digits_value(digits.take(k)) >= 0,
    decreases k,
{
    assert(digits.take(k + 1).drop_last() =~= digits.take(k));
    if k > 0 {
        lemma_digits_step(digits, k - 1);
    } else {
        assert(digits.take(0).len() == 0);
    }
}

/// The 64-bit integer that a text writes in decimal, as `str::parse` reads it:
/// an optional sign, then one digit or more, the whole within the range.
pub fn parse_integer(text: &str) -> (value: Option<i64>)
    ensures
        value == grammar::parse_i64(text@),
{
    let chars = crate::text::chars_of(text);
    let n = chars.len();
    if n == 0 {
        return None;
    }
    let negative = chars[0] == '-';
    let start: usize = if negative || chars[0] == '+' {
        1
    } else {
        0
    };
    if start == n {
        return None;
    }
    let ghost digits = if start == 1 {
        text@.skip(1)
    } else {
        text@
    };
    assert(digits =~= chars@.skip(start as int));
    let limit: u64 = 9223372036854775808;
    let mut magnitude: u64 = 0;
    let mut overflow = false;
    let mut i: usize = start;
    while i < n
        invariant
            start <= i <= n,
            n == chars@.len(),
            chars@ == text@,
            start == (if text@[0] == '-' || text@[0] == '+' {
                1int
            } else {
                0int
            }),
            digits == (if start == 1 {
                text@.skip(1)
            } else {
                text@
            }),
            digits == chars@.skip(start as int),
            limit == 9223372036854775808,
            grammar::all_digits(digits.take(i - start)),
            !overflow ==> magnitude == grammar::digits_value(digits.take(i - start)) && magnitude
                <= limit,
            overflow ==> grammar::digits_value(digits.take(i - start)) > limit,
        decreases n - i,
    {
        let c = chars[i];
        let ghost k = i - start;
        assert(digits[k] == c);
        if !(c >= '0' && c <= '9') {
            assert(!grammar::all_digits(digits));
            return None;
        }
        assert(grammar::all_digits(digits.take(k + 1))) by {
            assert forall|j: int| 0 <= j < k + 1 implies '0' <= #[trigger] digits.take(k + 1)[j]
                <= '9' by {
                if j < k {
                    assert(digits.take(k)[j] == digits.take(k + 1)[j]);
                }
            }
        }
        proof {
            lemma_digits_step(digits.take(k + 1), k);
            assert(digits.take(k + 1).take(k + 1) =~= digits.take(k + 1));
            assert(digits.take(k + 1).take(k) =~= digits.take(k));
        }
        if !overflow {
            let longer: u128 = magnitude as u128 * 10 + digit_value(c) as u128;
            if longer > limit as u128 {
                overflow = true;
            } else {
                magnitude = longer as u64;
            }
        }
        i += 1;
    }
    assert(digits.take(n - start) =~= digits);
    if overflow {
        None
    } else if negative {
        if magnitude == limit {
            Some(i64::MIN)
        } else {
            Some(-(magnitude as i64))
        }
    } else if magnitude < limit {
        Some(magnitude as i64)
    } else {
        None
    }
}

/// The names that a list of identifier expressions holds; `None` where one of
/// them is not a bare identifier.
fn identifier_names(expressions: &Vec<Expression>) -> (names: Option<Vec<String>>)
    ensures
        match grammar::identifier_names(expressions.deep_view()) {
            Some(expected) => names matches Some(found) && found.deep_view() == expected,
            None => names is None,
        },
{
    let mut names: Vec<String> = Vec::new();
    let mut i: usize = 0;
    while i < expressions.len()
        invariant
            i <= expressions.len(),
            names@.len() == i,
            forall|j: int|
                0 <= j < i ==> #[trigger] expressions.deep_view()[j] is IdentifierExpression
                    && names@[j]@ == expressions.deep_view()[j]->IdentifierExpression_identifier,
        decreases expressions.len() - i,
    {
        match &expressions[i] {
            Expression::IdentifierExpression { identifier } => {
                names.push(identifier.clone());
            },
            _ => {
                assert(!(expressions.deep_view()[i as int] is IdentifierExpression));
                return None;
            },
        }
        i += 1;
    }
    assert(names.deep_view() =~= grammar::identifier_names(expressions.deep_view())->0);
    Some(names)
}

/// A parser over the tokens of one text.
pub struct Parser {
    tokens: Vec<Token>,
    position: usize,
}

impl Parser {
    #[verifier::type_invariant]
    spec fn within(&self) -> bool {
        self.position <= self.tokens@.len()
    }

    /// The tokens that are parsed.
    pub closed spec fn tokens(&self) -> Seq<TokenView> {
        self.tokens.deep_view()
    }

    /// How many tokens have been taken.
    pub closed spec fn position(&self) -> nat {
        self.position as nat
    }

    /// How many tokens are left.
    pub open spec fn remaining(&self) -> nat {
        grammar::left(self.tokens(), self.position())
    }

    /// Whether `after` is the parser `before` once it has given `result`, which
    /// is what `expected` describes: the same tree behind the same position, or
    /// the same error.
    pub open spec fn yields<T: DeepView>(
        before: Parser,
        after: Parser,
        result: Result<T, ParseError>,
        expected: Parsed<T::V>,
    ) -> bool {
        &&& after.tokens() == before.tokens()
        &&& match expected {
            Ok((tree, next)) => {
                &&& result matches Ok(found)
                &&& found.deep_view() == tree
                &&& after.position() == next
            },
            Err(error) => result matches Err(found) && found@ == error,
        }
    }

    /// Whether `after` is the parser `before` once it has taken a tree.
    pub open spec fn advanced<T>(before: Parser, after: Parser, result: Result<T, ParseError>)
        -> bool {
        result is Ok ==> before.position() < after.position() <= before.tokens().len()
    }

    /// A parser at the start of the tokens of `source`.
    pub fn new(source: &str) -> (parser: Self)
        ensures
            parser.tokens() == lexer::tokens_of(source@),
            parser.position() == 0,
    {
        let mut lexer = Lexer::new(source);
        let tokens = lexer.collect();
        Parser { tokens, position: 0 }
    }

    /// A parser at the start of `tokens`.
    pub fn from_tokens(tokens: Vec<Token>) -> (parser: Self)
        ensures
            parser.tokens() == tokens.deep_view(),
            parser.position() == 0,
    {
        Parser { tokens, position: 0 }
    }

    fn peek_next_token(&self) -> (token: Option<&Token>)
        ensures
            self.position() <= self.tokens().len(),
            match grammar::token_at(self.tokens(), self.position()) {
                Some(expected) => token matches Some(found) && found@ == expected,
                None => token is None,
            },
    {
        proof {
            use_type_invariant(self);
        }
        if self.position < self.tokens.len() {
            Some(&self.tokens[self.position])
        } else {
            None
        }
    }

    fn next_token(&mut self) -> (token: Option<Token>)
        ensures
            final(self).tokens() == old(self).tokens(),
            old(self).position() <= old(self).tokens().len(),
            match grammar::token_at(old(self).tokens(), old(self).position()) {
                Some(expected) => token matches Some(found) && found@ == expected && final(self).position() == old(self).position() + 1,
                None => token is None && final(self).position() == old(self).position(),
            },
    {
        proof {
            use_type_invariant(&*self);
        }
        if self.position < self.tokens.len() {
            let token = self.tokens[self.position].clone();
            self.position = self.position + 1;
            Some(token)
        } else {
            None
        }
    }

    fn skip_token(&mut self) -> (result: Result<(), ParseError>)
        ensures
            final(self).tokens() == old(self).tokens(),
            old(self).position() <= old(self).tokens().len(),
            match grammar::token_at(old(self).tokens(), old(self).position()) {
                Some(_) => result is Ok && final(self).position() == old(self).position() + 1,
                None => result == Err::<(), ParseError>(ParseError::UnexpectedEnd) && final(self).position() == old(self).position(),
            },
    {
        proof {
            use_type_invariant(&*self);
        }
        if self.position < self.tokens.len() {
            self.position = self.position + 1;
            Ok(())
        } else {
            Err(ParseError::UnexpectedEnd)
        }
    }

    fn skip_token_expecting(&mut self, compare_to: Token) -> (result: Result<(), ParseError>)
        ensures
            final(self).tokens() == old(self).tokens(),
            old(self).position() <= old(self).tokens().len(),
            match grammar::expect(old(self).tokens(), old(self).position(), compare_to@) {
                Ok(next) => result is Ok && final(self).position() == next,
                Err(error) => result matches Err(found) && found@ == error,
            },
    {
        match self.next_token() {
            Some(token) => {
                if token.equals(&compare_to) {
                    Ok(())
                } else {
                    Err(ParseError::UnexpectedToken { token, expecting: token_name(&compare_to) })
                }
            },
            None => Err(ParseError::UnexpectedEnd),
        }
    }

    /// Whether the next token is `wanted`.
    fn next_is(&self, wanted: &Token) -> (found: bool)
        ensures
            self.position() <= self.tokens().len(),
            found == (grammar::token_at(self.tokens(), self.position()) == Some(wanted@)),
    {
        match self.peek_next_token() {
            Some(token) => token.equals(wanted),
            None => false,
        }
    }

    fn parse_identifier(&mut self) -> (result: Result<String, ParseError>)
        ensures
            final(self).tokens() == old(self).tokens(),
            old(self).position() <= old(self).tokens().len(),
            match grammar::token_at(old(self).tokens(), old(self).position()) {
                None => result matches Err(found) && found@ == ParseErrorView::UnexpectedEnd,
                Some(TokenView::Identifier { name }) => result matches Ok(found) && found@ == name
                    && final(self).position() == old(self).position() + 1,
                Some(token) => result matches Err(found) && found@ == (
                ParseErrorView::UnexpectedToken { token, expecting: "Identifier"@ }),
            },
    {
        match self.next_token() {
            Some(token) => match token {
                Token::Identifier { name } => Ok(name),
                other => Err(
                    ParseError::UnexpectedToken {
                        token: other,
                        expecting: String::from_str("Identifier"),
                    },
                ),
            },
            None => Err(ParseError::UnexpectedEnd),
        }
    }

    fn parse_let_statement(&mut self) -> (result: Result<Statement, ParseError>)
        ensures
            Self::yields(
                *old(self),
                *final(self),
                result,
                grammar::parse_let_statement(old(self).tokens(), old(self).position()),
            ),
            Self::advanced(*old(self), *final(self), result),
        decreases old(self).remaining(), 0nat,
    {
        let identifier = match self.parse_identifier() {
            Ok(name) => name,
            Err(e) => {
                return Err(e);
            },
        };
        match self.skip_token_expecting(Token::Assign) {
            Ok(_) => {},
            Err(e) => {
                return Err(e);
            },
        }
        match self.parse_expression(Precedence::Lowest) {
            Ok(expression) => Ok(Statement::LetStatement { identifier, expression }),
            Err(e) => Err(e),
        }
    }

    fn parse_return_statement(&mut self) -> (result: Result<Statement, ParseError>)
        ensures
            Self::yields(
                *old(self),
                *final(self),
                result,
                match grammar::parse_expression(
                    old(self).tokens(),
                    old(self).position(),
                    Precedence::Lowest,
                ) {
                    Err(e) => Err(e),
                    Ok((expression, next)) => Ok(
                        (ast::StatementView::ReturnStatement { expression }, next),
                    ),
                },
            ),
            Self::advanced(*old(self), *final(self), result),
        decreases old(self).remaining(), 5nat,
    {
        match self.parse_expression(Precedence::Lowest) {
            Ok(expression) => Ok(Statement::ReturnStatement { expression }),
            Err(e) => Err(e),
        }
    }

    fn parse_integer_literal_expression(value: String) -> (result: Result<Expression, ParseError>)
        ensures
            match grammar::parse_i64(value@) {
                Some(number) => result matches Ok(found) && found@ == (
                ast::ExpressionView::IntegerLiteral { value: number }),
                None => result matches Err(found) && found@ == (
                ParseErrorView::FailedParsingInteger { string: value@ }),
            },
    {
        match parse_integer(value.as_str()) {
            Some(number) => Ok(Expression::IntegerLiteral { value: number }),
            None => Err(ParseError::FailedParsingInteger { string: value }),
        }
    }

    fn parse_string_literal_expression(value: String) -> (result: Result<Expression, ParseError>)
        ensures
            result matches Ok(found) && found@ == (ast::ExpressionView::StringLiteral {
                value: value@,
            }),
    {
        Ok(Expression::StringLiteral { value })
    }

    /// A block: statements up to the end of the tokens or a closing brace. All
    /// but the last end with a semicolon. A last one without it must be a bare
    /// expression that the block ends behind, and becomes the `return` of the
    /// block.
    pub fn parse_statement_list(&mut self) -> (result: Result<Vec<Statement>, ParseError>)
        ensures
            Self::yields(
                *old(self),
                *final(self),
                result,
                grammar::parse_statement_list(old(self).tokens(), old(self).position()),
            ),
            result is Ok ==> old(self).position() <= final(self).position() <= old(self).tokens().len(),
        decreases old(self).remaining(), 6nat,
    {
        let mut block: Vec<Statement> = Vec::new();
        let ghost ts = self.tokens();
        let ghost start = self.position();
        proof {
            use_type_invariant(&*self);
            grammar::lemma_prepend_nothing(grammar::parse_statement_list(ts, start));
        }
        loop
            invariant
                self.tokens() == ts,
                ts == old(self).tokens(),
                start == old(self).position(),
                start <= self.position() <= ts.len(),
                grammar::parse_statement_list(ts, start) == grammar::prepend(
                    block.deep_view(),
                    grammar::parse_statement_list(ts, self.position()),
                ),
            decreases grammar::left(ts, self.position()),
        {
            let ghost here = self.position();
            let ghost before = block.deep_view();
            if self.position >= self.tokens.len() || self.next_is(&Token::CloseBrace) {
                proof {
                    assert(before + Seq::<ast::StatementView>::empty() =~= before);
                }
                return Ok(block);
            }
            let statement = match self.parse_statement() {
                Ok(statement) => statement,
                Err(e) => {
                    return Err(e);
                },
            };
            if self.next_is(&Token::Semicolon) {
                let _ = self.skip_token();
                block.push(statement);
                proof {
                    assert(block.deep_view() =~= before + seq![statement@]);
                    grammar::lemma_prepend_prepend(
                        before,
                        seq![statement@],
                        grammar::parse_statement_list(ts, self.position()),
                    );
                }
            } else {
                let at_end = self.position >= self.tokens.len() || self.next_is(
                    &Token::CloseBrace,
                );
                match statement {
                    Statement::ExpressionStatement { expression } => {
                        if !at_end {
                            return Err(ParseError::MissingSemicolon);
                        }
                        block.push(Statement::ReturnStatement { expression });
                        proof {
                            assert(block.deep_view() =~= before + seq![
                                ast::StatementView::ReturnStatement { expression: expression@ },
                            ]);
                        }
                        return Ok(block);
                    },
                    _ => {
                        return Err(ParseError::MissingSemicolon);
                    },
                }
            }
        }
    }

    /// What follows the opening token of a list: `close` at once, or
    /// expressions with commas between them and `close` behind the last.
    fn parse_expression_list(&mut self, close: Token) -> (result: Result<
        Vec<Expression>,
        ParseError,
    >)
        ensures
            Self::yields(
                *old(self),
                *final(self),
                result,
                grammar::parse_expression_list(old(self).tokens(), old(self).position(), close@),
            ),
            Self::advanced(*old(self), *final(self), result),
        decreases old(self).remaining(), 6nat,
    {
        let mut list: Vec<Expression> = Vec::new();
        let ghost ts = self.tokens();
        let ghost start = self.position();
        if self.next_is(&close) {
            let _ = self.skip_token();
            assert(list.deep_view() =~= Seq::<ast::ExpressionView>::empty());
            return Ok(list);
        }
        proof {
            grammar::lemma_prepend_nothing(grammar::parse_expression_items(ts, start, close@));
        }
        loop
            invariant
                self.tokens() == ts,
                ts == old(self).tokens(),
                start == old(self).position(),
                start <= self.position() <= ts.len(),
                grammar::parse_expression_list(ts, start, close@)
                    == grammar::parse_expression_items(ts, start, close@),
                grammar::parse_expression_items(ts, start, close@) == grammar::prepend(
                    list.deep_view(),
                    grammar::parse_expression_items(ts, self.position(), close@),
                ),
            decreases grammar::left(ts, self.position()),
        {
            let ghost before = list.deep_view();
            let expression = match self.parse_expression(Precedence::Lowest) {
                Ok(expression) => expression,
                Err(e) => {
                    return Err(e);
                },
            };
            let ghost item = expression@;
            list.push(expression);
            proof {
                assert(list.deep_view() =~= before + seq![item]);
            }
            match self.next_token() {
                None => {
                    return Err(ParseError::UnexpectedEnd);
                },
                Some(token) => {
                    if token.equals(&Token::Comma) {
                        proof {
                            grammar::lemma_prepend_prepend(
                                before,
                                seq![item],
                                grammar::parse_expression_items(ts, self.position(), close@),
                            );
                        }
                    } else if token.equals(&close) {
                        return Ok(list);
                    } else {
                        return Err(
                            ParseError::UnexpectedToken {
                                token,
                                expecting: list_expecting(&close),
                            },
                        );
                    }
                },
            }
        }
    }

    /// What follows the `{` of a hash map: `}` at once, or pairs with commas
    /// between them and `}` behind the last.
    fn parse_pair_list(&mut self) -> (result: Result<Vec<(Expression, Expression)>, ParseError>)
        ensures
            Self::yields(
                *old(self),
                *final(self),
                result,
                grammar::parse_pair_list(old(self).tokens(), old(self).position()),
            ),
            Self::advanced(*old(self), *final(self), result),
        decreases old(self).remaining(), 6nat,
    {
        let mut pairs: Vec<(Expression, Expression)> = Vec::new();
        let ghost ts = self.tokens();
        let ghost start = self.position();
        if self.next_is(&Token::CloseBrace) {
            let _ = self.skip_token();
            assert(pairs.deep_view() =~= Seq::<(ast::ExpressionView, ast::ExpressionView)>::empty());
            return Ok(pairs);
        }
        proof {
            grammar::lemma_prepend_nothing(grammar::parse_pair_items(ts, start));
        }
        loop
            invariant
                self.tokens() == ts,
                ts == old(self).tokens(),
                start == old(self).position(),
                start <= self.position() <= ts.len(),
                grammar::parse_pair_list(ts, start) == grammar::parse_pair_items(ts, start),
                grammar::parse_pair_items(ts, start) == grammar::prepend(
                    pairs.deep_view(),
                    grammar::parse_pair_items(ts, self.position()),
                ),
            decreases grammar::left(ts, self.position()),
        {
            let ghost before = pairs.deep_view();
            let key = match self.parse_expression(Precedence::Lowest) {
                Ok(expression) => expression,
                Err(e) => {
                    return Err(e);
                },
            };
            match self.skip_token_expecting(Token::Colon) {
                Ok(_) => {},
                Err(e) => {
                    return Err(e);
                },
            }
            let value = match self.parse_expression(Precedence::Lowest) {
                Ok(expression) => expression,
                Err(e) => {
                    return Err(e);
                },
            };
            let ghost item = (key@, value@);
            pairs.push((key, value));
            proof {
                assert(pairs.deep_view() =~= before + seq![item]);
            }
            match self.next_token() {
                None => {
                    return Err(ParseError::UnexpectedEnd);
                },
                Some(token) => {
                    if token.equals(&Token::Comma) {
                        proof {
                            grammar::lemma_prepend_prepend(
                                before,
                                seq![item],
                                grammar::parse_pair_items(ts, self.position()),
                            );
                        }
                    } else if token.equals(&Token::CloseBrace) {
                        return Ok(pairs);
                    } else {
                        return Err(
                            ParseError::UnexpectedToken {
                                token,
                                expecting: list_expecting(&Token::CloseBrace),
                            },
                        );
                    }
                },
            }
        }
    }

    /// A block in braces.
    fn parse_block(&mut self) -> (result: Result<Vec<Statement>, ParseError>)
        ensures
            Self::yields(
                *old(self),
                *final(self),
                result,
                grammar::parse_block(old(self).tokens(), old(self).position()),
            ),
            Self::advanced(*old(self), *final(self), result),
        decreases old(self).remaining(), 0nat,
    {
        match self.skip_token_expecting(Token::OpenBrace) {
            Ok(_) => {},
            Err(e) => {
                return Err(e);
            },
        }
        let block = match self.parse_statement_list() {
            Ok(block) => block,
            Err(e) => {
                return Err(e);
            },
        };
        match self.skip_token_expecting(Token::CloseBrace) {
            Ok(_) => Ok(block),
            Err(e) => Err(e),
        }
    }

    fn parse_function_expression(&mut self) -> (result: Result<Expression, ParseError>)
        ensures
            Self::yields(
                *old(self),
                *final(self),
                result,
                grammar::parse_function_expression(old(self).tokens(), old(self).position()),
            ),
            Self::advanced(*old(self), *final(self), result),
        decreases old(self).remaining(), 0nat,
    {
        match self.skip_token_expecting(Token::OpenParenthesis) {
            Ok(_) => {},
            Err(e) => {
                return Err(e);
            },
        }
        let arguments_expressions = match self.parse_expression_list(Token::CloseParenthesis) {
            Ok(list) => list,
            Err(e) => {
                return Err(e);
            },
        };
        let arguments = match identifier_names(&arguments_expressions) {
            Some(names) => names,
            None => {
                return Err(ParseError::NonIdentifierExpression);
            },
        };
        let body = match self.parse_block() {
            Ok(body) => body,
            Err(e) => {
                return Err(e);
            },
        };
        let function = Expression::FunctionExpression { arguments, body };
        proof {
            ast::lemma_model_unfolds(function);
        }
        Ok(function)
    }

    fn parse_if_expression(&mut self) -> (result: Result<Expression, ParseError>)
        ensures
            Self::yields(
                *old(self),
                *final(self),
                result,
                grammar::parse_if_expression(old(self).tokens(), old(self).position()),
            ),
            Self::advanced(*old(self), *final(self), result),
        decreases old(self).remaining(), 0nat,
    {
        match self.skip_token_expecting(Token::OpenParenthesis) {
            Ok(_) => {},
            Err(e) => {
                return Err(e);
            },
        }
        let condition = match self.parse_expression(Precedence::Lowest) {
            Ok(condition) => condition,
            Err(e) => {
                return Err(e);
            },
        };
        match self.skip_token_expecting(Token::CloseParenthesis) {
            Ok(_) => {},
            Err(e) => {
                return Err(e);
            },
        }
        let consequence = match self.parse_block() {
            Ok(block) => block,
            Err(e) => {
                return Err(e);
            },
        };
        if self.next_is(&Token::Else) {
            let _ = self.skip_token();
            let alternative = match self.parse_block() {
                Ok(block) => block,
                Err(e) => {
                    return Err(e);
                },
            };
            let branch = Expression::IfExpression {
                condition: Box::new(condition),
                consequence,
                alternative: Some(alternative),
            };
            proof {
                ast::lemma_model_unfolds(branch);
            }
            Ok(branch)
        } else {
            let branch = Expression::IfExpression {
                condition: Box::new(condition),
                consequence,
                alternative: None,
            };
            proof {
                ast::lemma_model_unfolds(branch);
            }
            Ok(branch)
        }
    }

    fn parse_grouped_expression(&mut self) -> (result: Result<Expression, ParseError>)
        ensures
            Self::yields(
                *old(self),
                *final(self),
                result,
                grammar::parse_grouped_expression(old(self).tokens(), old(self).position()),
            ),
            Self::advanced(*old(self), *final(self), result),
        decreases old(self).remaining(), 5nat,
    {
        let expression = match self.parse_expression(Precedence::Lowest) {
            Ok(expression) => expression,
            Err(e) => {
                return Err(e);
            },
        };
        match self.skip_token_expecting(Token::CloseParenthesis) {
            Ok(_) => Ok(expression),
            Err(e) => Err(e),
        }
    }

    fn parse_prefix_expression(&mut self, operation: PrefixOperation) -> (result: Result<
        Expression,
        ParseError,
    >)
        ensures
            Self::yields(
                *old(self),
                *final(self),
                result,
                grammar::parse_prefix_expression(
                    old(self).tokens(),
                    old(self).position(),
                    operation,
                ),
            ),
            Self::advanced(*old(self), *final(self), result),
        decreases old(self).remaining(), 5nat,
    {
        match self.parse_expression(Precedence::Prefix) {
            Ok(expression) => Ok(
                Expression::PrefixExpression { operation, right: Box::new(expression) },
            ),
            Err(e) => Err(e),
        }
    }

    /// What follows the `[` of an array: its elements, then `]`.
    fn parse_array_expression(&mut self) -> (result: Result<Expression, ParseError>)
        ensures
            Self::yields(
                *old(self),
                *final(self),
                result,
                match grammar::parse_expression_list(
                    old(self).tokens(),
                    old(self).position(),
                    TokenView::CloseSquare,
                ) {
                    Err(e) => Err(e),
                    Ok((array, next)) => Ok((ast::ExpressionView::Array { array }, next)),
                },
            ),
            Self::advanced(*old(self), *final(self), result),
        decreases old(self).remaining(), 7nat,
    {
        match self.parse_expression_list(Token::CloseSquare) {
            Ok(array) => {
                let literal = Expression::Array { array };
                proof {
                    ast::lemma_model_unfolds(literal);
                }
                Ok(literal)
            },
            Err(e) => Err(e),
        }
    }

    /// What follows the `{` of a hash map: its pairs, then `}`.
    fn parse_hashmap_expression(&mut self) -> (result: Result<Expression, ParseError>)
        ensures
            Self::yields(
                *old(self),
                *final(self),
                result,
                match grammar::parse_pair_list(old(self).tokens(), old(self).position()) {
                    Err(e) => Err(e),
                    Ok((pairs, next)) => Ok((ast::ExpressionView::HashMap { pairs }, next)),
                },
            ),
            Self::advanced(*old(self), *final(self), result),
        decreases old(self).remaining(), 7nat,
    {
        match self.parse_pair_list() {
            Ok(pairs) => {
                let literal = Expression::HashMap { pairs };
                proof {
                    ast::lemma_model_unfolds(literal);
                }
                Ok(literal)
            },
            Err(e) => Err(e),
        }
    }

    fn parse_prefix(&mut self) -> (result: Result<Expression, ParseError>)
        ensures
            Self::yields(
                *old(self),
                *final(self),
                result,
                grammar::parse_prefix(old(self).tokens(), old(self).position()),
            ),
            Self::advanced(*old(self), *final(self), result),
        decreases old(self).remaining(), 3nat,
    {
        let token = match self.next_token() {
            Some(token) => token,
            None => {
                return Err(ParseError::UnexpectedEnd);
            },
        };
        match token {
            Token::Integer { string } => Self::parse_integer_literal_expression(string),
            Token::StringLiteral { string } => Self::parse_string_literal_expression(string),
            Token::Identifier { name } => Ok(Expression::IdentifierExpression { identifier: name }),
            Token::True => Ok(Expression::Boolean { value: true }),
            Token::False => Ok(Expression::Boolean { value: false }),
            Token::Bang => self.parse_prefix_expression(PrefixOperation::Negate),
            Token::Minus => self.parse_prefix_expression(PrefixOperation::Negative),
            Token::OpenParenthesis => self.parse_grouped_expression(),
            Token::If => self.parse_if_expression(),
            Token::Function => self.parse_function_expression(),
            Token::OpenSquare => self.parse_array_expression(),
            Token::OpenBrace => self.parse_hashmap_expression(),
            other => Err(
                ParseError::UnexpectedToken {
                    token: other,
                    expecting: String::from_str("Prefix operator/Integer/Identifier"),
                },
            ),
        }
    }

    /// What follows the `(` of a call: the arguments, then `)`.
    fn parse_call_expression(&mut self, function: Expression) -> (result: Result<
        Expression,
        ParseError,
    >)
        ensures
            Self::yields(
                *old(self),
                *final(self),
                result,
                match grammar::parse_expression_list(
                    old(self).tokens(),
                    old(self).position(),
                    TokenView::CloseParenthesis,
                ) {
                    Err(e) => Err(e),
                    Ok((arguments, next)) => Ok(
                        (
                            ast::ExpressionView::CallExpression {
                                function: Box::new(function@),
                                arguments,
                            },
                            next,
                        ),
                    ),
                },
            ),
            Self::advanced(*old(self), *final(self), result),
        decreases old(self).remaining(), 7nat,
    {
        match self.parse_expression_list(Token::CloseParenthesis) {
            Ok(arguments) => {
                let call = Expression::CallExpression { function: Box::new(function), arguments };
                proof {
                    ast::lemma_model_unfolds(call);
                }
                Ok(call)
            },
            Err(e) => Err(e),
        }
    }

    /// What follows the `[` of an index: the index, then `]`.
    fn parse_index_expression(&mut self, array: Expression) -> (result: Result<
        Expression,
        ParseError,
    >)
        ensures
            Self::yields(
                *old(self),
                *final(self),
                result,
                match grammar::parse_expression(
                    old(self).tokens(),
                    old(self).position(),
                    Precedence::Lowest,
                ) {
                    Err(e) => Err(e),
                    Ok((index, next)) => match grammar::expect(
                        old(self).tokens(),
                        next,
                        TokenView::CloseSquare,
                    ) {
                        Err(e) => Err(e),
                        Ok(end) => Ok(
                            (
                                ast::ExpressionView::Index {
                                    array: Box::new(array@),
                                    index: Box::new(index),
                                },
                                end,
                            ),
                        ),
                    },
                },
            ),
            Self::advanced(*old(self), *final(self), result),
        decreases old(self).remaining(), 5nat,
    {
        let index = match self.parse_expression(Precedence::Lowest) {
            Ok(index) => index,
            Err(e) => {
                return Err(e);
            },
        };
        match self.skip_token_expecting(Token::CloseSquare) {
            Ok(_) => Ok(Expression::Index { array: Box::new(array), index: Box::new(index) }),
            Err(e) => Err(e),
        }
    }

    /// What follows a binary operator: its right operand.
    fn parse_infix_expression(&mut self, operation: InfixOperation, left: Expression) -> (result:
        Result<Expression, ParseError>)
        ensures
            Self::yields(
                *old(self),
                *final(self),
                result,
                match grammar::parse_expression(
                    old(self).tokens(),
                    old(self).position(),
                    grammar::precedence_of(operation),
                ) {
                    Err(e) => Err(e),
                    Ok((right, next)) => Ok(
                        (
                            ast::ExpressionView::InfixExpression {
                                operation,
                                left: Box::new(left@),
                                right: Box::new(right),
                            },
                            next,
                        ),
                    ),
                },
            ),
            Self::advanced(*old(self), *final(self), result),
        decreases old(self).remaining(), 5nat,
    {
        let precedence = infix_operator_precedence(&operation);
        match self.parse_expression(precedence) {
            Ok(right) => Ok(
                Expression::InfixExpression {
                    operation,
                    left: Box::new(left),
                    right: Box::new(right),
                },
            ),
            Err(e) => Err(e),
        }
    }

    /// One extension of `term`: a call, an index, or a binary operator that
    /// binds tighter than `precedence` with its right operand. Where none
    /// follows, `term` comes back with `false`.
    fn parse_infix(&mut self, term: Expression, precedence: Precedence) -> (result: Result<
        (Expression, bool),
        ParseError,
    >)
        ensures
            final(self).tokens() == old(self).tokens(),
            match grammar::parse_infix(
                old(self).tokens(),
                old(self).position(),
                precedence,
                term@,
            ) {
                None => result matches Ok((found, extended)) && !extended && found@ == term@
                    && final(self).position() == old(self).position(),
                Some(Ok((longer, next))) => result matches Ok((found, extended)) && extended
                    && found@ == longer && final(self).position() == next && old(self).position()
                    < next <= old(self).tokens().len(),
                Some(Err(error)) => result matches Err(found) && found@ == error,
            },
        decreases old(self).remaining(), 1nat,
    {
        let operation = match self.peek_next_token() {
            None => {
                return Ok((term, false));
            },
            Some(Token::OpenParenthesis) => {
                let _ = self.skip_token();
                return match self.parse_call_expression(term) {
                    Ok(call) => Ok((call, true)),
                    Err(e) => Err(e),
                };
            },
            Some(Token::OpenSquare) => {
                let _ = self.skip_token();
                return match self.parse_index_expression(term) {
                    Ok(index) => Ok((index, true)),
                    Err(e) => Err(e),
                };
            },
            Some(token) => match infix_operation_of(token) {
                Some(operation) => operation,
                None => {
                    return Ok((term, false));
                },
            },
        };
        let new_precedence = infix_operator_precedence(&operation);
        if new_precedence.level() <= precedence.level() {
            return Ok((term, false));
        }
        let _ = self.skip_token();
        match self.parse_infix_expression(operation, term) {
            Ok(longer) => Ok((longer, true)),
            Err(e) => Err(e),
        }
    }

    /// An expression whose operators all bind tighter than `precedence`.
    fn parse_expression(&mut self, precedence: Precedence) -> (result: Result<
        Expression,
        ParseError,
    >)
        ensures
            Self::yields(
                *old(self),
                *final(self),
                result,
                grammar::parse_expression(old(self).tokens(), old(self).position(), precedence),
            ),
            Self::advanced(*old(self), *final(self), result),
        decreases old(self).remaining(), 4nat,
    {
        let ghost ts = self.tokens();
        let ghost start = self.position();
        let mut left = match self.parse_prefix() {
            Ok(term) => term,
            Err(e) => {
                return Err(e);
            },
        };
        loop
            invariant
                self.tokens() == ts,
                ts == old(self).tokens(),
                start == old(self).position(),
                start < self.position() <= ts.len(),
                grammar::parse_expression(ts, start, precedence) == grammar::parse_infix_loop(
                    ts,
                    self.position(),
                    precedence,
                    left@,
                ),
            decreases grammar::left(ts, self.position()),
        {
            match self.parse_infix(left, precedence) {
                Err(e) => {
                    return Err(e);
                },
                Ok((longer, extended)) => {
                    if !extended {
                        return Ok(longer);
                    }
                    left = longer;
                },
            }
        }
    }

    fn parse_statement(&mut self) -> (result: Result<Statement, ParseError>)
        ensures
            Self::yields(
                *old(self),
                *final(self),
                result,
                grammar::parse_statement(old(self).tokens(), old(self).position()),
            ),
            Self::advanced(*old(self), *final(self), result),
        decreases old(self).remaining(), 5nat,
    {
        match self.peek_next_token() {
            None => Err(ParseError::UnexpectedEnd),
            Some(Token::Let) => {
                let _ = self.skip_token();
                self.parse_let_statement()
            },
            Some(Token::Return) => {
                let _ = self.skip_token();
                self.parse_return_statement()
            },
            Some(_) => match self.parse_expression(Precedence::Lowest) {
                Ok(expression) => Ok(Statement::ExpressionStatement { expression }),
                Err(e) => Err(e),
            },
        }
    }

    /// The program that the tokens write from the position on: one block that
    /// ends where the tokens end.
    pub fn parse_program(&mut self) -> (result: Result<Program, ParseError>)
        ensures
            Self::yields(
                *old(self),
                *final(self),
                result,
                grammar::parse_program_from(old(self).tokens(), old(self).position()),
            ),
    {
        let program = match self.parse_statement_list() {
            Ok(program) => program,
            Err(e) => {
                return Err(e);
            },
        };
        match self.next_token() {
            None => Ok(program),
            Some(token) => Err(
                ParseError::UnexpectedToken {
                    token,
                    expecting: String::from_str("Prefix operator/Integer/Identifier"),
                },
            ),
        }
    }
}

/// The program that a sequence of tokens writes, or the first error in it.
pub fn parse(tokens: Vec<Token>) -> (result: Result<Program, ParseError>)
    ensures
        match grammar::parse_program(tokens.deep_view()) {
            Ok(program) => result matches Ok(found) && found.deep_view() == program,
            Err(error) => result matches Err(found) && found@ == error,
        },
{
    let mut parser = Parser::from_tokens(tokens);
    parser.parse_program()
}

} // verus!
