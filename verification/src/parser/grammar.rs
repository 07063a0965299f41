//! The grammar: what a sequence of tokens parses to.
//!
//! Every function here reads the tokens `ts` from a position `pos` and gives
//! either the tree it found with the position behind it, or the first error.

use vstd::prelude::*;
use crate::parser::ast::{ExpressionView, InfixOperation, PrefixOperation, StatementView};
use crate::parser::lexer::TokenView;

verus! {

/// How tightly an operator binds, loosest first.
#[derive(PartialEq, Eq, Clone, Copy, Debug, Structural)]
pub enum Precedence {
    Lowest,
    Equal,
    LessGreater,
    Sum,
    Product,
    Prefix,
}

impl Precedence {
    /// The place of this level on the ladder: a higher rank binds tighter.
    pub open spec fn rank(self) -> nat {
        match self {
            Precedence::Lowest => 0,
            Precedence::Equal => 1,
            Precedence::LessGreater => 2,
            Precedence::Sum => 3,
            Precedence::Product => 4,
            Precedence::Prefix => 5,
        }
    }
}

/// The level at which a binary operator binds.
pub open spec fn precedence_of(operation: InfixOperation) -> Precedence {
    match operation {
        InfixOperation::Sum => Precedence::Sum,
        InfixOperation::Subtraction => Precedence::Sum,
        InfixOperation::Product => Precedence::Product,
        InfixOperation::Division => Precedence::Product,
        InfixOperation::Equal => Precedence::Equal,
        InfixOperation::NotEqual => Precedence::Equal,
        InfixOperation::LessThan => Precedence::LessGreater,
        InfixOperation::GreaterThan => Precedence::LessGreater,
        InfixOperation::LessThanEqual => Precedence::LessGreater,
        InfixOperation::GreaterThanEqual => Precedence::LessGreater,
    }
}

/// The binary operator that a token writes, if it writes one.
pub open spec fn infix_operation(token: TokenView) -> Option<InfixOperation> {
    match token {
        TokenView::Plus => Some(InfixOperation::Sum),
        TokenView::Asterisk => Some(InfixOperation::Product),
        TokenView::Slash => Some(InfixOperation::Division),
        TokenView::Minus => Some(InfixOperation::Subtraction),
        TokenView::Equal => Some(InfixOperation::Equal),
        TokenView::NotEqual => Some(InfixOperation::NotEqual),
        TokenView::LessThan => Some(InfixOperation::LessThan),
        TokenView::GreaterThan => Some(InfixOperation::GreaterThan),
        TokenView::LessThanEqual => Some(InfixOperation::LessThanEqual),
        TokenView::GreaterThanEqual => Some(InfixOperation::GreaterThanEqual),
        _ => None,
    }
}

/// Why a sequence of tokens is no program.
pub enum ParseErrorView {
    UnexpectedEnd,
    UnexpectedToken { token: TokenView, expecting: Seq<char> },
    FailedParsingInteger { string: Seq<char> },
    MissingSemicolon,
    NonIdentifierExpression,
}

/// A tree with the position behind it, or the first error.
pub type Parsed<T> = Result<(T, nat), ParseErrorView>;

/// The name of a token's kind.
pub open spec fn token_name(token: TokenView) -> Seq<char> {
    match token {
        TokenView::Identifier { .. } => "Identifier"@,
        TokenView::Integer { .. } => "Integer"@,
        TokenView::StringLiteral { .. } => "StringLiteral"@,
        TokenView::Let => "Let"@,
        TokenView::If => "If"@,
        TokenView::Else => "Else"@,
        TokenView::Function => "Function"@,
        TokenView::Assign => "Assign"@,
        TokenView::Return => "Return"@,
        TokenView::Plus => "Plus"@,
        TokenView::Minus => "Minus"@,
        TokenView::Asterisk => "Asterisk"@,
        TokenView::Slash => "Slash"@,
        TokenView::Bang => "Bang"@,
        TokenView::True => "True"@,
        TokenView::False => "False"@,
        TokenView::Equal => "Equal"@,
        TokenView::NotEqual => "NotEqual"@,
        TokenView::LessThan => "LessThan"@,
        TokenView::GreaterThan => "GreaterThan"@,
        TokenView::LessThanEqual => "LessThanEqual"@,
        TokenView::GreaterThanEqual => "GreaterThanEqual"@,
        TokenView::OpenParenthesis => "OpenParenthesis"@,
        TokenView::CloseParenthesis => "CloseParenthesis"@,
        TokenView::OpenBrace => "OpenBrace"@,
        TokenView::CloseBrace => "CloseBrace"@,
        TokenView::OpenSquare => "OpenSquare"@,
        TokenView::CloseSquare => "CloseSquare"@,
        TokenView::Comma => "Comma"@,
        TokenView::Colon => "Colon"@,
        TokenView::Semicolon => "Semicolon"@,
        TokenView::SingleQuote => "SingleQuote"@,
        TokenView::DoubleQuote => "DoubleQuote"@,
        TokenView::Illegal { .. } => "Illegal"@,
    }
}

/// The value of a run of decimal digits.
pub open spec fn digits_value(digits: Seq<char>) -> int
    decreases digits.len(),
{
    if digits.len() == 0 {
        0
    } else {
        digits_value(digits.drop_last()) * 10 + (digits.last() as int - '0' as int)
    }
}

/// Whether a text is decimal digits only.
pub open spec fn all_digits(text: Seq<char>) -> bool {
    forall|i: int| 0 <= i < text.len() ==> '0' <= #[trigger] text[i] <= '9'
}

/// The integer that a text writes in decimal: an optional sign, then one digit
/// or more. `None` where the text has another shape.
pub open spec fn integer_value(text: Seq<char>) -> Option<int> {
    if text.len() == 0 {
        None
    } else {
        let signed = text[0] == '-' || text[0] == '+';
        let digits = if signed {
            text.skip(1)
        } else {
            text
        };
        if digits.len() == 0 || !all_digits(digits) {
            None
        } else if text[0] == '-' {
            Some(-digits_value(digits))
        } else {
            Some(digits_value(digits))
        }
    }
}

/// The 64-bit integer that a text writes, where it writes one that fits.
pub open spec fn parse_i64(text: Seq<char>) -> Option<i64> {
    match integer_value(text) {
        Some(value) => if i64::MIN <= value <= i64::MAX {
            Some(value as i64)
        } else {
            None
        },
        None => None,
    }
}

/// The token at `pos`, where the tokens reach that far.
pub open spec fn token_at(ts: Seq<TokenView>, pos: nat) -> Option<TokenView> {
    if pos < ts.len() {
        Some(ts[pos as int])
    } else {
        None
    }
}

/// The position behind the token `wanted`, where it stands at `pos`.
pub open spec fn expect(ts: Seq<TokenView>, pos: nat, wanted: TokenView) -> Result<
    nat,
    ParseErrorView,
> {
    match token_at(ts, pos) {
        None => Err(ParseErrorView::UnexpectedEnd),
        Some(token) => if token == wanted {
            Ok((pos + 1) as nat)
        } else {
            Err(ParseErrorView::UnexpectedToken { token, expecting: token_name(wanted) })
        },
    }
}

/// How many tokens are left from `pos` on.
pub open spec fn left(ts: Seq<TokenView>, pos: nat) -> nat {
    if pos <= ts.len() {
        (ts.len() - pos) as nat
    } else {
        0
    }
}

/// Whether `next` lies behind `pos` and within the tokens. Every tree takes at
/// least one token, so wherever the grammar asks this, it holds.
pub open spec fn advances(ts: Seq<TokenView>, pos: nat, next: nat) -> bool {
    pos < next <= ts.len()
}

/// What is expected behind an item of a list that `close` ends.
pub open spec fn list_expecting(close: TokenView) -> Seq<char> {
    if close == TokenView::CloseParenthesis {
        "comma, close parenthesis"@
    } else if close == TokenView::CloseSquare {
        "comma, close square"@
    } else {
        "comma, close brace"@
    }
}

/// The names that a list of identifier expressions holds; `None` where one of
/// them is not a bare identifier.
pub open spec fn identifier_names(expressions: Seq<ExpressionView>) -> Option<Seq<Seq<char>>> {
    if forall|i: int| 0 <= i < expressions.len() ==> #[trigger] expressions[i] is IdentifierExpression {
        Some(
            Seq::new(expressions.len(), |i: int| expressions[i]->IdentifierExpression_identifier),
        )
    } else {
        None
    }
}

/// Whether a block ends at what stands at a position: the end of the tokens,
/// or a closing brace.
pub open spec fn ends_block(token: Option<TokenView>) -> bool {
    token is None || token == Some(TokenView::CloseBrace)
}

/// A block: statements up to the end of the tokens or a closing brace. All but
/// the last end with a semicolon. A last one without it must be a bare
/// expression that the block ends behind, and becomes the `return` of the
/// block. Any other statement without a semicolon is refused.
pub open spec fn parse_statement_list(ts: Seq<TokenView>, pos: nat) -> Parsed<Seq<StatementView>>
    decreases left(ts, pos), 6nat,
{
    match token_at(ts, pos) {
        None => Ok((Seq::empty(), pos)),
        Some(TokenView::CloseBrace) => Ok((Seq::empty(), pos)),
        Some(_) => match parse_statement(ts, pos) {
            Err(e) => Err(e),
            Ok((statement, next)) => match token_at(ts, next) {
                Some(TokenView::Semicolon) => if !advances(ts, pos, next) {
                    Err(ParseErrorView::UnexpectedEnd)
                } else {
                    match parse_statement_list(ts, next + 1) {
                        Err(e) => Err(e),
                        Ok((rest, end)) => Ok((seq![statement] + rest, end)),
                    }
                },
                after => match statement {
                    StatementView::ExpressionStatement { expression } => if ends_block(after) {
                        Ok((seq![StatementView::ReturnStatement { expression }], next))
                    } else {
                        Err(ParseErrorView::MissingSemicolon)
                    },
                    _ => Err(ParseErrorView::MissingSemicolon),
                },
            },
        },
    }
}

/// One statement: `let`, `return`, or an expression.
pub open spec fn parse_statement(ts: Seq<TokenView>, pos: nat) -> Parsed<StatementView>
    decreases left(ts, pos), 5nat,
{
    match token_at(ts, pos) {
        None => Err(ParseErrorView::UnexpectedEnd),
        Some(TokenView::Let) => parse_let_statement(ts, pos + 1),
        Some(TokenView::Return) => match parse_expression(ts, pos + 1, Precedence::Lowest) {
            Err(e) => Err(e),
            Ok((expression, next)) => Ok((StatementView::ReturnStatement { expression }, next)),
        },
        Some(_) => match parse_expression(ts, pos, Precedence::Lowest) {
            Err(e) => Err(e),
            Ok((expression, next)) => Ok(
                (StatementView::ExpressionStatement { expression }, next),
            ),
        },
    }
}

/// What follows `let`: a name, `=`, an expression.
pub open spec fn parse_let_statement(ts: Seq<TokenView>, pos: nat) -> Parsed<StatementView>
    decreases left(ts, pos), 0nat,
{
    match token_at(ts, pos) {
        None => Err(ParseErrorView::UnexpectedEnd),
        Some(TokenView::Identifier { name }) => match expect(ts, pos + 1, TokenView::Assign) {
            Err(e) => Err(e),
            Ok(start) => match parse_expression(ts, start, Precedence::Lowest) {
                Err(e) => Err(e),
                Ok((expression, next)) => Ok(
                    (StatementView::LetStatement { identifier: name, expression }, next),
                ),
            },
        },
        Some(token) => Err(
            ParseErrorView::UnexpectedToken { token, expecting: "Identifier"@ },
        ),
    }
}

/// An expression whose operators all bind tighter than `precedence`: a prefix
/// term, extended as long as a tighter operator, a call or an index follows.
pub open spec fn parse_expression(ts: Seq<TokenView>, pos: nat, precedence: Precedence) -> Parsed<
    ExpressionView,
>
    decreases left(ts, pos), 4nat,
{
    match parse_prefix(ts, pos) {
        Err(e) => Err(e),
        Ok((term, next)) => if !advances(ts, pos, next) {
            Err(ParseErrorView::UnexpectedEnd)
        } else {
            parse_infix_loop(ts, next, precedence, term)
        },
    }
}

/// The expression that `term` grows into from `pos` on.
pub open spec fn parse_infix_loop(
    ts: Seq<TokenView>,
    pos: nat,
    precedence: Precedence,
    term: ExpressionView,
) -> Parsed<ExpressionView>
    decreases left(ts, pos), 2nat,
{
    match parse_infix(ts, pos, precedence, term) {
        None => Ok((term, pos)),
        Some(Err(e)) => Err(e),
        Some(Ok((longer, next))) => if !advances(ts, pos, next) {
            Err(ParseErrorView::UnexpectedEnd)
        } else {
            parse_infix_loop(ts, next, precedence, longer)
        },
    }
}

/// One extension of `term`: a call, an index, or a binary operator that binds
/// tighter than `precedence` with its right operand. `None` where none follows.
pub open spec fn parse_infix(
    ts: Seq<TokenView>,
    pos: nat,
    precedence: Precedence,
    term: ExpressionView,
) -> Option<Parsed<ExpressionView>>
    decreases left(ts, pos), 1nat,
{
    match token_at(ts, pos) {
        None => None,
        Some(TokenView::OpenParenthesis) => Some(
            match parse_expression_list(ts, pos + 1, TokenView::CloseParenthesis) {
                Err(e) => Err(e),
                Ok((arguments, next)) => Ok(
                    (ExpressionView::CallExpression { function: Box::new(term), arguments }, next),
                ),
            },
        ),
        Some(TokenView::OpenSquare) => Some(
            match parse_expression(ts, pos + 1, Precedence::Lowest) {
                Err(e) => Err(e),
                Ok((index, next)) => match expect(ts, next, TokenView::CloseSquare) {
                    Err(e) => Err(e),
                    Ok(end) => Ok(
                        (
                            ExpressionView::Index {
                                array: Box::new(term),
                                index: Box::new(index),
                            },
                            end,
                        ),
                    ),
                },
            },
        ),
        Some(token) => match infix_operation(token) {
            None => None,
            Some(operation) => if precedence_of(operation).rank() <= precedence.rank() {
                None
            } else {
                Some(
                    match parse_expression(ts, pos + 1, precedence_of(operation)) {
                        Err(e) => Err(e),
                        Ok((right, next)) => Ok(
                            (
                                ExpressionView::InfixExpression {
                                    operation,
                                    left: Box::new(term),
                                    right: Box::new(right),
                                },
                                next,
                            ),
                        ),
                    },
                )
            },
        },
    }
}

/// A prefix term: a literal, a name, a unary operator with its operand, a
/// group in parentheses, `if`, `fn`, an array or a hash map.
pub open spec fn parse_prefix(ts: Seq<TokenView>, pos: nat) -> Parsed<ExpressionView>
    decreases left(ts, pos), 3nat,
{
    match token_at(ts, pos) {
        None => Err(ParseErrorView::UnexpectedEnd),
        Some(TokenView::Integer { string }) => match parse_i64(string) {
            Some(value) => Ok((ExpressionView::IntegerLiteral { value }, pos + 1)),
            None => Err(ParseErrorView::FailedParsingInteger { string }),
        },
        Some(TokenView::StringLiteral { string }) => Ok(
            (ExpressionView::StringLiteral { value: string }, pos + 1),
        ),
        Some(TokenView::Identifier { name }) => Ok(
            (ExpressionView::IdentifierExpression { identifier: name }, pos + 1),
        ),
        Some(TokenView::True) => Ok((ExpressionView::Boolean { value: true }, pos + 1)),
        Some(TokenView::False) => Ok((ExpressionView::Boolean { value: false }, pos + 1)),
        Some(TokenView::Bang) => parse_prefix_expression(ts, pos + 1, PrefixOperation::Negate),
        Some(TokenView::Minus) => parse_prefix_expression(ts, pos + 1, PrefixOperation::Negative),
        Some(TokenView::OpenParenthesis) => parse_grouped_expression(ts, pos + 1),
        Some(TokenView::If) => parse_if_expression(ts, pos + 1),
        Some(TokenView::Function) => parse_function_expression(ts, pos + 1),
        Some(TokenView::OpenSquare) => match parse_expression_list(
            ts,
            pos + 1,
            TokenView::CloseSquare,
        ) {
            Err(e) => Err(e),
            Ok((array, next)) => Ok((ExpressionView::Array { array }, next)),
        },
        Some(TokenView::OpenBrace) => match parse_pair_list(ts, pos + 1) {
            Err(e) => Err(e),
            Ok((pairs, next)) => Ok((ExpressionView::HashMap { pairs }, next)),
        },
        Some(token) => Err(
            ParseErrorView::UnexpectedToken {
                token,
                expecting: "Prefix operator/Integer/Identifier"@,
            },
        ),
    }
}

/// The operand of a unary operator: it binds tighter than any binary one.
pub open spec fn parse_prefix_expression(
    ts: Seq<TokenView>,
    pos: nat,
    operation: PrefixOperation,
) -> Parsed<ExpressionView>
    decreases left(ts, pos), 5nat,
{
    match parse_expression(ts, pos, Precedence::Prefix) {
        Err(e) => Err(e),
        Ok((right, next)) => Ok(
            (ExpressionView::PrefixExpression { operation, right: Box::new(right) }, next),
        ),
    }
}

/// What follows `(`: an expression at the lowest level, then `)`.
pub open spec fn parse_grouped_expression(ts: Seq<TokenView>, pos: nat) -> Parsed<ExpressionView>
    decreases left(ts, pos), 5nat,
{
    match parse_expression(ts, pos, Precedence::Lowest) {
        Err(e) => Err(e),
        Ok((expression, next)) => match expect(ts, next, TokenView::CloseParenthesis) {
            Err(e) => Err(e),
            Ok(end) => Ok((expression, end)),
        },
    }
}

/// A block in braces.
pub open spec fn parse_block(ts: Seq<TokenView>, pos: nat) -> Parsed<Seq<StatementView>>
    decreases left(ts, pos), 0nat,
{
    match expect(ts, pos, TokenView::OpenBrace) {
        Err(e) => Err(e),
        Ok(start) => match parse_statement_list(ts, start) {
            Err(e) => Err(e),
            Ok((block, next)) => match expect(ts, next, TokenView::CloseBrace) {
                Err(e) => Err(e),
                Ok(end) => Ok((block, end)),
            },
        },
    }
}

/// What follows `if`: a condition in parentheses, a block, and perhaps `else`
/// with a second block.
pub open spec fn parse_if_expression(ts: Seq<TokenView>, pos: nat) -> Parsed<ExpressionView>
    decreases left(ts, pos), 0nat,
{
    match expect(ts, pos, TokenView::OpenParenthesis) {
        Err(e) => Err(e),
        Ok(start) => match parse_expression(ts, start, Precedence::Lowest) {
            Err(e) => Err(e),
            Ok((condition, next)) => match expect(ts, next, TokenView::CloseParenthesis) {
                Err(e) => Err(e),
                Ok(open) => if !advances(ts, pos, open) {
                    Err(ParseErrorView::UnexpectedEnd)
                } else {
                    match parse_block(ts, open) {
                        Err(e) => Err(e),
                        Ok((consequence, after)) => match token_at(ts, after) {
                            Some(TokenView::Else) => if !advances(ts, pos, after) {
                                Err(ParseErrorView::UnexpectedEnd)
                            } else {
                                match parse_block(ts, after + 1) {
                                    Err(e) => Err(e),
                                    Ok((alternative, end)) => Ok(
                                        (
                                            ExpressionView::IfExpression {
                                                condition: Box::new(condition),
                                                consequence,
                                                alternative: Some(alternative),
                                            },
                                            end,
                                        ),
                                    ),
                                }
                            },
                            _ => Ok(
                                (
                                    ExpressionView::IfExpression {
                                        condition: Box::new(condition),
                                        consequence,
                                        alternative: None,
                                    },
                                    after,
                                ),
                            ),
                        },
                    }
                },
            },
        },
    }
}

/// What follows `fn`: a list of parameters in parentheses, each a bare
/// identifier, then the body in braces.
pub open spec fn parse_function_expression(ts: Seq<TokenView>, pos: nat) -> Parsed<ExpressionView>
    decreases left(ts, pos), 0nat,
{
    match expect(ts, pos, TokenView::OpenParenthesis) {
        Err(e) => Err(e),
        Ok(start) => match parse_expression_list(ts, start, TokenView::CloseParenthesis) {
            Err(e) => Err(e),
            Ok((parameters, next)) => match identifier_names(parameters) {
                None => Err(ParseErrorView::NonIdentifierExpression),
                Some(arguments) => if !advances(ts, pos, next) {
                    Err(ParseErrorView::UnexpectedEnd)
                } else {
                    match parse_block(ts, next) {
                        Err(e) => Err(e),
                        Ok((body, end)) => Ok(
                            (ExpressionView::FunctionExpression { arguments, body }, end),
                        ),
                    }
                },
            },
        },
    }
}

/// What follows the opening token of a list: `close` at once, or expressions
/// with commas between them and `close` behind the last.
pub open spec fn parse_expression_list(ts: Seq<TokenView>, pos: nat, close: TokenView) -> Parsed<
    Seq<ExpressionView>,
>
    decreases left(ts, pos), 6nat,
{
    if token_at(ts, pos) == Some(close) {
        Ok((Seq::empty(), pos + 1))
    } else {
        parse_expression_items(ts, pos, close)
    }
}

/// One expression or more with commas between them, then `close`.
pub open spec fn parse_expression_items(ts: Seq<TokenView>, pos: nat, close: TokenView) -> Parsed<
    Seq<ExpressionView>,
>
    decreases left(ts, pos), 5nat,
{
    match parse_expression(ts, pos, Precedence::Lowest) {
        Err(e) => Err(e),
        Ok((expression, next)) => match token_at(ts, next) {
            None => Err(ParseErrorView::UnexpectedEnd),
            Some(token) => if token == TokenView::Comma {
                if !advances(ts, pos, next) {
                    Err(ParseErrorView::UnexpectedEnd)
                } else {
                    match parse_expression_items(ts, next + 1, close) {
                        Err(e) => Err(e),
                        Ok((rest, end)) => Ok((seq![expression] + rest, end)),
                    }
                }
            } else if token == close {
                Ok((seq![expression], next + 1))
            } else {
                Err(ParseErrorView::UnexpectedToken { token, expecting: list_expecting(close) })
            },
        },
    }
}

/// What follows the `{` of a hash map: `}` at once, or pairs with commas
/// between them and `}` behind the last.
pub open spec fn parse_pair_list(ts: Seq<TokenView>, pos: nat) -> Parsed<
    Seq<(ExpressionView, ExpressionView)>,
>
    decreases left(ts, pos), 6nat,
{
    if token_at(ts, pos) == Some(TokenView::CloseBrace) {
        Ok((Seq::empty(), pos + 1))
    } else {
        parse_pair_items(ts, pos)
    }
}

/// One pair `key : value` or more with commas between them, then `}`.
pub open spec fn parse_pair_items(ts: Seq<TokenView>, pos: nat) -> Parsed<
    Seq<(ExpressionView, ExpressionView)>,
>
    decreases left(ts, pos), 5nat,
{
    match parse_expression(ts, pos, Precedence::Lowest) {
        Err(e) => Err(e),
        Ok((key, colon)) => match expect(ts, colon, TokenView::Colon) {
            Err(e) => Err(e),
            Ok(start) => if !advances(ts, pos, start) {
                Err(ParseErrorView::UnexpectedEnd)
            } else {
                match parse_expression(ts, start, Precedence::Lowest) {
                    Err(e) => Err(e),
                    Ok((value, next)) => match token_at(ts, next) {
                        None => Err(ParseErrorView::UnexpectedEnd),
                        Some(TokenView::Comma) => if !advances(ts, pos, next) {
                            Err(ParseErrorView::UnexpectedEnd)
                        } else {
                            match parse_pair_items(ts, next + 1) {
                                Err(e) => Err(e),
                                Ok((rest, end)) => Ok((seq![(key, value)] + rest, end)),
                            }
                        },
                        Some(TokenView::CloseBrace) => Ok((seq![(key, value)], next + 1)),
                        Some(token) => Err(
                            ParseErrorView::UnexpectedToken {
                                token,
                                expecting: list_expecting(TokenView::CloseBrace),
                            },
                        ),
                    },
                }
            },
        },
    }
}

/// A list with `front` before it, where there is a list.
pub open spec fn prepend<T>(front: Seq<T>, rest: Parsed<Seq<T>>) -> Parsed<Seq<T>> {
    match rest {
        Ok((items, end)) => Ok((front + items, end)),
        Err(e) => Err(e),
    }
}

/// Nothing before a list leaves the list as it is.
pub proof fn lemma_prepend_nothing<T>(rest: Parsed<Seq<T>>)
    ensures
        prepend(Seq::empty(), rest) == rest,
{
    match rest {
        Ok((items, end)) => {
            assert(Seq::<T>::empty() + items =~= items);
        },
        Err(e) => {},
    }
}

/// Two lists before a third are their concatenation before it.
pub proof fn lemma_prepend_prepend<T>(front: Seq<T>, middle: Seq<T>, rest: Parsed<Seq<T>>)
    ensures
        prepend(front, prepend(middle, rest)) == prepend(front + middle, rest),
{
    match rest {
        Ok((items, end)) => {
            assert(front + (middle + items) =~= (front + middle) + items);
        },
        Err(e) => {},
    }
}

/// The program that the tokens write from `pos` on: one block that ends
/// where the tokens end. A closing brace behind it is refused, as any token is
/// where a statement should start.
pub open spec fn parse_program_from(ts: Seq<TokenView>, pos: nat) -> Parsed<Seq<StatementView>> {
    match parse_statement_list(ts, pos) {
        Err(e) => Err(e),
        Ok((program, next)) => match token_at(ts, next) {
            None => Ok((program, next)),
            Some(token) => Err(
                ParseErrorView::UnexpectedToken {
                    token,
                    expecting: "Prefix operator/Integer/Identifier"@,
                },
            ),
        },
    }
}

/// The program that a sequence of tokens writes.
pub open spec fn parse_program(ts: Seq<TokenView>) -> Result<Seq<StatementView>, ParseErrorView> {
    match parse_program_from(ts, 0) {
        Err(e) => Err(e),
        Ok((program, _)) => Ok(program),
    }
}

/// The term that a token is all by itself, if it is one: a name, a string, a
/// boolean, or an integer that fits.
pub open spec fn atom(token: TokenView) -> Option<ExpressionView> {
    match token {
        TokenView::Identifier { name } => Some(
            ExpressionView::IdentifierExpression { identifier: name },
        ),
        TokenView::StringLiteral { string } => Some(ExpressionView::StringLiteral { value: string }),
        TokenView::True => Some(ExpressionView::Boolean { value: true }),
        TokenView::False => Some(ExpressionView::Boolean { value: false }),
        TokenView::Integer { string } => match parse_i64(string) {
            Some(value) => Some(ExpressionView::IntegerLiteral { value }),
            None => None,
        },
        _ => None,
    }
}

/// Whether no expression goes on at `pos`: the tokens end there, or the token
/// there is no binary operator and opens neither a call nor an index.
pub open spec fn stops(ts: Seq<TokenView>, pos: nat) -> bool {
    match token_at(ts, pos) {
        None => true,
        Some(token) => token != TokenView::OpenParenthesis && token != TokenView::OpenSquare
            && infix_operation(token) is None,
    }
}

/// The binary operation of two operands.
pub open spec fn binary(operation: InfixOperation, left: ExpressionView, right: ExpressionView)
    -> ExpressionView {
    ExpressionView::InfixExpression { operation, left: Box::new(left), right: Box::new(right) }
}

/// A token that is a term by itself parses to that term.
pub proof fn lemma_atom(ts: Seq<TokenView>, pos: nat, term: ExpressionView)
    requires
        pos < ts.len(),
        atom(ts[pos as int]) == Some(term),
    ensures
        parse_prefix(ts, pos) == Ok::<(ExpressionView, nat), ParseErrorView>((term, pos + 1)),
{
}

/// Where no expression goes on, a term stays as it is.
pub proof fn lemma_stops(ts: Seq<TokenView>, pos: nat, precedence: Precedence, term: ExpressionView)
    requires
        stops(ts, pos),
    ensures
        parse_infix_loop(ts, pos, precedence, term) == Ok::<(ExpressionView, nat), ParseErrorView>(
            (term, pos),
        ),
{
    assert(parse_infix(ts, pos, precedence, term) is None);
}

/// Precedence and associativity. Of two operators in a row, `a first b second
/// c`, the second takes `b` where it binds tighter than the first; else the
/// first takes it, so that operators of one level group to the left.
pub proof fn lemma_two_operators(
    ts: Seq<TokenView>,
    pos: nat,
    a: ExpressionView,
    first: InfixOperation,
    b: ExpressionView,
    second: InfixOperation,
    c: ExpressionView,
)
    requires
        pos + 5 <= ts.len(),
        atom(ts[pos as int]) == Some(a),
        infix_operation(ts[pos + 1 as int]) == Some(first),
        atom(ts[pos + 2 as int]) == Some(b),
        infix_operation(ts[pos + 3 as int]) == Some(second),
        atom(ts[pos + 4 as int]) == Some(c),
        stops(ts, pos + 5),
    ensures
        parse_expression(ts, pos, Precedence::Lowest) == Ok::<(ExpressionView, nat), ParseErrorView>(
            (
                if precedence_of(second).rank() > precedence_of(first).rank() {
                    binary(first, a, binary(second, b, c))
                } else {
                    binary(second, binary(first, a, b), c)
                },
                pos + 5,
            ),
        ),
{
    lemma_atom(ts, pos, a);
    lemma_atom(ts, pos + 2, b);
    lemma_atom(ts, pos + 4, c);
    let low = Precedence::Lowest;
    let one = precedence_of(first);
    let two = precedence_of(second);
    assert(ts[pos + 1 as int] != TokenView::OpenParenthesis && ts[pos + 1 as int] != TokenView::OpenSquare);
    assert(ts[pos + 3 as int] != TokenView::OpenParenthesis && ts[pos + 3 as int] != TokenView::OpenSquare);
    // the last operand, under the second operator
    lemma_stops(ts, pos + 5, two, c);
    assert(parse_expression(ts, pos + 4, two) == Ok::<(ExpressionView, nat), ParseErrorView>(
        (c, pos + 5),
    ));
    if two.rank() > one.rank() {
        let right = binary(second, b, c);
        assert(parse_infix(ts, pos + 3, one, b) == Some(
            Ok::<(ExpressionView, nat), ParseErrorView>((right, pos + 5)),
        ));
        lemma_stops(ts, pos + 5, one, right);
        assert(parse_infix_loop(ts, pos + 3, one, b) == Ok::<(ExpressionView, nat), ParseErrorView>(
            (right, pos + 5),
        ));
        assert(parse_expression(ts, pos + 2, one) == Ok::<(ExpressionView, nat), ParseErrorView>(
            (right, pos + 5),
        ));
        let whole = binary(first, a, right);
        assert(parse_infix(ts, pos + 1, low, a) == Some(
            Ok::<(ExpressionView, nat), ParseErrorView>((whole, pos + 5)),
        ));
        lemma_stops(ts, pos + 5, low, whole);
        assert(parse_infix_loop(ts, pos + 1, low, a) == Ok::<(ExpressionView, nat), ParseErrorView>(
            (whole, pos + 5),
        ));
    } else {
        assert(parse_infix(ts, pos + 3, one, b) is None);
        assert(parse_infix_loop(ts, pos + 3, one, b) == Ok::<(ExpressionView, nat), ParseErrorView>(
            (b, pos + 3),
        ));
        assert(parse_expression(ts, pos + 2, one) == Ok::<(ExpressionView, nat), ParseErrorView>(
            (b, pos + 3),
        ));
        let left = binary(first, a, b);
        assert(parse_infix(ts, pos + 1, low, a) == Some(
            Ok::<(ExpressionView, nat), ParseErrorView>((left, pos + 3)),
        ));
        let whole = binary(second, left, c);
        assert(parse_infix(ts, pos + 3, low, left) == Some(
            Ok::<(ExpressionView, nat), ParseErrorView>((whole, pos + 5)),
        ));
        lemma_stops(ts, pos + 5, low, whole);
        assert(parse_infix_loop(ts, pos + 3, low, left) == Ok::<
            (ExpressionView, nat),
            ParseErrorView,
        >((whole, pos + 5)));
        assert(parse_infix_loop(ts, pos + 1, low, a) == Ok::<(ExpressionView, nat), ParseErrorView>(
            (whole, pos + 5),
        ));
    }
}

/// A unary operator binds tighter than any binary one: in `- a second b`
/// the operator `second` takes the whole `- a` as its left operand.
pub proof fn lemma_prefix_binds_tighter(
    ts: Seq<TokenView>,
    pos: nat,
    operation: PrefixOperation,
    a: ExpressionView,
    second: InfixOperation,
    b: ExpressionView,
)
    requires
        pos + 4 <= ts.len(),
        ts[pos as int] == (match operation {
            PrefixOperation::Negative => TokenView::Minus,
            PrefixOperation::Negate => TokenView::Bang,
        }),
        atom(ts[pos + 1 as int]) == Some(a),
        infix_operation(ts[pos + 2 as int]) == Some(second),
        atom(ts[pos + 3 as int]) == Some(b),
        stops(ts, pos + 4),
    ensures
        parse_expression(ts, pos, Precedence::Lowest) == Ok::<(ExpressionView, nat), ParseErrorView>(
            (
                binary(
                    second,
                    ExpressionView::PrefixExpression { operation, right: Box::new(a) },
                    b,
                ),
                pos + 4,
            ),
        ),
{
    lemma_atom(ts, pos + 1, a);
    lemma_atom(ts, pos + 3, b);
    let low = Precedence::Lowest;
    let two = precedence_of(second);
    let negated = ExpressionView::PrefixExpression { operation, right: Box::new(a) };
    assert(ts[pos + 2 as int] != TokenView::OpenParenthesis && ts[pos + 2 as int]
        != TokenView::OpenSquare);
    assert(parse_infix(ts, pos + 2, Precedence::Prefix, a) is None);
    assert(parse_infix_loop(ts, pos + 2, Precedence::Prefix, a) == Ok::<
        (ExpressionView, nat),
        ParseErrorView,
    >((a, pos + 2)));
    assert(parse_expression(ts, pos + 1, Precedence::Prefix) == Ok::<
        (ExpressionView, nat),
        ParseErrorView,
    >((a, pos + 2)));
    assert(parse_prefix_expression(ts, pos + 1, operation) == Ok::<
        (ExpressionView, nat),
        ParseErrorView,
    >((negated, pos + 2)));
    assert(parse_prefix(ts, pos) == Ok::<(ExpressionView, nat), ParseErrorView>(
        (negated, pos + 2),
    ));
    lemma_stops(ts, pos + 4, two, b);
    assert(parse_expression(ts, pos + 3, two) == Ok::<(ExpressionView, nat), ParseErrorView>(
        (b, pos + 4),
    ));
    let whole = binary(second, negated, b);
    assert(parse_infix(ts, pos + 2, low, negated) == Some(
        Ok::<(ExpressionView, nat), ParseErrorView>((whole, pos + 4)),
    ));
    lemma_stops(ts, pos + 4, low, whole);
    assert(parse_infix_loop(ts, pos + 2, low, negated) == Ok::<
        (ExpressionView, nat),
        ParseErrorView,
    >((whole, pos + 4)));
}

/// Parentheses start over at the lowest level: in `( a first b ) second c`
/// the operator `first` takes `b`, however tight `second` binds.
pub proof fn lemma_group(
    ts: Seq<TokenView>,
    pos: nat,
    a: ExpressionView,
    first: InfixOperation,
    b: ExpressionView,
    second: InfixOperation,
    c: ExpressionView,
)
    requires
        pos + 7 <= ts.len(),
        ts[pos as int] == TokenView::OpenParenthesis,
        atom(ts[pos + 1 as int]) == Some(a),
        infix_operation(ts[pos + 2 as int]) == Some(first),
        atom(ts[pos + 3 as int]) == Some(b),
        ts[pos + 4 as int] == TokenView::CloseParenthesis,
        infix_operation(ts[pos + 5 as int]) == Some(second),
        atom(ts[pos + 6 as int]) == Some(c),
        stops(ts, pos + 7),
    ensures
        parse_expression(ts, pos, Precedence::Lowest) == Ok::<(ExpressionView, nat), ParseErrorView>(
            (binary(second, binary(first, a, b), c), pos + 7),
        ),
{
    lemma_atom(ts, pos + 1, a);
    lemma_atom(ts, pos + 3, b);
    lemma_atom(ts, pos + 6, c);
    let low = Precedence::Lowest;
    let one = precedence_of(first);
    let two = precedence_of(second);
    let inner = binary(first, a, b);
    assert(ts[pos + 2 as int] != TokenView::OpenParenthesis && ts[pos + 2 as int]
        != TokenView::OpenSquare);
    assert(ts[pos + 5 as int] != TokenView::OpenParenthesis && ts[pos + 5 as int]
        != TokenView::OpenSquare);
    assert(stops(ts, pos + 4));
    lemma_stops(ts, pos + 4, one, b);
    assert(parse_expression(ts, pos + 3, one) == Ok::<(ExpressionView, nat), ParseErrorView>(
        (b, pos + 4),
    ));
    assert(parse_infix(ts, pos + 2, low, a) == Some(
        Ok::<(ExpressionView, nat), ParseErrorView>((inner, pos + 4)),
    ));
    lemma_stops(ts, pos + 4, low, inner);
    assert(parse_infix_loop(ts, pos + 2, low, a) == Ok::<(ExpressionView, nat), ParseErrorView>(
        (inner, pos + 4),
    ));
    assert(parse_expression(ts, pos + 1, low) == Ok::<(ExpressionView, nat), ParseErrorView>(
        (inner, pos + 4),
    ));
    assert(parse_grouped_expression(ts, pos + 1) == Ok::<(ExpressionView, nat), ParseErrorView>(
        (inner, pos + 5),
    ));
    assert(parse_prefix(ts, pos) == Ok::<(ExpressionView, nat), ParseErrorView>(
        (inner, pos + 5),
    ));
    lemma_stops(ts, pos + 7, two, c);
    assert(parse_expression(ts, pos + 6, two) == Ok::<(ExpressionView, nat), ParseErrorView>(
        (c, pos + 7),
    ));
    let whole = binary(second, inner, c);
    assert(parse_infix(ts, pos + 5, low, inner) == Some(
        Ok::<(ExpressionView, nat), ParseErrorView>((whole, pos + 7)),
    ));
    lemma_stops(ts, pos + 7, low, whole);
    assert(parse_infix_loop(ts, pos + 5, low, inner) == Ok::<
        (ExpressionView, nat),
        ParseErrorView,
    >((whole, pos + 7)));
}

/// Every statement but the last of its block ends with a semicolon. A
/// statement that no semicolon follows is refused, unless it is a bare
/// expression that the block ends behind.
pub proof fn lemma_missing_semicolon(
    ts: Seq<TokenView>,
    pos: nat,
    statement: StatementView,
    next: nat,
)
    requires
        parse_statement(ts, pos) == Ok::<(StatementView, nat), ParseErrorView>((statement, next)),
        token_at(ts, next) != Some(TokenView::Semicolon),
        !(statement is ExpressionStatement) || !ends_block(token_at(ts, next)),
    ensures
        parse_statement_list(ts, pos) == Err::<(Seq<StatementView>, nat), ParseErrorView>(
            ParseErrorView::MissingSemicolon,
        ),
{
    assert(token_at(ts, pos) != Some(TokenView::CloseBrace)) by {
        if token_at(ts, pos) == Some(TokenView::CloseBrace) {
            assert(parse_prefix(ts, pos) is Err);
            assert(parse_expression(ts, pos, Precedence::Lowest) is Err);
        }
    }
    lemma_statement_takes_tokens(ts, pos);
}

/// The implicit return. Where the tokens at `pos` write a bare expression and
/// the block ends behind it, the block from `pos` on is that expression alone,
/// as a `return`.
pub proof fn lemma_implicit_return(
    ts: Seq<TokenView>,
    pos: nat,
    expression: ExpressionView,
    next: nat,
)
    requires
        parse_statement(ts, pos) == Ok::<(StatementView, nat), ParseErrorView>(
            (StatementView::ExpressionStatement { expression }, next),
        ),
        ends_block(token_at(ts, next)),
    ensures
        parse_statement_list(ts, pos) == Ok::<(Seq<StatementView>, nat), ParseErrorView>(
            (seq![StatementView::ReturnStatement { expression }], next),
        ),
{
    assert(token_at(ts, pos) != Some(TokenView::CloseBrace)) by {
        if token_at(ts, pos) == Some(TokenView::CloseBrace) {
            assert(parse_prefix(ts, pos) is Err);
            assert(parse_expression(ts, pos, Precedence::Lowest) is Err);
        }
    }
    lemma_statement_takes_tokens(ts, pos);
}

/// A block ends at the end of the tokens or before a closing brace, and
/// nowhere else: no token is left unread behind a block but the brace that
/// closes it. A program reads every token.
pub proof fn lemma_block_ends(ts: Seq<TokenView>, pos: nat)
    requires
        pos <= ts.len(),
    ensures
        parse_statement_list(ts, pos) matches Ok((_, next)) ==> ends_block(token_at(ts, next)),
        parse_program_from(ts, pos) matches Ok((_, next)) ==> next == ts.len(),
    decreases left(ts, pos), 6nat,
{
    lemma_statement_list_within_tokens(ts, pos);
    match token_at(ts, pos) {
        None => {},
        Some(TokenView::CloseBrace) => {},
        Some(_) => {
            lemma_statement_takes_tokens(ts, pos);
            match parse_statement(ts, pos) {
                Err(_) => {},
                Ok((_, next)) => {
                    if token_at(ts, next) == Some(TokenView::Semicolon) {
                        lemma_block_ends(ts, next + 1);
                        lemma_statement_list_within_tokens(ts, next + 1);
                    }
                },
            }
        },
    }
}

/// Whether a tree was found between `pos` and the end of the tokens, and took
/// at least one of them.
pub open spec fn took_tokens<T>(ts: Seq<TokenView>, pos: nat, parsed: Parsed<T>) -> bool {
    parsed matches Ok((_, next)) ==> advances(ts, pos, next)
}

/// Whether a tree was found between `pos` and the end of the tokens.
pub open spec fn within_tokens<T>(ts: Seq<TokenView>, pos: nat, parsed: Parsed<T>) -> bool {
    parsed matches Ok((_, next)) ==> pos <= next <= ts.len()
}

/// Every statement takes at least one token. So does every expression, every
/// list and every block in braces: wherever the grammar asks whether a
/// position `advances`, it does.
pub proof fn lemma_statement_takes_tokens(ts: Seq<TokenView>, pos: nat)
    ensures
        took_tokens(ts, pos, parse_statement(ts, pos)),
    decreases left(ts, pos), 5nat,
{
    match token_at(ts, pos) {
        None => {},
        Some(TokenView::Let) => {
            lemma_let_statement_takes_tokens(ts, pos + 1);
        },
        Some(TokenView::Return) => {
            lemma_expression_takes_tokens(ts, pos + 1, Precedence::Lowest);
        },
        Some(_) => {
            lemma_expression_takes_tokens(ts, pos, Precedence::Lowest);
        },
    }
}

/// A block ends within the tokens.
pub proof fn lemma_statement_list_within_tokens(ts: Seq<TokenView>, pos: nat)
    requires
        pos <= ts.len(),
    ensures
        within_tokens(ts, pos, parse_statement_list(ts, pos)),
    decreases left(ts, pos), 6nat,
{
    match token_at(ts, pos) {
        None => {},
        Some(TokenView::CloseBrace) => {},
        Some(_) => {
            lemma_statement_takes_tokens(ts, pos);
            match parse_statement(ts, pos) {
                Err(_) => {},
                Ok((_, next)) => {
                    if token_at(ts, next) == Some(TokenView::Semicolon) {
                        lemma_statement_list_within_tokens(ts, next + 1);
                    }
                },
            }
        },
    }
}

proof fn lemma_let_statement_takes_tokens(ts: Seq<TokenView>, pos: nat)
    ensures
        took_tokens(ts, pos, parse_let_statement(ts, pos)),
    decreases left(ts, pos), 0nat,
{
    match token_at(ts, pos) {
        Some(TokenView::Identifier { name }) => {
            match expect(ts, pos + 1, TokenView::Assign) {
                Ok(start) => {
                    lemma_expression_takes_tokens(ts, start, Precedence::Lowest);
                },
                Err(_) => {},
            }
        },
        _ => {},
    }
}

/// Every expression takes at least one token.
pub proof fn lemma_expression_takes_tokens(ts: Seq<TokenView>, pos: nat, precedence: Precedence)
    ensures
        took_tokens(ts, pos, parse_expression(ts, pos, precedence)),
    decreases left(ts, pos), 4nat,
{
    lemma_prefix_takes_tokens(ts, pos);
    match parse_prefix(ts, pos) {
        Err(_) => {},
        Ok((term, next)) => {
            lemma_infix_loop_within_tokens(ts, next, precedence, term);
        },
    }
}

proof fn lemma_infix_loop_within_tokens(
    ts: Seq<TokenView>,
    pos: nat,
    precedence: Precedence,
    term: ExpressionView,
)
    requires
        pos <= ts.len(),
    ensures
        within_tokens(ts, pos, parse_infix_loop(ts, pos, precedence, term)),
    decreases left(ts, pos), 2nat,
{
    lemma_infix_takes_tokens(ts, pos, precedence, term);
    match parse_infix(ts, pos, precedence, term) {
        Some(Ok((longer, next))) => {
            lemma_infix_loop_within_tokens(ts, next, precedence, longer);
        },
        _ => {},
    }
}

proof fn lemma_infix_takes_tokens(
    ts: Seq<TokenView>,
    pos: nat,
    precedence: Precedence,
    term: ExpressionView,
)
    ensures
        parse_infix(ts, pos, precedence, term) matches Some(parsed) ==> took_tokens(ts, pos, parsed),
    decreases left(ts, pos), 1nat,
{
    match token_at(ts, pos) {
        None => {},
        Some(TokenView::OpenParenthesis) => {
            lemma_expression_list_takes_tokens(ts, pos + 1, TokenView::CloseParenthesis);
        },
        Some(TokenView::OpenSquare) => {
            lemma_expression_takes_tokens(ts, pos + 1, Precedence::Lowest);
        },
        Some(token) => {
            match infix_operation(token) {
                Some(operation) => {
                    lemma_expression_takes_tokens(ts, pos + 1, precedence_of(operation));
                },
                None => {},
            }
        },
    }
}

proof fn lemma_prefix_takes_tokens(ts: Seq<TokenView>, pos: nat)
    ensures
        took_tokens(ts, pos, parse_prefix(ts, pos)),
    decreases left(ts, pos), 3nat,
{
    match token_at(ts, pos) {
        Some(TokenView::Bang) => {
            lemma_expression_takes_tokens(ts, pos + 1, Precedence::Prefix);
        },
        Some(TokenView::Minus) => {
            lemma_expression_takes_tokens(ts, pos + 1, Precedence::Prefix);
        },
        Some(TokenView::OpenParenthesis) => {
            lemma_expression_takes_tokens(ts, pos + 1, Precedence::Lowest);
        },
        Some(TokenView::If) => {
            lemma_if_takes_tokens(ts, pos + 1);
        },
        Some(TokenView::Function) => {
            lemma_function_takes_tokens(ts, pos + 1);
        },
        Some(TokenView::OpenSquare) => {
            lemma_expression_list_takes_tokens(ts, pos + 1, TokenView::CloseSquare);
        },
        Some(TokenView::OpenBrace) => {
            lemma_pair_list_takes_tokens(ts, pos + 1);
        },
        _ => {},
    }
}

proof fn lemma_block_takes_tokens(ts: Seq<TokenView>, pos: nat)
    ensures
        took_tokens(ts, pos, parse_block(ts, pos)),
    decreases left(ts, pos), 0nat,
{
    match expect(ts, pos, TokenView::OpenBrace) {
        Ok(start) => {
            lemma_statement_list_within_tokens(ts, start);
        },
        Err(_) => {},
    }
}

proof fn lemma_if_takes_tokens(ts: Seq<TokenView>, pos: nat)
    ensures
        took_tokens(ts, pos, parse_if_expression(ts, pos)),
    decreases left(ts, pos), 0nat,
{
    match expect(ts, pos, TokenView::OpenParenthesis) {
        Ok(start) => {
            lemma_expression_takes_tokens(ts, start, Precedence::Lowest);
            match parse_expression(ts, start, Precedence::Lowest) {
                Ok((_, next)) => {
                    match expect(ts, next, TokenView::CloseParenthesis) {
                        Ok(open) => {
                            lemma_block_takes_tokens(ts, open);
                            match parse_block(ts, open) {
                                Ok((_, after)) => {
                                    if token_at(ts, after) == Some(TokenView::Else) {
                                        lemma_block_takes_tokens(ts, after + 1);
                                    }
                                },
                                Err(_) => {},
                            }
                        },
                        Err(_) => {},
                    }
                },
                Err(_) => {},
            }
        },
        Err(_) => {},
    }
}

proof fn lemma_function_takes_tokens(ts: Seq<TokenView>, pos: nat)
    ensures
        took_tokens(ts, pos, parse_function_expression(ts, pos)),
    decreases left(ts, pos), 0nat,
{
    match expect(ts, pos, TokenView::OpenParenthesis) {
        Ok(start) => {
            lemma_expression_list_takes_tokens(ts, start, TokenView::CloseParenthesis);
            match parse_expression_list(ts, start, TokenView::CloseParenthesis) {
                Ok((_, next)) => {
                    lemma_block_takes_tokens(ts, next);
                },
                Err(_) => {},
            }
        },
        Err(_) => {},
    }
}

proof fn lemma_expression_list_takes_tokens(ts: Seq<TokenView>, pos: nat, close: TokenView)
    ensures
        took_tokens(ts, pos, parse_expression_list(ts, pos, close)),
    decreases left(ts, pos), 6nat,
{
    if token_at(ts, pos) != Some(close) {
        lemma_expression_items_take_tokens(ts, pos, close);
    }
}

proof fn lemma_expression_items_take_tokens(ts: Seq<TokenView>, pos: nat, close: TokenView)
    ensures
        took_tokens(ts, pos, parse_expression_items(ts, pos, close)),
    decreases left(ts, pos), 5nat,
{
    lemma_expression_takes_tokens(ts, pos, Precedence::Lowest);
    match parse_expression(ts, pos, Precedence::Lowest) {
        Ok((_, next)) => {
            if token_at(ts, next) == Some(TokenView::Comma) {
                lemma_expression_items_take_tokens(ts, next + 1, close);
            }
        },
        Err(_) => {},
    }
}

proof fn lemma_pair_list_takes_tokens(ts: Seq<TokenView>, pos: nat)
    ensures
        took_tokens(ts, pos, parse_pair_list(ts, pos)),
    decreases left(ts, pos), 6nat,
{
    if token_at(ts, pos) != Some(TokenView::CloseBrace) {
        lemma_pair_items_take_tokens(ts, pos);
    }
}

proof fn lemma_pair_items_take_tokens(ts: Seq<TokenView>, pos: nat)
    ensures
        took_tokens(ts, pos, parse_pair_items(ts, pos)),
    decreases left(ts, pos), 5nat,
{
    lemma_expression_takes_tokens(ts, pos, Precedence::Lowest);
    match parse_expression(ts, pos, Precedence::Lowest) {
        Ok((_, colon)) => {
            match expect(ts, colon, TokenView::Colon) {
                Ok(start) => {
                    lemma_expression_takes_tokens(ts, start, Precedence::Lowest);
                    match parse_expression(ts, start, Precedence::Lowest) {
                        Ok((_, next)) => {
                            if token_at(ts, next) == Some(TokenView::Comma) {
                                lemma_pair_items_take_tokens(ts, next + 1);
                            }
                        },
                        Err(_) => {},
                    }
                },
                Err(_) => {},
            }
        },
        Err(_) => {},
    }
}

} // verus!
