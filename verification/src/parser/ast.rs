//! The syntax tree, and the mathematical value each node stands for.

use vstd::prelude::*;

verus! {

/// A binary operator.
#[derive(PartialEq, Eq, Clone, Copy, Debug, Structural)]
pub enum InfixOperation {
    Sum,
    Product,
    Division,
    Subtraction,
    Equal,
    NotEqual,
    LessThan,
    GreaterThan,
    LessThanEqual,
    GreaterThanEqual,
}

/// A unary operator: `-` is `Negative`, `!` is `Negate`.
#[derive(PartialEq, Eq, Clone, Copy, Debug, Structural)]
pub enum PrefixOperation {
    Negative,
    Negate,
}

/// A statement of a block.
#[derive(PartialEq, Debug)]
pub enum Statement {
    LetStatement { identifier: String, expression: Expression },
    ReturnStatement { expression: Expression },
    ExpressionStatement { expression: Expression },
}

/// An expression. A function literal holds no scope: it becomes a function
/// value when it is evaluated.
#[allow(inconsistent_fields)]
#[derive(PartialEq, Debug)]
pub enum Expression {
    IntegerLiteral { value: i64 },
    StringLiteral { value: String },
    Array { array: Vec<Expression> },
    HashMap { pairs: Vec<(Expression, Expression)> },
    IdentifierExpression { identifier: String },
    PrefixExpression { operation: PrefixOperation, right: Box<Expression> },
    InfixExpression { operation: InfixOperation, left: Box<Expression>, right: Box<Expression> },
    IfExpression {
        condition: Box<Expression>,
        consequence: Vec<Statement>,
        alternative: Option<Vec<Statement>>,
    },
    FunctionExpression { arguments: Vec<String>, body: Vec<Statement> },
    CallExpression { function: Box<Expression>, arguments: Vec<Expression> },
    Index { array: Box<Expression>, index: Box<Expression> },
    Boolean { value: bool },
}

/// A statement or an expression.
#[derive(PartialEq, Debug)]
pub enum Node {
    Statement(Statement),
    Expression(Expression),
}

/// What a [`Node`] stands for.
pub enum NodeView {
    Statement(StatementView),
    Expression(ExpressionView),
}

/// A program: the statements of its outermost block.
pub type Program = Vec<Statement>;

/// What a [`Statement`] stands for: the same tree over sequences.
pub enum StatementView {
    LetStatement { identifier: Seq<char>, expression: ExpressionView },
    ReturnStatement { expression: ExpressionView },
    ExpressionStatement { expression: ExpressionView },
}

/// What an [`Expression`] stands for: the same tree over sequences.
#[allow(inconsistent_fields)]
pub enum ExpressionView {
    IntegerLiteral { value: i64 },
    StringLiteral { value: Seq<char> },
    Array { array: Seq<ExpressionView> },
    HashMap { pairs: Seq<(ExpressionView, ExpressionView)> },
    IdentifierExpression { identifier: Seq<char> },
    PrefixExpression { operation: PrefixOperation, right: Box<ExpressionView> },
    InfixExpression {
        operation: InfixOperation,
        left: Box<ExpressionView>,
        right: Box<ExpressionView>,
    },
    IfExpression {
        condition: Box<ExpressionView>,
        consequence: Seq<StatementView>,
        alternative: Option<Seq<StatementView>>,
    },
    FunctionExpression { arguments: Seq<Seq<char>>, body: Seq<StatementView> },
    CallExpression { function: Box<ExpressionView>, arguments: Seq<ExpressionView> },
    Index { array: Box<ExpressionView>, index: Box<ExpressionView> },
    Boolean { value: bool },
}

impl Statement {
    /// The tree this statement stands for.
    pub open spec fn model(&self) -> StatementView
        decreases self,
    {
        match self {
            Statement::LetStatement { identifier, expression } => StatementView::LetStatement {
                identifier: identifier@,
                expression: expression.model(),
            },
            Statement::ReturnStatement { expression } => StatementView::ReturnStatement {
                expression: expression.model(),
            },
            Statement::ExpressionStatement { expression } => StatementView::ExpressionStatement {
                expression: expression.model(),
            },
        }
    }
}

impl Expression {
    /// The tree this expression stands for.
    pub open spec fn model(&self) -> ExpressionView
        decreases self,
    {
        match self {
            Expression::IntegerLiteral { value } => ExpressionView::IntegerLiteral { value: *value },
            Expression::StringLiteral { value } => ExpressionView::StringLiteral { value: value@ },
            Expression::Array { array } => ExpressionView::Array {
                array: Seq::new(
                    array@.len(),
                    |i: int|
                        if 0 <= i < array@.len() {
                            array@[i].model()
                        } else {
                            arbitrary()
                        },
                ),
            },
            Expression::HashMap { pairs } => ExpressionView::HashMap {
                pairs: Seq::new(
                    pairs@.len(),
                    |i: int|
                        if 0 <= i < pairs@.len() {
                            (pairs@[i].0.model(), pairs@[i].1.model())
                        } else {
                            arbitrary()
                        },
                ),
            },
            Expression::IdentifierExpression { identifier } => ExpressionView::IdentifierExpression {
                identifier: identifier@,
            },
            Expression::PrefixExpression { operation, right } => ExpressionView::PrefixExpression {
                operation: *operation,
                right: Box::new(right.model()),
            },
            Expression::InfixExpression { operation, left, right } => {
                ExpressionView::InfixExpression {
                    operation: *operation,
                    left: Box::new(left.model()),
                    right: Box::new(right.model()),
                }
            },
            Expression::IfExpression { condition, consequence, alternative } => {
                ExpressionView::IfExpression {
                    condition: Box::new(condition.model()),
                    consequence: Seq::new(
                        consequence@.len(),
                        |i: int|
                            if 0 <= i < consequence@.len() {
                                consequence@[i].model()
                            } else {
                                arbitrary()
                            },
                    ),
                    alternative: match alternative {
                        Some(block) => Some(
                            Seq::new(
                                block@.len(),
                                |i: int|
                                    if 0 <= i < block@.len() {
                                        block@[i].model()
                                    } else {
                                        arbitrary()
                                    },
                            ),
                        ),
                        None => None,
                    },
                }
            },
            Expression::FunctionExpression { arguments, body } => {
                ExpressionView::FunctionExpression {
                    arguments: arguments.deep_view(),
                    body: Seq::new(
                        body@.len(),
                        |i: int|
                            if 0 <= i < body@.len() {
                                body@[i].model()
                            } else {
                                arbitrary()
                            },
                    ),
                }
            },
            Expression::CallExpression { function, arguments } => ExpressionView::CallExpression {
                function: Box::new(function.model()),
                arguments: Seq::new(
                    arguments@.len(),
                    |i: int|
                        if 0 <= i < arguments@.len() {
                            arguments@[i].model()
                        } else {
                            arbitrary()
                        },
                ),
            },
            Expression::Index { array, index } => ExpressionView::Index {
                array: Box::new(array.model()),
                index: Box::new(index.model()),
            },
            Expression::Boolean { value } => ExpressionView::Boolean { value: *value },
        }
    }
}

impl View for Statement {
    type V = StatementView;

    open spec fn view(&self) -> StatementView {
        self.model()
    }
}

impl DeepView for Statement {
    type V = StatementView;

    open spec fn deep_view(&self) -> StatementView {
        self.model()
    }
}

impl View for Expression {
    type V = ExpressionView;

    open spec fn view(&self) -> ExpressionView {
        self.model()
    }
}

impl DeepView for Expression {
    type V = ExpressionView;

    open spec fn deep_view(&self) -> ExpressionView {
        self.model()
    }
}

/// The model of a node that holds vectors is the node over their deep views.
pub proof fn lemma_model_unfolds(e: Expression)
    ensures
        e matches Expression::Array { array } ==> e@ == (ExpressionView::Array {
            array: array.deep_view(),
        }),
        e matches Expression::HashMap { pairs } ==> e@ == (ExpressionView::HashMap {
            pairs: pairs.deep_view(),
        }),
        e matches Expression::IfExpression { condition, consequence, alternative } ==> e@ == (
        ExpressionView::IfExpression {
            condition: Box::new(condition@),
            consequence: consequence.deep_view(),
            alternative: alternative.deep_view(),
        }),
        e matches Expression::FunctionExpression { arguments, body } ==> e@ == (
        ExpressionView::FunctionExpression {
            arguments: arguments.deep_view(),
            body: body.deep_view(),
        }),
        e matches Expression::CallExpression { function, arguments } ==> e@ == (
        ExpressionView::CallExpression {
            function: Box::new(function@),
            arguments: arguments.deep_view(),
        }),
{
    match e {
        Expression::Array { array } => {
            assert(e@->Array_array =~= array.deep_view());
        },
        Expression::HashMap { pairs } => {
            assert(e@->pairs =~= pairs.deep_view());
        },
        Expression::IfExpression { condition, consequence, alternative } => {
            assert(e@->consequence =~= consequence.deep_view());
            match alternative {
                Some(block) => {
                    assert(e@->alternative->0 =~= block.deep_view());
                },
                None => {},
            }
        },
        Expression::FunctionExpression { arguments, body } => {
            assert(e@->body =~= body.deep_view());
        },
        Expression::CallExpression { function, arguments } => {
            assert(e@->CallExpression_arguments =~= arguments.deep_view());
        },
        _ => {},
    }
}

/// A copy of a list of names.
pub fn clone_names(names: &Vec<String>) -> (copy: Vec<String>)
    ensures
        copy.deep_view() == names.deep_view(),
{
    let mut copy: Vec<String> = Vec::new();
    let mut i: usize = 0;
    while i < names.len()
        invariant
            i <= names.len(),
            copy@.len() == i,
            forall|j: int| 0 <= j < i ==> copy@[j]@ == names@[j]@,
        decreases names.len() - i,
    {
        copy.push(names[i].clone());
        i += 1;
    }
    assert(copy.deep_view() =~= names.deep_view());
    copy
}

/// A copy of a block.
pub fn clone_statements(statements: &Vec<Statement>) -> (copy: Vec<Statement>)
    ensures
        copy.deep_view() == statements.deep_view(),
    decreases statements,
{
    let mut copy: Vec<Statement> = Vec::new();
    let mut i: usize = 0;
    while i < statements.len()
        invariant
            i <= statements.len(),
            copy@.len() == i,
            forall|j: int| 0 <= j < i ==> copy@[j]@ == statements@[j]@,
        decreases statements.len() - i,
    {
        copy.push(statements[i].duplicate());
        i += 1;
    }
    assert(copy.deep_view() =~= statements.deep_view());
    copy
}

/// A copy of a list of expressions.
pub fn clone_expressions(expressions: &Vec<Expression>) -> (copy: Vec<Expression>)
    ensures
        copy.deep_view() == expressions.deep_view(),
    decreases expressions,
{
    let mut copy: Vec<Expression> = Vec::new();
    let mut i: usize = 0;
    while i < expressions.len()
        invariant
            i <= expressions.len(),
            copy@.len() == i,
            forall|j: int| 0 <= j < i ==> copy@[j]@ == expressions@[j]@,
        decreases expressions.len() - i,
    {
        copy.push(expressions[i].duplicate());
        i += 1;
    }
    assert(copy.deep_view() =~= expressions.deep_view());
    copy
}

impl Statement {
    /// A deep copy: a new tree that stands for the same statement.
    pub fn duplicate(&self) -> (copy: Statement)
        ensures
            copy@ == self@,
        decreases self,
    {
        match self {
            Statement::LetStatement { identifier, expression } => Statement::LetStatement {
                identifier: identifier.clone(),
                expression: expression.duplicate(),
            },
            Statement::ReturnStatement { expression } => Statement::ReturnStatement {
                expression: expression.duplicate(),
            },
            Statement::ExpressionStatement { expression } => Statement::ExpressionStatement {
                expression: expression.duplicate(),
            },
        }
    }
}

impl Expression {
    /// A deep copy: a new tree that stands for the same expression.
    pub fn duplicate(&self) -> (copy: Expression)
        ensures
            copy@ == self@,
        decreases self,
    {
        proof {
            lemma_model_unfolds(*self);
        }
        let copy = match self {
            Expression::IntegerLiteral { value } => Expression::IntegerLiteral { value: *value },
            Expression::StringLiteral { value } => Expression::StringLiteral {
                value: value.clone(),
            },
            Expression::Array { array } => Expression::Array { array: clone_expressions(array) },
            Expression::HashMap { pairs } => {
                let mut copy: Vec<(Expression, Expression)> = Vec::new();
                let mut i: usize = 0;
                while i < pairs.len()
                    invariant
                        i <= pairs.len(),
                        copy@.len() == i,
                        self is HashMap && self->pairs == *pairs,
                        forall|j: int|
                            0 <= j < i ==> copy@[j].0@ == pairs@[j].0@ && copy@[j].1@
                                == pairs@[j].1@,
                    decreases pairs.len() - i,
                {
                    copy.push((pairs[i].0.duplicate(), pairs[i].1.duplicate()));
                    i += 1;
                }
                assert(copy.deep_view() =~= pairs.deep_view());
                Expression::HashMap { pairs: copy }
            },
            Expression::IdentifierExpression { identifier } => Expression::IdentifierExpression {
                identifier: identifier.clone(),
            },
            Expression::PrefixExpression { operation, right } => Expression::PrefixExpression {
                operation: *operation,
                right: Box::new(right.duplicate()),
            },
            Expression::InfixExpression { operation, left, right } => Expression::InfixExpression {
                operation: *operation,
                left: Box::new(left.duplicate()),
                right: Box::new(right.duplicate()),
            },
            Expression::IfExpression { condition, consequence, alternative } => {
                Expression::IfExpression {
                    condition: Box::new(condition.duplicate()),
                    consequence: clone_statements(consequence),
                    alternative: match alternative {
                        Some(block) => Some(clone_statements(block)),
                        None => None,
                    },
                }
            },
            Expression::FunctionExpression { arguments, body } => Expression::FunctionExpression {
                arguments: clone_names(arguments),
                body: clone_statements(body),
            },
            Expression::CallExpression { function, arguments } => Expression::CallExpression {
                function: Box::new(function.duplicate()),
                arguments: clone_expressions(arguments),
            },
            Expression::Index { array, index } => Expression::Index {
                array: Box::new(array.duplicate()),
                index: Box::new(index.duplicate()),
            },
            Expression::Boolean { value } => Expression::Boolean { value: *value },
        };
        proof {
            lemma_model_unfolds(copy);
        }
        copy
    }
}

impl View for Node {
    type V = NodeView;

    open spec fn view(&self) -> NodeView {
        match self {
            Node::Statement(statement) => NodeView::Statement(statement@),
            Node::Expression(expression) => NodeView::Expression(expression@),
        }
    }
}

impl Clone for Node {
    fn clone(&self) -> (copy: Self)
        ensures
            copy@ == self@,
    {
        match self {
            Node::Statement(statement) => Node::Statement(statement.duplicate()),
            Node::Expression(expression) => Node::Expression(expression.duplicate()),
        }
    }
}

impl Clone for Statement {
    fn clone(&self) -> (copy: Self)
        ensures
            copy@ == self@,
    {
        self.duplicate()
    }
}

impl Clone for Expression {
    fn clone(&self) -> (copy: Self)
        ensures
            copy@ == self@,
    {
        self.duplicate()
    }
}

} // verus!
