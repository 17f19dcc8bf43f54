//! The syntax tree that the instrumentation pass works on.
//!
//! The tree holds a program as far as the pass looks into it: the kinds of
//! expression that it tells apart, each with its parts, and the statements
//! in their nesting. Everything else is an `Other` node, which keeps the
//! statements nested in it so that the pass can reach them.

use vstd::prelude::*;
use crate::text::texts_view;

verus! {

/// An expression.
#[derive(Debug, PartialEq, Eq)]
#[allow(inconsistent_fields)]
pub enum Expression {
    /// `test ? consequent : alternate`
    Conditional { test: Box<Expression>, consequent: Box<Expression>, alternate: Box<Expression> },
    /// A template literal: its text pieces and the expressions between them.
    TemplateLiteral { quasis: Vec<String>, expressions: Vec<Expression> },
    /// An array literal.
    Array { elements: Vec<Expression> },
    /// An expression in parentheses.
    Parenthesized { expression: Box<Expression> },
    /// `left operator right` with an arithmetic, relational or bitwise operator.
    Binary { left: Box<Expression>, operator: String, right: Box<Expression> },
    /// `left operator right` with `&&`, `||` or `??`.
    Logical { left: Box<Expression>, operator: String, right: Box<Expression> },
    /// `true` or `false`.
    BooleanLiteral { value: bool },
    /// A string literal, by its value.
    StringLiteral { value: String },
    /// A numeric literal, as it is written.
    NumericLiteral { raw: String },
    /// A reference to a name.
    Identifier { name: String },
    /// `object.property`, or `object?.property` if `optional`.
    StaticMember { object: Box<Expression>, property: String, optional: bool },
    /// `callee(arguments)`, or `callee?.(arguments)` if `optional`.
    Call { callee: Box<Expression>, arguments: Vec<Expression>, optional: bool },
    /// Any other expression: its source text, and the statements nested in
    /// it, such as the bodies of the functions that it holds.
    Other { source: String, body: Vec<Statement> },
}

/// A statement.
#[derive(Debug, PartialEq, Eq)]
pub enum Statement {
    /// An expression statement.
    Expression(ExpressionStatement),
    /// Any other statement, by the statements nested in it.
    Other { body: Vec<Statement> },
}

/// An expression statement: an expression, and the byte offset in the source
/// text at which the statement starts.
#[derive(Debug, PartialEq, Eq)]
pub struct ExpressionStatement {
    pub start: u32,
    pub expression: Expression,
}

/// A program: its top-level statements.
#[derive(Debug, PartialEq, Eq)]
pub struct Program {
    pub body: Vec<Statement>,
}

/// The mathematical content of an [`Expression`].
#[allow(inconsistent_fields)]
pub enum ExpressionView {
    Conditional {
        test: Box<ExpressionView>,
        consequent: Box<ExpressionView>,
        alternate: Box<ExpressionView>,
    },
    TemplateLiteral { quasis: Seq<Seq<char>>, expressions: Seq<ExpressionView> },
    Array { elements: Seq<ExpressionView> },
    Parenthesized { expression: Box<ExpressionView> },
    Binary { left: Box<ExpressionView>, operator: Seq<char>, right: Box<ExpressionView> },
    Logical { left: Box<ExpressionView>, operator: Seq<char>, right: Box<ExpressionView> },
    BooleanLiteral { value: bool },
    StringLiteral { value: Seq<char> },
    NumericLiteral { raw: Seq<char> },
    Identifier { name: Seq<char> },
    StaticMember { object: Box<ExpressionView>, property: Seq<char>, optional: bool },
    Call { callee: Box<ExpressionView>, arguments: Seq<ExpressionView>, optional: bool },
    Other { source: Seq<char>, body: Seq<StatementView> },
}

/// The mathematical content of a [`Statement`].
pub enum StatementView {
    Expression(ExpressionStatementView),
    Other { body: Seq<StatementView> },
}

/// The mathematical content of an [`ExpressionStatement`].
pub struct ExpressionStatementView {
    pub start: nat,
    pub expression: ExpressionView,
}

/// The mathematical content of a [`Program`].
pub struct ProgramView {
    pub body: Seq<StatementView>,
}

/// The content of an expression.
pub open spec fn expression_view(e: Expression) -> ExpressionView
    decreases e,
{
    match e {
        Expression::Conditional { test, consequent, alternate } => ExpressionView::Conditional {
            test: Box::new(expression_view(*test)),
            consequent: Box::new(expression_view(*consequent)),
            alternate: Box::new(expression_view(*alternate)),
        },
        Expression::TemplateLiteral { quasis, expressions } => ExpressionView::TemplateLiteral {
            quasis: texts_view(quasis@),
            expressions: expression_views(expressions@),
        },
        Expression::Array { elements } => ExpressionView::Array {
            elements: expression_views(elements@),
        },
        Expression::Parenthesized { expression } => ExpressionView::Parenthesized {
            expression: Box::new(expression_view(*expression)),
        },
        Expression::Binary { left, operator, right } => ExpressionView::Binary {
            left: Box::new(expression_view(*left)),
            operator: operator@,
            right: Box::new(expression_view(*right)),
        },
        Expression::Logical { left, operator, right } => ExpressionView::Logical {
            left: Box::new(expression_view(*left)),
            operator: operator@,
            right: Box::new(expression_view(*right)),
        },
        Expression::BooleanLiteral { value } => ExpressionView::BooleanLiteral { value },
        Expression::StringLiteral { value } => ExpressionView::StringLiteral { value: value@ },
        Expression::NumericLiteral { raw } => ExpressionView::NumericLiteral { raw: raw@ },
        Expression::Identifier { name } => ExpressionView::Identifier { name: name@ },
        Expression::StaticMember { object, property, optional } => ExpressionView::StaticMember {
            object: Box::new(expression_view(*object)),
            property: property@,
            optional,
        },
        Expression::Call { callee, arguments, optional } => ExpressionView::Call {
            callee: Box::new(expression_view(*callee)),
            arguments: expression_views(arguments@),
            optional,
        },
        Expression::Other { source, body } => ExpressionView::Other {
            source: source@,
            body: statement_views(body@),
        },
    }
}

/// The contents of a list of expressions.
pub open spec fn expression_views(items: Seq<Expression>) -> Seq<ExpressionView>
    decreases items,
{
    Seq::new(
        items.len(),
        |i: int|
            if 0 <= i < items.len() {
                expression_view(items[i])
            } else {
                ExpressionView::BooleanLiteral { value: false }
            },
    )
}

/// The content of a statement.
pub open spec fn statement_view(s: Statement) -> StatementView
    decreases s,
{
    match s {
        Statement::Expression(statement) => StatementView::Expression(
            ExpressionStatementView {
                start: statement.start as nat,
                expression: expression_view(statement.expression),
            },
        ),
        Statement::Other { body } => StatementView::Other { body: statement_views(body@) },
    }
}

/// The contents of a list of statements.
pub open spec fn statement_views(items: Seq<Statement>) -> Seq<StatementView>
    decreases items,
{
    Seq::new(
        items.len(),
        |i: int|
            if 0 <= i < items.len() {
                statement_view(items[i])
            } else {
                StatementView::Other { body: Seq::empty() }
            },
    )
}

impl View for Expression {
    type V = ExpressionView;

    open spec fn view(&self) -> ExpressionView {
        expression_view(*self)
    }
}

impl View for Statement {
    type V = StatementView;

    open spec fn view(&self) -> StatementView {
        statement_view(*self)
    }
}

impl View for ExpressionStatement {
    type V = ExpressionStatementView;

    open spec fn view(&self) -> ExpressionStatementView {
        ExpressionStatementView { start: self.start as nat, expression: self.expression@ }
    }
}

impl View for Program {
    type V = ProgramView;

    open spec fn view(&self) -> ProgramView {
        ProgramView { body: statement_views(self.body@) }
    }
}

} // verus!
