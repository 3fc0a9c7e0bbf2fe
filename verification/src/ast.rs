//! The syntax tree, and its mathematical view.
//!
//! Every node owns its children and carries the span of the source text it
//! was read from. The view of a node holds names as character sequences and
//! children as sequences of views; an operation is viewed as one node with
//! its operator and operands.

use vstd::prelude::*;
use crate::span::Span;

verus! {

/// A whole program: its items in the order of their declaration.
#[derive(Debug, PartialEq, Eq)]
pub struct Program {
    items: Vec<Item>,
}

/// A declaration at the top level of a program.
#[derive(Debug, PartialEq, Eq)]
pub enum Item {
    Function { name: String, arguments: Vec<String>, body: Statement, span: Span },
}

/// A statement. A block owns its statements in order; a branch owns its
/// condition, the statement to run if it holds, and the one to run if not.
#[derive(Debug, PartialEq, Eq)]
#[allow(inconsistent_fields)]
pub enum Statement {
    Block { body: Vec<Statement>, span: Span },
    Binding { bind_to: String, value: Expression, span: Span },
    Expression { expression: Expression, span: Span },
    Return { value: Expression, span: Span },
    Branch {
        condition: Expression,
        then_branch: Box<Statement>,
        otherwise: Option<Box<Statement>>,
        span: Span,
    },
    While { condition: Expression, body: Box<Statement>, span: Span },
}

/// An expression. Names are not resolved: a reference, an assignment and
/// a call hold the name as it stands in the text.
#[derive(Debug, PartialEq, Eq)]
#[allow(inconsistent_fields)]
pub enum Expression {
    Integer { value: i64, span: Span },
    Boolean { value: bool, span: Span },
    Reference { name: String, span: Span },
    Operation { operation: Operation, span: Span },
    Assignment { assign_to: String, value: Box<Expression>, span: Span },
    Call { name: String, arguments: Vec<Expression>, span: Span },
}

/// An operation on one or two operands.
#[derive(Debug, PartialEq, Eq)]
pub enum Operation {
    Binary(BinaryOperation),
    Unary(UnaryOperation),
}

/// An operation on two operands, which it owns.
#[derive(Debug, PartialEq, Eq)]
pub enum BinaryOperation {
    Add { lhs: Box<Expression>, rhs: Box<Expression> },
    Sub { lhs: Box<Expression>, rhs: Box<Expression> },
    Mul { lhs: Box<Expression>, rhs: Box<Expression> },
    Div { lhs: Box<Expression>, rhs: Box<Expression> },
    Equal { lhs: Box<Expression>, rhs: Box<Expression> },
    NotEqual { lhs: Box<Expression>, rhs: Box<Expression> },
    Less { lhs: Box<Expression>, rhs: Box<Expression> },
    LessEqual { lhs: Box<Expression>, rhs: Box<Expression> },
    Greater { lhs: Box<Expression>, rhs: Box<Expression> },
    GreaterEqual { lhs: Box<Expression>, rhs: Box<Expression> },
    And { lhs: Box<Expression>, rhs: Box<Expression> },
    Or { lhs: Box<Expression>, rhs: Box<Expression> },
}

/// An operation on one operand, which it owns.
#[derive(Debug, PartialEq, Eq)]
pub enum UnaryOperation {
    Not(Box<Expression>),
}

/// The operator of a binary operation, without its operands.
#[derive(Debug, Clone, Copy, PartialEq, Eq, Structural)]
pub enum BinaryOperator {
    Add,
    Sub,
    Mul,
    Div,
    Equal,
    NotEqual,
    Less,
    LessEqual,
    Greater,
    GreaterEqual,
    And,
    Or,
}

/// The view of an [`Expression`].
#[allow(inconsistent_fields)]
pub ghost enum ExpressionView {
    Integer { value: i64, span: Span },
    Boolean { value: bool, span: Span },
    Reference { name: Seq<char>, span: Span },
    Binary { operator: BinaryOperator, lhs: Box<ExpressionView>, rhs: Box<ExpressionView>, span: Span },
    Not { operand: Box<ExpressionView>, span: Span },
    Assignment { assign_to: Seq<char>, value: Box<ExpressionView>, span: Span },
    Call { name: Seq<char>, arguments: Seq<ExpressionView>, span: Span },
}

/// The view of a [`Statement`].
#[allow(inconsistent_fields)]
pub ghost enum StatementView {
    Block { body: Seq<StatementView>, span: Span },
    Binding { bind_to: Seq<char>, value: ExpressionView, span: Span },
    Expression { expression: ExpressionView, span: Span },
    Return { value: ExpressionView, span: Span },
    Branch {
        condition: ExpressionView,
        then_branch: Box<StatementView>,
        otherwise: Option<Box<StatementView>>,
        span: Span,
    },
    While { condition: ExpressionView, body: Box<StatementView>, span: Span },
}

/// The view of an [`Item`].
pub ghost enum ItemView {
    Function { name: Seq<char>, arguments: Seq<Seq<char>>, body: StatementView, span: Span },
}

/// The view of a [`Program`].
pub ghost struct ProgramView {
    pub items: Seq<ItemView>,
}

impl ExpressionView {
    pub open spec fn span(self) -> Span {
        match self {
            ExpressionView::Integer { span, .. } => span,
            ExpressionView::Boolean { span, .. } => span,
            ExpressionView::Reference { span, .. } => span,
            ExpressionView::Binary { span, .. } => span,
            ExpressionView::Not { span, .. } => span,
            ExpressionView::Assignment { span, .. } => span,
            ExpressionView::Call { span, .. } => span,
        }
    }

    /// The same expression with another span.
    pub open spec fn with_span(self, span: Span) -> ExpressionView {
        match self {
            ExpressionView::Integer { value, .. } => ExpressionView::Integer { value, span },
            ExpressionView::Boolean { value, .. } => ExpressionView::Boolean { value, span },
            ExpressionView::Reference { name, .. } => ExpressionView::Reference { name, span },
            ExpressionView::Binary { operator, lhs, rhs, .. } => ExpressionView::Binary {
                operator,
                lhs,
                rhs,
                span,
            },
            ExpressionView::Not { operand, .. } => ExpressionView::Not { operand, span },
            ExpressionView::Assignment { assign_to, value, .. } => ExpressionView::Assignment {
                assign_to,
                value,
                span,
            },
            ExpressionView::Call { name, arguments, .. } => ExpressionView::Call {
                name,
                arguments,
                span,
            },
        }
    }

    /// The span of every node of the expression is well formed and contains
    /// the span of each of its children.
    pub open spec fn well_spanned(self) -> bool
        decreases self,
    {
        &&& self.span().valid()
        &&& match self {
            ExpressionView::Integer { .. } => true,
            ExpressionView::Boolean { .. } => true,
            ExpressionView::Reference { .. } => true,
            ExpressionView::Binary { lhs, rhs, span, .. } => {
                &&& lhs.well_spanned()
                &&& rhs.well_spanned()
                &&& span.contains(lhs.span())
                &&& span.contains(rhs.span())
            },
            ExpressionView::Not { operand, span } => {
                &&& operand.well_spanned()
                &&& span.contains(operand.span())
            },
            ExpressionView::Assignment { value, span, .. } => {
                &&& value.well_spanned()
                &&& span.contains(value.span())
            },
            ExpressionView::Call { arguments, span, .. } => forall|i: int|
                0 <= i < arguments.len() ==> {
                    &&& (#[trigger] arguments[i]).well_spanned()
                    &&& span.contains(arguments[i].span())
                },
        }
    }
}

impl StatementView {
    pub open spec fn span(self) -> Span {
        match self {
            StatementView::Block { span, .. } => span,
            StatementView::Binding { span, .. } => span,
            StatementView::Expression { span, .. } => span,
            StatementView::Return { span, .. } => span,
            StatementView::Branch { span, .. } => span,
            StatementView::While { span, .. } => span,
        }
    }

    /// The span of every node of the statement is well formed and contains
    /// the span of each of its children.
    pub open spec fn well_spanned(self) -> bool
        decreases self,
    {
        &&& self.span().valid()
        &&& match self {
            StatementView::Block { body, span } => forall|i: int|
                0 <= i < body.len() ==> {
                    &&& (#[trigger] body[i]).well_spanned()
                    &&& span.contains(body[i].span())
                },
            StatementView::Binding { value, span, .. } => {
                &&& value.well_spanned()
                &&& span.contains(value.span())
            },
            StatementView::Expression { expression, span } => {
                &&& expression.well_spanned()
                &&& span.contains(expression.span())
            },
            StatementView::Return { value, span } => {
                &&& value.well_spanned()
                &&& span.contains(value.span())
            },
            StatementView::Branch { condition, then_branch, otherwise, span } => {
                &&& condition.well_spanned()
                &&& span.contains(condition.span())
                &&& then_branch.well_spanned()
                &&& span.contains(then_branch.span())
                &&& match otherwise {
                    Some(otherwise) => otherwise.well_spanned() && span.contains(otherwise.span()),
                    None => true,
                }
            },
            StatementView::While { condition, body, span } => {
                &&& condition.well_spanned()
                &&& span.contains(condition.span())
                &&& body.well_spanned()
                &&& span.contains(body.span())
            },
        }
    }
}

impl ItemView {
    pub open spec fn span(self) -> Span {
        match self {
            ItemView::Function { span, .. } => span,
        }
    }

    /// The span of every node of the item is well formed and contains the
    /// span of each of its children.
    pub open spec fn well_spanned(self) -> bool {
        match self {
            ItemView::Function { body, span, .. } => {
                &&& span.valid()
                &&& body.well_spanned()
                &&& span.contains(body.span())
            },
        }
    }
}

impl ProgramView {
    /// Every item of the program is well spanned.
    pub open spec fn well_spanned(self) -> bool {
        forall|i: int| 0 <= i < self.items.len() ==> (#[trigger] self.items[i]).well_spanned()
    }
}

/// The views of a sequence of expressions.
pub open spec fn expression_views(expressions: Seq<Expression>) -> Seq<ExpressionView>
    decreases expressions,
{
    Seq::new(
        expressions.len(),
        |i: int|
            if 0 <= i < expressions.len() {
                expressions[i].view()
            } else {
                arbitrary()
            },
    )
}

/// The views of a sequence of statements.
pub open spec fn statement_views(statements: Seq<Statement>) -> Seq<StatementView>
    decreases statements,
{
    Seq::new(
        statements.len(),
        |i: int|
            if 0 <= i < statements.len() {
                statements[i].view()
            } else {
                arbitrary()
            },
    )
}

/// The views of a sequence of items.
pub open spec fn item_views(items: Seq<Item>) -> Seq<ItemView> {
    Seq::new(items.len(), |i: int| items[i].view())
}

/// The views of a sequence of names.
pub open spec fn name_views(names: Seq<String>) -> Seq<Seq<char>> {
    Seq::new(names.len(), |i: int| names[i]@)
}

impl Expression {
    pub open spec fn view(&self) -> ExpressionView
        decreases self,
    {
        match self {
            Expression::Integer { value, span } => ExpressionView::Integer {
                value: *value,
                span: *span,
            },
            Expression::Boolean { value, span } => ExpressionView::Boolean {
                value: *value,
                span: *span,
            },
            Expression::Reference { name, span } => ExpressionView::Reference {
                name: name@,
                span: *span,
            },
            Expression::Operation { operation, span } => match operation {
                Operation::Binary(binary) => match binary {
                    BinaryOperation::Add { lhs, rhs } => ExpressionView::Binary {
                        operator: BinaryOperator::Add,
                        lhs: Box::new(lhs.view()),
                        rhs: Box::new(rhs.view()),
                        span: *span,
                    },
                    BinaryOperation::Sub { lhs, rhs } => ExpressionView::Binary {
                        operator: BinaryOperator::Sub,
                        lhs: Box::new(lhs.view()),
                        rhs: Box::new(rhs.view()),
                        span: *span,
                    },
                    BinaryOperation::Mul { lhs, rhs } => ExpressionView::Binary {
                        operator: BinaryOperator::Mul,
                        lhs: Box::new(lhs.view()),
                        rhs: Box::new(rhs.view()),
                        span: *span,
                    },
                    BinaryOperation::Div { lhs, rhs } => ExpressionView::Binary {
                        operator: BinaryOperator::Div,
                        lhs: Box::new(lhs.view()),
                        rhs: Box::new(rhs.view()),
                        span: *span,
                    },
                    BinaryOperation::Equal { lhs, rhs } => ExpressionView::Binary {
                        operator: BinaryOperator::Equal,
                        lhs: Box::new(lhs.view()),
                        rhs: Box::new(rhs.view()),
                        span: *span,
                    },
                    BinaryOperation::NotEqual { lhs, rhs } => ExpressionView::Binary {
                        operator: BinaryOperator::NotEqual,
                        lhs: Box::new(lhs.view()),
                        rhs: Box::new(rhs.view()),
                        span: *span,
                    },
                    BinaryOperation::Less { lhs, rhs } => ExpressionView::Binary {
                        operator: BinaryOperator::Less,
                        lhs: Box::new(lhs.view()),
                        rhs: Box::new(rhs.view()),
                        span: *span,
                    },
                    BinaryOperation::LessEqual { lhs, rhs } => ExpressionView::Binary {
                        operator: BinaryOperator::LessEqual,
                        lhs: Box::new(lhs.view()),
                        rhs: Box::new(rhs.view()),
                        span: *span,
                    },
                    BinaryOperation::Greater { lhs, rhs } => ExpressionView::Binary {
                        operator: BinaryOperator::Greater,
                        lhs: Box::new(lhs.view()),
                        rhs: Box::new(rhs.view()),
                        span: *span,
                    },
                    BinaryOperation::GreaterEqual { lhs, rhs } => ExpressionView::Binary {
                        operator: BinaryOperator::GreaterEqual,
                        lhs: Box::new(lhs.view()),
                        rhs: Box::new(rhs.view()),
                        span: *span,
                    },
                    BinaryOperation::And { lhs, rhs } => ExpressionView::Binary {
                        operator: BinaryOperator::And,
                        lhs: Box::new(lhs.view()),
                        rhs: Box::new(rhs.view()),
                        span: *span,
                    },
                    BinaryOperation::Or { lhs, rhs } => ExpressionView::Binary {
                        operator: BinaryOperator::Or,
                        lhs: Box::new(lhs.view()),
                        rhs: Box::new(rhs.view()),
                        span: *span,
                    },
                },
                Operation::Unary(UnaryOperation::Not(operand)) => ExpressionView::Not {
                    operand: Box::new(operand.view()),
                    span: *span,
                },
            },
            Expression::Assignment { assign_to, value, span } => ExpressionView::Assignment {
                assign_to: assign_to@,
                value: Box::new(value.view()),
                span: *span,
            },
            Expression::Call { name, arguments, span } => ExpressionView::Call {
                name: name@,
                arguments: expression_views(arguments@),
                span: *span,
            },
        }
    }

    /// The span of the expression.
    pub fn span(&self) -> (span: Span)
        ensures
            span == self@.span(),
    {
        match self {
            Expression::Integer { span, .. } => *span,
            Expression::Boolean { span, .. } => *span,
            Expression::Reference { span, .. } => *span,
            Expression::Operation { operation, span } => {
                proof {
                    lemma_operation_span(*operation, *span, *span);
                }
                *span
            },
            Expression::Assignment { span, .. } => *span,
            Expression::Call { span, .. } => *span,
        }
    }

    /// The same expression with another span.
    pub fn with_span(self, span: Span) -> (widened: Expression)
        ensures
            widened@ == self@.with_span(span),
    {
        match self {
            Expression::Integer { value, .. } => Expression::Integer { value, span },
            Expression::Boolean { value, .. } => Expression::Boolean { value, span },
            Expression::Reference { name, .. } => Expression::Reference { name, span },
            Expression::Operation { operation, span: narrow } => {
                proof {
                    lemma_operation_span(operation, narrow, span);
                }
                Expression::Operation { operation, span }
            },
            Expression::Assignment { assign_to, value, .. } => Expression::Assignment {
                assign_to,
                value,
                span,
            },
            Expression::Call { name, arguments, .. } => Expression::Call { name, arguments, span },
        }
    }

    /// The operation of `operator` on `lhs` and `rhs`.
    pub fn binary(operator: BinaryOperator, lhs: Expression, rhs: Expression, span: Span) -> (node:
        Expression)
        ensures
            node@ == (ExpressionView::Binary {
                operator,
                lhs: Box::new(lhs@),
                rhs: Box::new(rhs@),
                span,
            }),
    {
        let lhs = Box::new(lhs);
        let rhs = Box::new(rhs);
        let operation = match operator {
            BinaryOperator::Add => BinaryOperation::Add { lhs, rhs },
            BinaryOperator::Sub => BinaryOperation::Sub { lhs, rhs },
            BinaryOperator::Mul => BinaryOperation::Mul { lhs, rhs },
            BinaryOperator::Div => BinaryOperation::Div { lhs, rhs },
            BinaryOperator::Equal => BinaryOperation::Equal { lhs, rhs },
            BinaryOperator::NotEqual => BinaryOperation::NotEqual { lhs, rhs },
            BinaryOperator::Less => BinaryOperation::Less { lhs, rhs },
            BinaryOperator::LessEqual => BinaryOperation::LessEqual { lhs, rhs },
            BinaryOperator::Greater => BinaryOperation::Greater { lhs, rhs },
            BinaryOperator::GreaterEqual => BinaryOperation::GreaterEqual { lhs, rhs },
            BinaryOperator::And => BinaryOperation::And { lhs, rhs },
            BinaryOperator::Or => BinaryOperation::Or { lhs, rhs },
        };
        Expression::Operation { operation: Operation::Binary(operation), span }
    }

    /// The negation of `operand`.
    pub fn not(operand: Expression, span: Span) -> (node: Expression)
        ensures
            node@ == (ExpressionView::Not { operand: Box::new(operand@), span }),
    {
        Expression::Operation {
            operation: Operation::Unary(UnaryOperation::Not(Box::new(operand))),
            span,
        }
    }
}

/// The view of an operation depends on its span only in its span.
pub proof fn lemma_operation_span(operation: Operation, narrow: Span, wide: Span)
    ensures
        (Expression::Operation { operation, span: narrow })@.with_span(wide) == (
        Expression::Operation { operation, span: wide })@,
        (Expression::Operation { operation, span: narrow })@.span() == narrow,
{
    match operation {
        Operation::Binary(binary) => {
            match binary {
                BinaryOperation::Add { .. } => {},
                BinaryOperation::Sub { .. } => {},
                BinaryOperation::Mul { .. } => {},
                BinaryOperation::Div { .. } => {},
                BinaryOperation::Equal { .. } => {},
                BinaryOperation::NotEqual { .. } => {},
                BinaryOperation::Less { .. } => {},
                BinaryOperation::LessEqual { .. } => {},
                BinaryOperation::Greater { .. } => {},
                BinaryOperation::GreaterEqual { .. } => {},
                BinaryOperation::And { .. } => {},
                BinaryOperation::Or { .. } => {},
            }
        },
        Operation::Unary(UnaryOperation::Not(_)) => {},
    }
}

impl Statement {
    pub open spec fn view(&self) -> StatementView
        decreases self,
    {
        match self {
            Statement::Block { body, span } => StatementView::Block {
                body: statement_views(body@),
                span: *span,
            },
            Statement::Binding { bind_to, value, span } => StatementView::Binding {
                bind_to: bind_to@,
                value: value@,
                span: *span,
            },
            Statement::Expression { expression, span } => StatementView::Expression {
                expression: expression@,
                span: *span,
            },
            Statement::Return { value, span } => StatementView::Return {
                value: value@,
                span: *span,
            },
            Statement::Branch { condition, then_branch, otherwise, span } => StatementView::Branch {
                condition: condition@,
                then_branch: Box::new(then_branch.view()),
                otherwise: match otherwise {
                    Some(otherwise) => Some(Box::new(otherwise.view())),
                    None => None,
                },
                span: *span,
            },
            Statement::While { condition, body, span } => StatementView::While {
                condition: condition@,
                body: Box::new(body.view()),
                span: *span,
            },
        }
    }

    /// The span of the statement.
    pub fn span(&self) -> (span: Span)
        ensures
            span == self@.span(),
    {
        *match self {
            Statement::Block { body, span } => span,
            Statement::Binding { bind_to, value, span } => span,
            Statement::Expression { expression, span } => span,
            Statement::Return { value, span } => span,
            Statement::Branch { condition, then_branch, otherwise, span } => span,
            Statement::While { condition, body, span } => span,
        }
    }
}

impl Item {
    pub open spec fn view(&self) -> ItemView {
        match self {
            Item::Function { name, arguments, body, span } => ItemView::Function {
                name: name@,
                arguments: name_views(arguments@),
                body: body@,
                span: *span,
            },
        }
    }

    /// The span of the item.
    pub fn span(&self) -> (span: Span)
        ensures
            span == self@.span(),
    {
        match self {
            Item::Function { span, .. } => *span,
        }
    }
}

impl Program {
    pub closed spec fn view(&self) -> ProgramView {
        ProgramView { items: item_views(self.items@) }
    }

    /// A program of the given items.
    pub fn new(items: Vec<Item>) -> (program: Program)
        ensures
            program@.items == item_views(items@),
    {
        Self { items }
    }

    /// Takes the items out of the program.
    pub fn into_items(self) -> (items: Vec<Item>)
        ensures
            item_views(items@) == self@.items,
    {
        self.items
    }

    /// The items of the program, in the order of their declaration.
    pub fn items(&self) -> (items: &Vec<Item>)
        ensures
            item_views(items@) == self@.items,
    {
        &self.items
    }
}

} // verus!
