//! Operations: what the top node of an expression asks to compute.

use crate::parser::expr::{is_absolute_value, is_negation, ExprView, Expression};
use crate::parser::operator::Operator;
use vstd::prelude::*;

verus! {

/// The arithmetic that the top node of an expression stands for. The
/// operands are expressions still: an operation describes one level of the
/// tree, and the levels below are derived when their turn comes.
#[derive(Debug, PartialEq, Eq)]
pub enum Operation {
    Add(Box<Expression>, Box<Expression>),
    Sub(Box<Expression>, Box<Expression>),
    Mult(Box<Expression>, Box<Expression>),
    Div(Box<Expression>, Box<Expression>),
    Rem(Box<Expression>, Box<Expression>),
    Pow(Box<Expression>, Box<Expression>),
    Abs(Box<Expression>),
    Negative(Box<Expression>),
    Number(String),
}

/// The mathematical model of an [`Operation`].
pub enum OperationView {
    Add(ExprView, ExprView),
    Sub(ExprView, ExprView),
    Mult(ExprView, ExprView),
    Div(ExprView, ExprView),
    Rem(ExprView, ExprView),
    Pow(ExprView, ExprView),
    Abs(ExprView),
    Negative(ExprView),
    Number(Seq<char>),
}

impl View for Operation {
    type V = OperationView;

    open spec fn view(&self) -> OperationView {
        match self {
            Operation::Add(lhs, rhs) => OperationView::Add(lhs@, rhs@),
            Operation::Sub(lhs, rhs) => OperationView::Sub(lhs@, rhs@),
            Operation::Mult(lhs, rhs) => OperationView::Mult(lhs@, rhs@),
            Operation::Div(lhs, rhs) => OperationView::Div(lhs@, rhs@),
            Operation::Rem(lhs, rhs) => OperationView::Rem(lhs@, rhs@),
            Operation::Pow(lhs, rhs) => OperationView::Pow(lhs@, rhs@),
            Operation::Abs(operand) => OperationView::Abs(operand@),
            Operation::Negative(operand) => OperationView::Negative(operand@),
            Operation::Number(literal) => OperationView::Number(literal@),
        }
    }
}

impl OperationView {
    /// The expression whose top node stands for this operation. Negation is
    /// written with the tag `-`, the absolute value with the tag `abs`.
    pub open spec fn as_expression(self) -> ExprView {
        match self {
            OperationView::Add(lhs, rhs) => ExprView::Binary {
                lhs: Box::new(lhs),
                op: Operator::Add,
                rhs: Box::new(rhs),
            },
            OperationView::Sub(lhs, rhs) => ExprView::Binary {
                lhs: Box::new(lhs),
                op: Operator::Sub,
                rhs: Box::new(rhs),
            },
            OperationView::Mult(lhs, rhs) => ExprView::Binary {
                lhs: Box::new(lhs),
                op: Operator::Mult,
                rhs: Box::new(rhs),
            },
            OperationView::Div(lhs, rhs) => ExprView::Binary {
                lhs: Box::new(lhs),
                op: Operator::Div,
                rhs: Box::new(rhs),
            },
            OperationView::Rem(lhs, rhs) => ExprView::Binary {
                lhs: Box::new(lhs),
                op: Operator::Rem,
                rhs: Box::new(rhs),
            },
            OperationView::Pow(lhs, rhs) => ExprView::Binary {
                lhs: Box::new(lhs),
                op: Operator::Pow,
                rhs: Box::new(rhs),
            },
            OperationView::Abs(operand) => ExprView::Unary {
                op: seq!['a', 'b', 's'],
                rhs: Box::new(operand),
            },
            OperationView::Negative(operand) => ExprView::Unary {
                op: seq!['-'],
                rhs: Box::new(operand),
            },
            OperationView::Number(literal) => ExprView::Number(literal),
        }
    }

    /// The operands of this operation, from left to right.
    pub open spec fn operands(self) -> Seq<ExprView> {
        match self {
            OperationView::Add(lhs, rhs) => seq![lhs, rhs],
            OperationView::Sub(lhs, rhs) => seq![lhs, rhs],
            OperationView::Mult(lhs, rhs) => seq![lhs, rhs],
            OperationView::Div(lhs, rhs) => seq![lhs, rhs],
            OperationView::Rem(lhs, rhs) => seq![lhs, rhs],
            OperationView::Pow(lhs, rhs) => seq![lhs, rhs],
            OperationView::Abs(operand) => seq![operand],
            OperationView::Negative(operand) => seq![operand],
            OperationView::Number(_) => Seq::empty(),
        }
    }
}

/// The children of the top node of an expression, from left to right.
pub open spec fn children_of(expr: ExprView) -> Seq<ExprView> {
    match expr {
        ExprView::Number(_) => Seq::empty(),
        ExprView::Ident(_) => Seq::empty(),
        ExprView::Binary { lhs, op, rhs } => seq![*lhs, *rhs],
        ExprView::Unary { op, rhs } => seq![*rhs],
    }
}

/// The operators with one operand.
#[derive(Debug, Clone, Copy, PartialEq, Eq, Structural)]
pub enum UnaryOperator {
    Negate,
    Abs,
}

/// Why an expression stands for no operation. Neither comes from a parsed
/// program text; both tell of a tree that was not built as it should be, or
/// of a name that nothing resolves.
#[derive(Debug, PartialEq, Eq)]
pub enum DeriveError {
    /// The tag of a unary node names no supported operator.
    UnsupportedOperator(String),
    /// An identifier is no arithmetic, and nothing gives it a value.
    UnresolvedIdentifier(String),
}

/// The mathematical model of a [`DeriveError`].
pub enum DeriveErrorView {
    UnsupportedOperator(Seq<char>),
    UnresolvedIdentifier(Seq<char>),
}

impl View for DeriveError {
    type V = DeriveErrorView;

    open spec fn view(&self) -> DeriveErrorView {
        match self {
            DeriveError::UnsupportedOperator(tag) => DeriveErrorView::UnsupportedOperator(tag@),
            DeriveError::UnresolvedIdentifier(name) => DeriveErrorView::UnresolvedIdentifier(
                name@,
            ),
        }
    }
}

/// The operation of a binary node.
pub open spec fn binary_operation(op: Operator, lhs: ExprView, rhs: ExprView) -> OperationView {
    match op {
        Operator::Add => OperationView::Add(lhs, rhs),
        Operator::Sub => OperationView::Sub(lhs, rhs),
        Operator::Mult => OperationView::Mult(lhs, rhs),
        Operator::Div => OperationView::Div(lhs, rhs),
        Operator::Rem => OperationView::Rem(lhs, rhs),
        Operator::Pow => OperationView::Pow(lhs, rhs),
    }
}

/// The operation that the top node of an expression stands for: that of its
/// operator, over its children as they are. A number stands for itself. An
/// identifier stands for no operation, nor does a unary node whose tag is
/// that of no supported operator.
pub open spec fn derivation_of(expr: ExprView) -> Result<OperationView, DeriveErrorView> {
    match expr {
        ExprView::Number(literal) => Ok(OperationView::Number(literal)),
        ExprView::Ident(name) => Err(DeriveErrorView::UnresolvedIdentifier(name)),
        ExprView::Binary { lhs, op, rhs } => Ok(binary_operation(op, *lhs, *rhs)),
        ExprView::Unary { op, rhs } => if is_negation(op) {
            Ok(OperationView::Negative(*rhs))
        } else if is_absolute_value(op) {
            Ok(OperationView::Abs(*rhs))
        } else {
            Err(DeriveErrorView::UnsupportedOperator(op))
        },
    }
}

/// The model of what a derivation returned.
pub open spec fn derived_view(result: Result<Operation, DeriveError>) -> Result<
    OperationView,
    DeriveErrorView,
> {
    match result {
        Ok(operation) => Ok(operation@),
        Err(error) => Err(error@),
    }
}

/// Whether a text is the given literal.
fn is_text(text: &String, literal: &str) -> (same: bool)
    ensures
        same == (text@ == literal@),
{
    let other = String::from_str(literal);
    *text == other
}

/// Derives the operation that the top node of an expression stands for. The
/// children go into the operation unchanged.
pub fn derive_operation(expr: Expression) -> (result: Result<Operation, DeriveError>)
    ensures
        derived_view(result) == derivation_of(expr@),
{
    match expr {
        Expression::Number(literal) => Ok(Operation::Number(literal)),
        Expression::Ident(name) => Err(DeriveError::UnresolvedIdentifier(name)),
        Expression::Binary { lhs, op, rhs } => Ok(
            match op {
                Operator::Add => Operation::Add(lhs, rhs),
                Operator::Sub => Operation::Sub(lhs, rhs),
                Operator::Mult => Operation::Mult(lhs, rhs),
                Operator::Div => Operation::Div(lhs, rhs),
                Operator::Rem => Operation::Rem(lhs, rhs),
                Operator::Pow => Operation::Pow(lhs, rhs),
            },
        ),
        Expression::Unary { op, rhs } => {
            proof {
                reveal_strlit("-");
                reveal_strlit("abs");
                reveal_strlit("modulus");
                assert("-"@ =~= seq!['-']);
                assert("abs"@ =~= seq!['a', 'b', 's']);
                assert("modulus"@ =~= seq!['m', 'o', 'd', 'u', 'l', 'u', 's']);
            }
            if is_text(&op, "-") {
                Ok(Operation::Negative(rhs))
            } else if is_text(&op, "abs") || is_text(&op, "modulus") {
                Ok(Operation::Abs(rhs))
            } else {
                Err(DeriveError::UnsupportedOperator(op))
            }
        },
    }
}

} // verus!
