//! The evaluator: from an expression to a single value.
//!
//! The evaluator walks the tree; it does not compute. What a literal reads
//! as, and what an operator makes of its operands, is asked of three
//! functions that the caller hands in. The contracts say which questions are
//! asked, in which order, and what becomes of the answers.

pub mod lemmas;
pub mod operation;

pub use operation::{derive_operation, DeriveError, Operation, UnaryOperator};

use crate::parser::expr::{is_absolute_value, is_negation, ExprView, Expression};
use crate::parser::operator::Operator;
use lemmas::{lemma_value_is_owed, lemma_value_of_operation_is_owed};
use operation::{derivation_of, DeriveErrorView, OperationView};
use vstd::prelude::*;

verus! {

/// Why an expression has no value.
#[derive(Debug, PartialEq, Eq)]
pub enum EvalError {
    /// A node of the tree stands for no operation.
    Derivation(DeriveError),
    /// The caller's reading of a number literal gave nothing.
    InvalidNumber(String),
}

/// The mathematical model of an [`EvalError`].
pub enum EvalErrorView {
    Derivation(DeriveErrorView),
    InvalidNumber(Seq<char>),
}

impl View for EvalError {
    type V = EvalErrorView;

    open spec fn view(&self) -> EvalErrorView {
        match self {
            EvalError::Derivation(error) => EvalErrorView::Derivation(error@),
            EvalError::InvalidNumber(literal) => EvalErrorView::InvalidNumber(literal@),
        }
    }
}

/// The model of what an evaluation returned: the value as it is, or the
/// model of the error.
pub open spec fn outcome_view<V>(outcome: Result<V, EvalError>) -> Result<V, EvalErrorView> {
    match outcome {
        Ok(value) => Ok(value),
        Err(error) => Err(error@),
    }
}

/// The larger of two numbers.
pub open spec fn larger(a: nat, b: nat) -> nat {
    if a >= b {
        a
    } else {
        b
    }
}

impl ExprView {
    /// The number of levels below the top node.
    pub open spec fn height(self) -> nat
        decreases self,
    {
        match self {
            ExprView::Number(_) => 0,
            ExprView::Ident(_) => 0,
            ExprView::Binary { lhs, op, rhs } => 1 + larger((*lhs).height(), (*rhs).height()),
            ExprView::Unary { op, rhs } => 1 + (*rhs).height(),
        }
    }
}

impl OperationView {
    /// The number of levels below the operation.
    pub open spec fn height(self) -> nat {
        match self {
            OperationView::Add(lhs, rhs) => 1 + larger(lhs.height(), rhs.height()),
            OperationView::Sub(lhs, rhs) => 1 + larger(lhs.height(), rhs.height()),
            OperationView::Mult(lhs, rhs) => 1 + larger(lhs.height(), rhs.height()),
            OperationView::Div(lhs, rhs) => 1 + larger(lhs.height(), rhs.height()),
            OperationView::Rem(lhs, rhs) => 1 + larger(lhs.height(), rhs.height()),
            OperationView::Pow(lhs, rhs) => 1 + larger(lhs.height(), rhs.height()),
            OperationView::Abs(operand) => 1 + operand.height(),
            OperationView::Negative(operand) => 1 + operand.height(),
            OperationView::Number(_) => 0,
        }
    }
}

/// Whether every node of the tree stands for an operation: the tree holds no
/// identifier, and every unary node carries the tag of a supported operator.
pub open spec fn evaluable(expr: ExprView) -> bool
    decreases expr,
{
    match expr {
        ExprView::Number(_) => true,
        ExprView::Ident(_) => false,
        ExprView::Binary { lhs, op, rhs } => evaluable(*lhs) && evaluable(*rhs),
        ExprView::Unary { op, rhs } => (is_negation(op) || is_absolute_value(op)) && evaluable(
            *rhs,
        ),
    }
}

/// Whether all operands of the operation are evaluable.
pub open spec fn operation_evaluable(operation: OperationView) -> bool {
    forall|i: int|
        0 <= i < operation.operands().len() ==> evaluable(#[trigger] operation.operands()[i])
}

/// Whether `literal` makes a value of every text.
pub open spec fn reads_everything<V, L>(literal: &L) -> bool where L: Fn(&String) -> Option<V> {
    forall|written: &String, value: Option<V>| #[trigger]
        literal.ensures((written,), value) ==> value is Some
}

/// Whether the three functions accept every argument.
pub open spec fn always_callable<V, L, B, U>(literal: &L, binary: &B, unary: &U) -> bool where
    L: Fn(&String) -> Option<V>,
    B: Fn(Operator, V, V) -> V,
    U: Fn(UnaryOperator, V) -> V,
 {
    &&& forall|written: &String| literal.requires((written,))
    &&& forall|op: Operator, a: V, b: V| binary.requires((op, a, b))
    &&& forall|op: UnaryOperator, a: V| unary.requires((op, a))
}

/// Whether `outcome` is what becomes of a number literal: the value that
/// `literal` read from a text with these characters, or an error that names
/// the literal where `literal` read nothing.
pub open spec fn reads_as<V, L>(text: Seq<char>, outcome: Result<V, EvalErrorView>, literal: &L) -> bool where
    L: Fn(&String) -> Option<V>,
 {
    exists|written: String, value: Option<V>|
        #![trigger literal.ensures((&written,), value)]
        written@ == text && literal.ensures((&written,), value) && outcome == match value {
            Some(value) => Ok::<V, EvalErrorView>(value),
            None => Err::<V, EvalErrorView>(EvalErrorView::InvalidNumber(text)),
        }
}

/// Whether `outcome` follows from the outcomes of the two operands of a
/// binary operation: the failure of the left operand, else that of the right
/// one, else a result of `binary` on the two values. Where the left operand
/// failed, the right one is not looked at.
pub open spec fn binary_step<V, B>(
    op: Operator,
    left: Result<V, EvalErrorView>,
    right: Result<V, EvalErrorView>,
    outcome: Result<V, EvalErrorView>,
    binary: &B,
) -> bool where B: Fn(Operator, V, V) -> V {
    match left {
        Err(error) => outcome == Err::<V, EvalErrorView>(error),
        Ok(x) => match right {
            Err(error) => outcome == Err::<V, EvalErrorView>(error),
            Ok(y) => outcome matches Ok(value) && binary.ensures((op, x, y), value),
        },
    }
}

/// Whether `outcome` follows from the outcome of the operand of a unary
/// operation: the failure of the operand, else a result of `unary` on its
/// value.
pub open spec fn unary_step<V, U>(
    op: UnaryOperator,
    operand: Result<V, EvalErrorView>,
    outcome: Result<V, EvalErrorView>,
    unary: &U,
) -> bool where U: Fn(UnaryOperator, V) -> V {
    match operand {
        Err(error) => outcome == Err::<V, EvalErrorView>(error),
        Ok(x) => outcome matches Ok(value) && unary.ensures((op, x), value),
    }
}

/// Whether `outcome` is what becomes of a binary operation on two
/// expressions.
///
/// Both operands are derived first, the left one before the right one. Then
/// the left operand is evaluated, then the right one, and `binary` is asked
/// for the result. The first failure on this way is the outcome.
pub open spec fn combines<V, L, B, U>(
    op: Operator,
    lhs: ExprView,
    rhs: ExprView,
    outcome: Result<V, EvalErrorView>,
    literal: &L,
    binary: &B,
    unary: &U,
) -> bool where
    L: Fn(&String) -> Option<V>,
    B: Fn(Operator, V, V) -> V,
    U: Fn(UnaryOperator, V) -> V,

    decreases 1 + larger(lhs.height(), rhs.height()), 0nat,
{
    match derivation_of(lhs) {
        Err(error) => outcome == Err::<V, EvalErrorView>(EvalErrorView::Derivation(error)),
        Ok(left) => match derivation_of(rhs) {
            Err(error) => outcome == Err::<V, EvalErrorView>(EvalErrorView::Derivation(error)),
            Ok(right) => exists|a: Result<V, EvalErrorView>, b: Result<V, EvalErrorView>|
                #![trigger binary_step(op, a, b, outcome, binary)]
                {
                    &&& operation_yields(left, a, literal, binary, unary)
                    &&& a is Ok ==> operation_yields(right, b, literal, binary, unary)
                    &&& binary_step(op, a, b, outcome, binary)
                },
        },
    }
}

/// Whether `outcome` is what becomes of a unary operation on an expression:
/// the operand is derived and evaluated, and `unary` is asked for the
/// result. The first failure on this way is the outcome.
pub open spec fn applies<V, L, B, U>(
    op: UnaryOperator,
    operand: ExprView,
    outcome: Result<V, EvalErrorView>,
    literal: &L,
    binary: &B,
    unary: &U,
) -> bool where
    L: Fn(&String) -> Option<V>,
    B: Fn(Operator, V, V) -> V,
    U: Fn(UnaryOperator, V) -> V,

    decreases 1 + operand.height(), 0nat,
{
    match derivation_of(operand) {
        Err(error) => outcome == Err::<V, EvalErrorView>(EvalErrorView::Derivation(error)),
        Ok(inner) => exists|a: Result<V, EvalErrorView>|
            #![trigger unary_step(op, a, outcome, unary)]
            operation_yields(inner, a, literal, binary, unary) && unary_step(
                op,
                a,
                outcome,
                unary,
            ),
    }
}

/// Whether `outcome` is a possible outcome of evaluating `operation` with
/// the three functions: the value that they make of the tree, taken from the
/// leaves up, or the first failure.
pub open spec fn operation_yields<V, L, B, U>(
    operation: OperationView,
    outcome: Result<V, EvalErrorView>,
    literal: &L,
    binary: &B,
    unary: &U,
) -> bool where
    L: Fn(&String) -> Option<V>,
    B: Fn(Operator, V, V) -> V,
    U: Fn(UnaryOperator, V) -> V,

    decreases operation.height(), 1nat,
{
    match operation {
        OperationView::Number(text) => reads_as(text, outcome, literal),
        OperationView::Add(lhs, rhs) => combines(
            Operator::Add,
            lhs,
            rhs,
            outcome,
            literal,
            binary,
            unary,
        ),
        OperationView::Sub(lhs, rhs) => combines(
            Operator::Sub,
            lhs,
            rhs,
            outcome,
            literal,
            binary,
            unary,
        ),
        OperationView::Mult(lhs, rhs) => combines(
            Operator::Mult,
            lhs,
            rhs,
            outcome,
            literal,
            binary,
            unary,
        ),
        OperationView::Div(lhs, rhs) => combines(
            Operator::Div,
            lhs,
            rhs,
            outcome,
            literal,
            binary,
            unary,
        ),
        OperationView::Rem(lhs, rhs) => combines(
            Operator::Rem,
            lhs,
            rhs,
            outcome,
            literal,
            binary,
            unary,
        ),
        OperationView::Pow(lhs, rhs) => combines(
            Operator::Pow,
            lhs,
            rhs,
            outcome,
            literal,
            binary,
            unary,
        ),
        OperationView::Abs(operand) => applies(
            UnaryOperator::Abs,
            operand,
            outcome,
            literal,
            binary,
            unary,
        ),
        OperationView::Negative(operand) => applies(
            UnaryOperator::Negate,
            operand,
            outcome,
            literal,
            binary,
            unary,
        ),
    }
}

/// Whether `outcome` is a possible outcome of evaluating an expression: of
/// deriving its operation, and evaluating that.
pub open spec fn yields<V, L, B, U>(
    expr: ExprView,
    outcome: Result<V, EvalErrorView>,
    literal: &L,
    binary: &B,
    unary: &U,
) -> bool where
    L: Fn(&String) -> Option<V>,
    B: Fn(Operator, V, V) -> V,
    U: Fn(UnaryOperator, V) -> V,
 {
    match derivation_of(expr) {
        Err(error) => outcome == Err::<V, EvalErrorView>(EvalErrorView::Derivation(error)),
        Ok(operation) => operation_yields(operation, outcome, literal, binary, unary),
    }
}

/// Derives the operations of two operands, the left one first.
fn get_operation(lhs: Box<Expression>, rhs: Box<Expression>) -> (result: Result<
    (Operation, Operation),
    DeriveError,
>)
    ensures
        match derivation_of(lhs@) {
            Err(error) => result matches Err(e) && e@ == error,
            Ok(left) => match derivation_of(rhs@) {
                Err(error) => result matches Err(e) && e@ == error,
                Ok(right) => result matches Ok(pair) && pair.0@ == left && pair.1@ == right,
            },
        },
{
    let left = match derive_operation(*lhs) {
        Ok(left) => left,
        Err(error) => {
            return Err(error);
        },
    };
    let right = match derive_operation(*rhs) {
        Ok(right) => right,
        Err(error) => {
            return Err(error);
        },
    };
    Ok((left, right))
}

fn evaluate_binary<V, L, B, U>(
    op: Operator,
    lhs: Box<Expression>,
    rhs: Box<Expression>,
    literal: &L,
    binary: &B,
    unary: &U,
) -> (outcome: Result<V, EvalError>) where
    L: Fn(&String) -> Option<V>,
    B: Fn(Operator, V, V) -> V,
    U: Fn(UnaryOperator, V) -> V,

    requires
        always_callable(literal, binary, unary),
    ensures
        combines(op, lhs@, rhs@, outcome_view(outcome), literal, binary, unary),
    decreases 1 + larger(lhs@.height(), rhs@.height()), 0nat,
{
    let (left, right) = match get_operation(lhs, rhs) {
        Ok(pair) => pair,
        Err(error) => {
            return Err(EvalError::Derivation(error));
        },
    };
    let a = evaluate(left, literal, binary, unary);
    let x = match a {
        Ok(x) => x,
        Err(error) => {
            proof {
                let failed = Err::<V, EvalErrorView>(error@);
                assert(binary_step(op, failed, failed, failed, binary));
            }
            return Err(error);
        },
    };
    let b = evaluate(right, literal, binary, unary);
    let y = match b {
        Ok(y) => y,
        Err(error) => {
            proof {
                let failed = Err::<V, EvalErrorView>(error@);
                assert(binary_step(op, Ok::<V, EvalErrorView>(x), failed, failed, binary));
            }
            return Err(error);
        },
    };
    let value = binary(op, x, y);
    proof {
        assert(binary_step(
            op,
            Ok::<V, EvalErrorView>(x),
            Ok::<V, EvalErrorView>(y),
            Ok::<V, EvalErrorView>(value),
            binary,
        ));
    }
    Ok(value)
}

fn evaluate_unary<V, L, B, U>(
    op: UnaryOperator,
    operand: Box<Expression>,
    literal: &L,
    binary: &B,
    unary: &U,
) -> (outcome: Result<V, EvalError>) where
    L: Fn(&String) -> Option<V>,
    B: Fn(Operator, V, V) -> V,
    U: Fn(UnaryOperator, V) -> V,

    requires
        always_callable(literal, binary, unary),
    ensures
        applies(op, operand@, outcome_view(outcome), literal, binary, unary),
    decreases 1 + operand@.height(), 0nat,
{
    let inner = match derive_operation(*operand) {
        Ok(inner) => inner,
        Err(error) => {
            return Err(EvalError::Derivation(error));
        },
    };
    let a = evaluate(inner, literal, binary, unary);
    let x = match a {
        Ok(x) => x,
        Err(error) => {
            proof {
                let failed = Err::<V, EvalErrorView>(error@);
                assert(unary_step(op, failed, failed, unary));
            }
            return Err(error);
        },
    };
    let value = unary(op, x);
    proof {
        assert(unary_step(op, Ok::<V, EvalErrorView>(x), Ok::<V, EvalErrorView>(value), unary));
    }
    Ok(value)
}

/// Evaluates an operation. The operands are derived and evaluated in turn,
/// the left one before the right one; `literal` reads the number literals,
/// `binary` and `unary` compute.
///
/// The evaluation stops at the first failure: a node that stands for no
/// operation, or a literal of which `literal` makes nothing. There is a
/// value whenever every node below stands for an operation and `literal`
/// reads every text, and none where some node stands for no operation.
pub fn evaluate<V, L, B, U>(operation: Operation, literal: &L, binary: &B, unary: &U) -> (outcome:
    Result<V, EvalError>) where
    L: Fn(&String) -> Option<V>,
    B: Fn(Operator, V, V) -> V,
    U: Fn(UnaryOperator, V) -> V,

    requires
        always_callable(literal, binary, unary),
    ensures
        operation_yields(operation@, outcome_view(outcome), literal, binary, unary),
        operation_evaluable(operation@) && reads_everything(literal) ==> outcome is Ok,
        !operation_evaluable(operation@) ==> outcome is Err,
    decreases operation@.height(), 1nat,
{
    let ghost asked = operation@;
    let outcome = match operation {
        Operation::Number(text) => {
            let value = literal(&text);
            match value {
                Some(value) => Ok(value),
                None => Err(EvalError::InvalidNumber(text)),
            }
        },
        Operation::Add(lhs, rhs) => evaluate_binary(Operator::Add, lhs, rhs, literal, binary, unary),
        Operation::Sub(lhs, rhs) => evaluate_binary(Operator::Sub, lhs, rhs, literal, binary, unary),
        Operation::Mult(lhs, rhs) => evaluate_binary(
            Operator::Mult,
            lhs,
            rhs,
            literal,
            binary,
            unary,
        ),
        Operation::Div(lhs, rhs) => evaluate_binary(Operator::Div, lhs, rhs, literal, binary, unary),
        Operation::Rem(lhs, rhs) => evaluate_binary(Operator::Rem, lhs, rhs, literal, binary, unary),
        Operation::Pow(lhs, rhs) => evaluate_binary(Operator::Pow, lhs, rhs, literal, binary, unary),
        Operation::Abs(operand) => evaluate_unary(
            UnaryOperator::Abs,
            operand,
            literal,
            binary,
            unary,
        ),
        Operation::Negative(operand) => evaluate_unary(
            UnaryOperator::Negate,
            operand,
            literal,
            binary,
            unary,
        ),
    };
    proof {
        lemma_value_of_operation_is_owed(asked, outcome_view(outcome), literal, binary, unary);
    }
    outcome
}

/// Evaluates an expression: derives its operation and evaluates that.
///
/// There is a value whenever the expression is evaluable and `literal` reads
/// every text, and none where the expression is not evaluable.
pub fn eval_expr<V, L, B, U>(expr: Expression, literal: &L, binary: &B, unary: &U) -> (outcome:
    Result<V, EvalError>) where
    L: Fn(&String) -> Option<V>,
    B: Fn(Operator, V, V) -> V,
    U: Fn(UnaryOperator, V) -> V,

    requires
        always_callable(literal, binary, unary),
    ensures
        yields(expr@, outcome_view(outcome), literal, binary, unary),
        evaluable(expr@) && reads_everything(literal) ==> outcome is Ok,
        !evaluable(expr@) ==> outcome is Err,
{
    let ghost asked = expr@;
    let outcome = match derive_operation(expr) {
        Ok(operation) => evaluate(operation, literal, binary, unary),
        Err(error) => Err(EvalError::Derivation(error)),
    };
    proof {
        lemma_value_is_owed(asked, outcome_view(outcome), literal, binary, unary);
    }
    outcome
}

} // verus!
