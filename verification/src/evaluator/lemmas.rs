//! What holds of derivation and evaluation for every expression.

use super::operation::{
    binary_operation, children_of, derivation_of, DeriveErrorView, OperationView, UnaryOperator,
};
use super::{
    applies, binary_step, combines, evaluable, larger, operation_evaluable, operation_yields,
    reads_as, reads_everything, unary_step, yields, EvalErrorView,
};
use crate::parser::expr::{is_absolute_value, is_negation, well_formed, ExprView};
use crate::parser::operator::Operator;
use vstd::prelude::*;

verus! {

proof fn lemma_tags_differ()
    ensures
        is_negation(seq!['-']),
        !is_absolute_value(seq!['-']),
        is_absolute_value(seq!['a', 'b', 's']),
        !is_negation(seq!['a', 'b', 's']),
        is_absolute_value(seq!['m', 'o', 'd', 'u', 'l', 'u', 's']),
        !is_negation(seq!['m', 'o', 'd', 'u', 'l', 'u', 's']),
{
    assert(seq!['-'].len() == 1);
    assert(seq!['a', 'b', 's'].len() == 3);
    assert(seq!['m', 'o', 'd', 'u', 'l', 'u', 's'].len() == 7);
}

/// Derivation touches the top node only: the operands of the operation are
/// the children of the expression, as they were and in their order.
pub proof fn lemma_derivation_keeps_operands(expr: ExprView)
    ensures
        derivation_of(expr) matches Ok(operation) ==> operation.operands() == children_of(expr),
{
}

/// Deriving what was derived changes nothing. An operation, written back as
/// an expression, derives to itself; so an expression and the expression of
/// its operation derive alike, and have the same outcomes when evaluated.
pub proof fn lemma_derivation_is_idempotent<V, L, B, U>(
    expr: ExprView,
    outcome: Result<V, EvalErrorView>,
    literal: &L,
    binary: &B,
    unary: &U,
) where
    L: Fn(&String) -> Option<V>,
    B: Fn(Operator, V, V) -> V,
    U: Fn(UnaryOperator, V) -> V,

    ensures
        derivation_of(expr) matches Ok(operation) ==> {
            &&& derivation_of(operation.as_expression()) == derivation_of(expr)
            &&& yields(operation.as_expression(), outcome, literal, binary, unary) == yields(
                expr,
                outcome,
                literal,
                binary,
                unary,
            )
        },
{
    lemma_tags_differ();
}

/// An operation, written back as an expression, derives to itself.
pub proof fn lemma_operation_derives_to_itself(operation: OperationView)
    ensures
        derivation_of(operation.as_expression()) == Ok::<OperationView, DeriveErrorView>(
            operation,
        ),
{
    lemma_tags_differ();
}

/// A well-formed expression stands for an operation unless it is an
/// identifier: no parsed tree has an unsupported operator. The other way
/// round, an unsupported operator is met only in a tree that is not well
/// formed.
pub proof fn lemma_well_formed_derives(expr: ExprView)
    ensures
        well_formed(expr) && !(expr is Ident) ==> derivation_of(expr) is Ok,
        derivation_of(expr) matches Err(DeriveErrorView::UnsupportedOperator(_)) ==> !well_formed(
            expr,
        ),
        derivation_of(expr) matches Err(DeriveErrorView::UnresolvedIdentifier(_)) ==> expr
            is Ident,
{
}

proof fn lemma_evaluable_derives(expr: ExprView)
    ensures
        evaluable(expr) ==> derivation_of(expr) is Ok,
        derivation_of(expr) matches Ok(operation) ==> operation_evaluable(operation) == evaluable(
            expr,
        ),
        evaluable(expr) ==> well_formed(expr),
    decreases expr,
{
    match expr {
        ExprView::Binary { lhs, op, rhs } => {
            lemma_evaluable_derives(*lhs);
            lemma_evaluable_derives(*rhs);
            let operation = binary_operation(op, *lhs, *rhs);
            assert(operation.operands() == seq![*lhs, *rhs]);
            assert(operation.operands()[0] == *lhs);
            assert(operation.operands()[1] == *rhs);
        },
        ExprView::Unary { op, rhs } => {
            lemma_evaluable_derives(*rhs);
            if let Ok(operation) = derivation_of(expr) {
                assert(operation.operands() == seq![*rhs]);
                assert(operation.operands()[0] == *rhs);
            }
        },
        _ => {},
    }
}

/// An evaluable expression is well formed, and stands for an operation whose
/// operands are evaluable.
pub proof fn lemma_evaluable_is_derivable(expr: ExprView)
    requires
        evaluable(expr),
    ensures
        well_formed(expr),
        derivation_of(expr) matches Ok(operation) && operation_evaluable(operation),
{
    lemma_evaluable_derives(expr);
}

proof fn lemma_operation_value_is_owed<V, L, B, U>(
    operation: OperationView,
    outcome: Result<V, EvalErrorView>,
    literal: &L,
    binary: &B,
    unary: &U,
) where
    L: Fn(&String) -> Option<V>,
    B: Fn(Operator, V, V) -> V,
    U: Fn(UnaryOperator, V) -> V,

    requires
        operation_yields(operation, outcome, literal, binary, unary),
    ensures
        operation_evaluable(operation) && reads_everything(literal) ==> outcome is Ok,
        !operation_evaluable(operation) ==> outcome is Err,
        outcome matches Err(EvalErrorView::Derivation(_)) ==> !operation_evaluable(operation),
        outcome matches Err(EvalErrorView::InvalidNumber(_)) ==> !reads_everything(literal),
    decreases operation.height(),
{
    match operation {
        OperationView::Number(_) => {},
        OperationView::Abs(operand) => {
            lemma_applies_value_is_owed(UnaryOperator::Abs, operand, outcome, literal, binary, unary);
            assert(operation.operands()[0] == operand);
        },
        OperationView::Negative(operand) => {
            lemma_applies_value_is_owed(
                UnaryOperator::Negate,
                operand,
                outcome,
                literal,
                binary,
                unary,
            );
            assert(operation.operands()[0] == operand);
        },
        OperationView::Add(lhs, rhs) => {
            lemma_combines_value_is_owed(Operator::Add, lhs, rhs, outcome, literal, binary, unary);
            assert(operation.operands()[0] == lhs && operation.operands()[1] == rhs);
        },
        OperationView::Sub(lhs, rhs) => {
            lemma_combines_value_is_owed(Operator::Sub, lhs, rhs, outcome, literal, binary, unary);
            assert(operation.operands()[0] == lhs && operation.operands()[1] == rhs);
        },
        OperationView::Mult(lhs, rhs) => {
            lemma_combines_value_is_owed(Operator::Mult, lhs, rhs, outcome, literal, binary, unary);
            assert(operation.operands()[0] == lhs && operation.operands()[1] == rhs);
        },
        OperationView::Div(lhs, rhs) => {
            lemma_combines_value_is_owed(Operator::Div, lhs, rhs, outcome, literal, binary, unary);
            assert(operation.operands()[0] == lhs && operation.operands()[1] == rhs);
        },
        OperationView::Rem(lhs, rhs) => {
            lemma_combines_value_is_owed(Operator::Rem, lhs, rhs, outcome, literal, binary, unary);
            assert(operation.operands()[0] == lhs && operation.operands()[1] == rhs);
        },
        OperationView::Pow(lhs, rhs) => {
            lemma_combines_value_is_owed(Operator::Pow, lhs, rhs, outcome, literal, binary, unary);
            assert(operation.operands()[0] == lhs && operation.operands()[1] == rhs);
        },
    }
}

proof fn lemma_applies_value_is_owed<V, L, B, U>(
    op: UnaryOperator,
    operand: ExprView,
    outcome: Result<V, EvalErrorView>,
    literal: &L,
    binary: &B,
    unary: &U,
) where
    L: Fn(&String) -> Option<V>,
    B: Fn(Operator, V, V) -> V,
    U: Fn(UnaryOperator, V) -> V,

    requires
        applies(op, operand, outcome, literal, binary, unary),
    ensures
        evaluable(operand) && reads_everything(literal) ==> outcome is Ok,
        !evaluable(operand) ==> outcome is Err,
        outcome matches Err(EvalErrorView::Derivation(_)) ==> !evaluable(operand),
        outcome matches Err(EvalErrorView::InvalidNumber(_)) ==> !reads_everything(literal),
    decreases 1 + operand.height(), 0nat,
{
    lemma_evaluable_derives(operand);
    if let Ok(inner) = derivation_of(operand) {
        let a = choose|a: Result<V, EvalErrorView>|
            #![trigger unary_step(op, a, outcome, unary)]
            operation_yields(inner, a, literal, binary, unary) && unary_step(
                op,
                a,
                outcome,
                unary,
            );
        lemma_height_of_derivation(operand);
        lemma_operation_value_is_owed(inner, a, literal, binary, unary);
    }
}

proof fn lemma_combines_value_is_owed<V, L, B, U>(
    op: Operator,
    lhs: ExprView,
    rhs: ExprView,
    outcome: Result<V, EvalErrorView>,
    literal: &L,
    binary: &B,
    unary: &U,
) where
    L: Fn(&String) -> Option<V>,
    B: Fn(Operator, V, V) -> V,
    U: Fn(UnaryOperator, V) -> V,

    requires
        combines(op, lhs, rhs, outcome, literal, binary, unary),
    ensures
        evaluable(lhs) && evaluable(rhs) && reads_everything(literal) ==> outcome is Ok,
        !(evaluable(lhs) && evaluable(rhs)) ==> outcome is Err,
        outcome matches Err(EvalErrorView::Derivation(_)) ==> !(evaluable(lhs) && evaluable(rhs)),
        outcome matches Err(EvalErrorView::InvalidNumber(_)) ==> !reads_everything(literal),
    decreases 1 + larger(lhs.height(), rhs.height()), 0nat,
{
    lemma_evaluable_derives(lhs);
    lemma_evaluable_derives(rhs);
    if let Ok(left) = derivation_of(lhs) {
        if let Ok(right) = derivation_of(rhs) {
            lemma_height_of_derivation(lhs);
            lemma_height_of_derivation(rhs);
            let (a, b) = choose|a: Result<V, EvalErrorView>, b: Result<V, EvalErrorView>|
                #![trigger binary_step(op, a, b, outcome, binary)]
                {
                    &&& operation_yields(left, a, literal, binary, unary)
                    &&& a is Ok ==> operation_yields(right, b, literal, binary, unary)
                    &&& binary_step(op, a, b, outcome, binary)
                };
            lemma_operation_value_is_owed(left, a, literal, binary, unary);
            if a is Ok {
                lemma_operation_value_is_owed(right, b, literal, binary, unary);
            }
        }
    }
}

proof fn lemma_height_of_derivation(expr: ExprView)
    ensures
        derivation_of(expr) matches Ok(operation) ==> operation.height() == expr.height(),
{
}

/// When evaluation owes a value, and which failure it reports otherwise.
///
/// An evaluable expression has a value whenever the literals can be read. An
/// expression that is not evaluable has none. A derivation error is
/// reported only for an expression that is not evaluable, and an invalid
/// number only where the reading of some literal can fail.
pub proof fn lemma_value_is_owed<V, L, B, U>(
    expr: ExprView,
    outcome: Result<V, EvalErrorView>,
    literal: &L,
    binary: &B,
    unary: &U,
) where
    L: Fn(&String) -> Option<V>,
    B: Fn(Operator, V, V) -> V,
    U: Fn(UnaryOperator, V) -> V,

    requires
        yields(expr, outcome, literal, binary, unary),
    ensures
        evaluable(expr) && reads_everything(literal) ==> outcome is Ok,
        !evaluable(expr) ==> outcome is Err,
        outcome matches Err(EvalErrorView::Derivation(_)) ==> !evaluable(expr),
        outcome matches Err(EvalErrorView::InvalidNumber(_)) ==> !reads_everything(literal),
{
    lemma_evaluable_derives(expr);
    if let Ok(operation) = derivation_of(expr) {
        lemma_operation_value_is_owed(operation, outcome, literal, binary, unary);
    }
}

/// The same for an operation as [`lemma_value_is_owed`] for an expression.
pub proof fn lemma_value_of_operation_is_owed<V, L, B, U>(
    operation: OperationView,
    outcome: Result<V, EvalErrorView>,
    literal: &L,
    binary: &B,
    unary: &U,
) where
    L: Fn(&String) -> Option<V>,
    B: Fn(Operator, V, V) -> V,
    U: Fn(UnaryOperator, V) -> V,

    requires
        operation_yields(operation, outcome, literal, binary, unary),
    ensures
        operation_evaluable(operation) && reads_everything(literal) ==> outcome is Ok,
        !operation_evaluable(operation) ==> outcome is Err,
        outcome matches Err(EvalErrorView::Derivation(_)) ==> !operation_evaluable(operation),
        outcome matches Err(EvalErrorView::InvalidNumber(_)) ==> !reads_everything(literal),
{
    lemma_operation_value_is_owed(operation, outcome, literal, binary, unary);
}

/// Whether each of the three functions has one result only for given
/// arguments, and `literal` reads texts with the same characters alike.
pub open spec fn single_valued<V, L, B, U>(literal: &L, binary: &B, unary: &U) -> bool where
    L: Fn(&String) -> Option<V>,
    B: Fn(Operator, V, V) -> V,
    U: Fn(UnaryOperator, V) -> V,
 {
    &&& forall|first: &String, second: &String, x: Option<V>, y: Option<V>|
        #![trigger literal.ensures((first,), x), literal.ensures((second,), y)]
        first@ == second@ && literal.ensures((first,), x) && literal.ensures((second,), y) ==> x
            == y
    &&& forall|op: Operator, a: V, b: V, x: V, y: V|
        #![trigger binary.ensures((op, a, b), x), binary.ensures((op, a, b), y)]
        binary.ensures((op, a, b), x) && binary.ensures((op, a, b), y) ==> x == y
    &&& forall|op: UnaryOperator, a: V, x: V, y: V|
        #![trigger unary.ensures((op, a), x), unary.ensures((op, a), y)]
        unary.ensures((op, a), x) && unary.ensures((op, a), y) ==> x == y
}

proof fn lemma_operation_outcome_is_unique<V, L, B, U>(
    operation: OperationView,
    first: Result<V, EvalErrorView>,
    second: Result<V, EvalErrorView>,
    literal: &L,
    binary: &B,
    unary: &U,
) where
    L: Fn(&String) -> Option<V>,
    B: Fn(Operator, V, V) -> V,
    U: Fn(UnaryOperator, V) -> V,

    requires
        single_valued(literal, binary, unary),
        operation_yields(operation, first, literal, binary, unary),
        operation_yields(operation, second, literal, binary, unary),
    ensures
        first == second,
    decreases operation.height(), 1nat,
{
    match operation {
        OperationView::Number(text) => {
            let (written, x) = choose|written: String, x: Option<V>|
                #![trigger literal.ensures((&written,), x)]
                written@ == text && literal.ensures((&written,), x) && first == match x {
                    Some(value) => Ok::<V, EvalErrorView>(value),
                    None => Err::<V, EvalErrorView>(EvalErrorView::InvalidNumber(text)),
                };
            let (rewritten, y) = choose|rewritten: String, y: Option<V>|
                #![trigger literal.ensures((&rewritten,), y)]
                rewritten@ == text && literal.ensures((&rewritten,), y) && second == match y {
                    Some(value) => Ok::<V, EvalErrorView>(value),
                    None => Err::<V, EvalErrorView>(EvalErrorView::InvalidNumber(text)),
                };
            assert(x == y);
        },
        OperationView::Abs(operand) => {
            lemma_applied_outcome_is_unique(
                UnaryOperator::Abs,
                operand,
                first,
                second,
                literal,
                binary,
                unary,
            );
        },
        OperationView::Negative(operand) => {
            lemma_applied_outcome_is_unique(
                UnaryOperator::Negate,
                operand,
                first,
                second,
                literal,
                binary,
                unary,
            );
        },
        OperationView::Add(lhs, rhs) => {
            lemma_combined_outcome_is_unique(
                Operator::Add,
                lhs,
                rhs,
                first,
                second,
                literal,
                binary,
                unary,
            );
        },
        OperationView::Sub(lhs, rhs) => {
            lemma_combined_outcome_is_unique(
                Operator::Sub,
                lhs,
                rhs,
                first,
                second,
                literal,
                binary,
                unary,
            );
        },
        OperationView::Mult(lhs, rhs) => {
            lemma_combined_outcome_is_unique(
                Operator::Mult,
                lhs,
                rhs,
                first,
                second,
                literal,
                binary,
                unary,
            );
        },
        OperationView::Div(lhs, rhs) => {
            lemma_combined_outcome_is_unique(
                Operator::Div,
                lhs,
                rhs,
                first,
                second,
                literal,
                binary,
                unary,
            );
        },
        OperationView::Rem(lhs, rhs) => {
            lemma_combined_outcome_is_unique(
                Operator::Rem,
                lhs,
                rhs,
                first,
                second,
                literal,
                binary,
                unary,
            );
        },
        OperationView::Pow(lhs, rhs) => {
            lemma_combined_outcome_is_unique(
                Operator::Pow,
                lhs,
                rhs,
                first,
                second,
                literal,
                binary,
                unary,
            );
        },
    }
}

proof fn lemma_applied_outcome_is_unique<V, L, B, U>(
    op: UnaryOperator,
    operand: ExprView,
    first: Result<V, EvalErrorView>,
    second: Result<V, EvalErrorView>,
    literal: &L,
    binary: &B,
    unary: &U,
) where
    L: Fn(&String) -> Option<V>,
    B: Fn(Operator, V, V) -> V,
    U: Fn(UnaryOperator, V) -> V,

    requires
        single_valued(literal, binary, unary),
        applies(op, operand, first, literal, binary, unary),
        applies(op, operand, second, literal, binary, unary),
    ensures
        first == second,
    decreases 1 + operand.height(), 0nat,
{
    if let Ok(inner) = derivation_of(operand) {
        lemma_height_of_derivation(operand);
        let a = choose|a: Result<V, EvalErrorView>|
            #![trigger unary_step(op, a, first, unary)]
            operation_yields(inner, a, literal, binary, unary) && unary_step(
                op,
                a,
                first,
                unary,
            );
        let b = choose|b: Result<V, EvalErrorView>|
            #![trigger unary_step(op, b, second, unary)]
            operation_yields(inner, b, literal, binary, unary) && unary_step(
                op,
                b,
                second,
                unary,
            );
        lemma_operation_outcome_is_unique(inner, a, b, literal, binary, unary);
    }
}

proof fn lemma_combined_outcome_is_unique<V, L, B, U>(
    op: Operator,
    lhs: ExprView,
    rhs: ExprView,
    first: Result<V, EvalErrorView>,
    second: Result<V, EvalErrorView>,
    literal: &L,
    binary: &B,
    unary: &U,
) where
    L: Fn(&String) -> Option<V>,
    B: Fn(Operator, V, V) -> V,
    U: Fn(UnaryOperator, V) -> V,

    requires
        single_valued(literal, binary, unary),
        combines(op, lhs, rhs, first, literal, binary, unary),
        combines(op, lhs, rhs, second, literal, binary, unary),
    ensures
        first == second,
    decreases 1 + larger(lhs.height(), rhs.height()), 0nat,
{
    if let Ok(left) = derivation_of(lhs) {
        if let Ok(right) = derivation_of(rhs) {
            lemma_height_of_derivation(lhs);
            lemma_height_of_derivation(rhs);
            let (a, b) = choose|a: Result<V, EvalErrorView>, b: Result<V, EvalErrorView>|
                #![trigger binary_step(op, a, b, first, binary)]
                {
                    &&& operation_yields(left, a, literal, binary, unary)
                    &&& a is Ok ==> operation_yields(right, b, literal, binary, unary)
                    &&& binary_step(op, a, b, first, binary)
                };
            let (c, d) = choose|c: Result<V, EvalErrorView>, d: Result<V, EvalErrorView>|
                #![trigger binary_step(op, c, d, second, binary)]
                {
                    &&& operation_yields(left, c, literal, binary, unary)
                    &&& c is Ok ==> operation_yields(right, d, literal, binary, unary)
                    &&& binary_step(op, c, d, second, binary)
                };
            lemma_operation_outcome_is_unique(left, a, c, literal, binary, unary);
            if a is Ok {
                lemma_operation_outcome_is_unique(right, b, d, literal, binary, unary);
            }
        }
    }
}

/// With functions that have one result only, an expression has one outcome
/// only: evaluation is a function of the tree.
pub proof fn lemma_outcome_is_unique<V, L, B, U>(
    expr: ExprView,
    first: Result<V, EvalErrorView>,
    second: Result<V, EvalErrorView>,
    literal: &L,
    binary: &B,
    unary: &U,
) where
    L: Fn(&String) -> Option<V>,
    B: Fn(Operator, V, V) -> V,
    U: Fn(UnaryOperator, V) -> V,

    requires
        single_valued(literal, binary, unary),
        yields(expr, first, literal, binary, unary),
        yields(expr, second, literal, binary, unary),
    ensures
        first == second,
{
    if let Ok(operation) = derivation_of(expr) {
        lemma_operation_outcome_is_unique(operation, first, second, literal, binary, unary);
    }
}

/// The node of a binary operator over two number literals.
pub open spec fn binary_of_numbers(a: Seq<char>, op: Operator, b: Seq<char>) -> ExprView {
    ExprView::Binary {
        lhs: Box::new(ExprView::Number(a)),
        op,
        rhs: Box::new(ExprView::Number(b)),
    }
}

/// A binary operation on two numbers has the value that `binary` gives for
/// the operator and the two readings, whatever the operator. If `x` and `y`
/// are readings of the literals and `value` is a result of `binary` on them,
/// then `value` is a value of the expression.
pub proof fn lemma_binary_of_numbers_has_value<V, L, B, U>(
    a: Seq<char>,
    op: Operator,
    b: Seq<char>,
    x: V,
    y: V,
    value: V,
    literal: &L,
    binary: &B,
    unary: &U,
) where
    L: Fn(&String) -> Option<V>,
    B: Fn(Operator, V, V) -> V,
    U: Fn(UnaryOperator, V) -> V,

    requires
        reads_as(a, Ok::<V, EvalErrorView>(x), literal),
        reads_as(b, Ok::<V, EvalErrorView>(y), literal),
        binary.ensures((op, x, y), value),
    ensures
        yields(binary_of_numbers(a, op, b), Ok::<V, EvalErrorView>(value), literal, binary, unary),
{
    let left = Ok::<V, EvalErrorView>(x);
    let right = Ok::<V, EvalErrorView>(y);
    let outcome = Ok::<V, EvalErrorView>(value);
    assert(operation_yields(OperationView::Number(a), left, literal, binary, unary));
    assert(operation_yields(OperationView::Number(b), right, literal, binary, unary));
    assert(binary_step(op, left, right, outcome, binary));
    assert(combines(op, ExprView::Number(a), ExprView::Number(b), outcome, literal, binary, unary));
}

/// Every value of a binary operation on two numbers is a result of `binary`
/// on the operator and on readings of the two literals.
pub proof fn lemma_binary_of_numbers_applies_operator<V, L, B, U>(
    a: Seq<char>,
    op: Operator,
    b: Seq<char>,
    value: V,
    literal: &L,
    binary: &B,
    unary: &U,
) where
    L: Fn(&String) -> Option<V>,
    B: Fn(Operator, V, V) -> V,
    U: Fn(UnaryOperator, V) -> V,

    requires
        yields(binary_of_numbers(a, op, b), Ok::<V, EvalErrorView>(value), literal, binary, unary),
    ensures
        exists|x: V, y: V|
            #![trigger binary.ensures((op, x, y), value)]
            reads_as(a, Ok::<V, EvalErrorView>(x), literal) && reads_as(
                b,
                Ok::<V, EvalErrorView>(y),
                literal,
            ) && binary.ensures((op, x, y), value),
{
    let outcome = Ok::<V, EvalErrorView>(value);
    let left = OperationView::Number(a);
    let right = OperationView::Number(b);
    assert(combines(op, ExprView::Number(a), ExprView::Number(b), outcome, literal, binary, unary));
    let (first, second) = choose|first: Result<V, EvalErrorView>, second: Result<V, EvalErrorView>|
        #![trigger binary_step(op, first, second, outcome, binary)]
        {
            &&& operation_yields(left, first, literal, binary, unary)
            &&& first is Ok ==> operation_yields(right, second, literal, binary, unary)
            &&& binary_step(op, first, second, outcome, binary)
        };
    let x = first->Ok_0;
    let y = second->Ok_0;
    assert(binary.ensures((op, x, y), value));
}

} // verus!
