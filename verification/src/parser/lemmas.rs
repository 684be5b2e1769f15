//! What holds of the grammar for every token stream.

use super::cursor::{first_of, is_rest_behind, is_rest_of, skip_one};
use super::error::ParseErrorView;
use super::expr::{
    climb, continues, expression_of, infix_of, is_negation, operand_threshold, precedence_of,
    prefix_of, well_formed, ExprView, Parsed, Precedence,
};
use super::operator::{operator_of, Operator};
use super::statement::{assign_statement_of, let_statement_of, Outcome, StatementView};
use super::{
    attempt_then, diagnostic_of, expect_of, program_of, recovery_of, resumes_at, starts_statement,
    statement_of,
};
use crate::lexer::token::{TokenKind, TokenView};
use vstd::prelude::*;

verus! {

proof fn lemma_rest_of_rest(rest: Seq<TokenView>, middle: Seq<TokenView>, tokens: Seq<TokenView>)
    requires
        is_rest_of(rest, middle),
        is_rest_of(middle, tokens),
    ensures
        is_rest_of(rest, tokens),
{
    assert(tokens.skip(tokens.len() - middle.len()).skip(middle.len() - rest.len())
        =~= tokens.skip(tokens.len() - rest.len()));
}

proof fn lemma_skip_one_is_rest(tokens: Seq<TokenView>)
    ensures
        is_rest_of(skip_one(tokens), tokens),
        is_rest_of(tokens, tokens),
{
    assert(tokens.skip(0) =~= tokens);
}

proof fn lemma_prefix_consumes(tokens: Seq<TokenView>)
    ensures
        is_rest_behind(prefix_of(tokens).rest, tokens),
        prefix_of(tokens).result is Ok ==> tokens.len() > 0,
    decreases tokens.len(), 0nat,
{
    lemma_skip_one_is_rest(tokens);
    if tokens.len() > 0 {
        let rest = tokens.skip(1);
        match tokens[0] {
            TokenView::Minus => {
                lemma_expression_consumes(rest, Precedence::Prefix);
                lemma_rest_of_rest(expression_of(rest, Precedence::Prefix).rest, rest, tokens);
            },
            TokenView::LParen => {
                let inner = expression_of(rest, Precedence::Lowest);
                lemma_expression_consumes(rest, Precedence::Lowest);
                lemma_skip_one_is_rest(inner.rest);
                lemma_rest_of_rest(inner.rest, rest, tokens);
                lemma_rest_of_rest(skip_one(inner.rest), inner.rest, tokens);
            },
            _ => {},
        }
    }
}

proof fn lemma_infix_consumes(lhs: ExprView, tokens: Seq<TokenView>)
    ensures
        is_rest_of(infix_of(lhs, tokens).rest, tokens),
        tokens.len() > 0 && operator_of(tokens[0]) is Some ==> infix_of(lhs, tokens).rest.len()
            < tokens.len(),
    decreases tokens.len(), 1nat,
{
    lemma_skip_one_is_rest(tokens);
    if tokens.len() > 0 && operator_of(tokens[0]) is Some {
        let rest = tokens.skip(1);
        lemma_expression_consumes(rest, operand_threshold(tokens[0]));
        lemma_rest_of_rest(expression_of(rest, operand_threshold(tokens[0])).rest, rest, tokens);
    }
}

proof fn lemma_climb_consumes(lhs: ExprView, tokens: Seq<TokenView>, min: Precedence)
    ensures
        is_rest_of(climb(lhs, tokens, min).rest, tokens),
    decreases tokens.len(), 2nat,
{
    lemma_skip_one_is_rest(tokens);
    if continues(tokens, min) {
        lemma_infix_consumes(lhs, tokens);
        let step = infix_of(lhs, tokens);
        if let Ok(combined) = step.result {
            if step.rest.len() < tokens.len() {
                lemma_climb_consumes(combined, step.rest, min);
                lemma_rest_of_rest(climb(combined, step.rest, min).rest, step.rest, tokens);
            }
        }
    }
}

proof fn lemma_expression_consumes(tokens: Seq<TokenView>, min: Precedence)
    ensures
        is_rest_behind(expression_of(tokens, min).rest, tokens),
        expression_of(tokens, min).result is Ok ==> tokens.len() > 0,
    decreases tokens.len(), 3nat,
{
    lemma_prefix_consumes(tokens);
    let operand = prefix_of(tokens);
    if let Ok(lhs) = operand.result {
        lemma_climb_consumes(lhs, operand.rest, min);
        lemma_rest_of_rest(climb(lhs, operand.rest, min).rest, operand.rest, tokens);
    }
}

/// The parser reads its tokens once and in order: what it leaves is a rest of
/// what it was given. It takes at least one token where there is one,
/// whether it succeeds or fails, and it never succeeds on nothing.
pub proof fn lemma_parsing_consumes(tokens: Seq<TokenView>, min: Precedence)
    ensures
        is_rest_behind(expression_of(tokens, min).rest, tokens),
        expression_of(tokens, min).result is Ok ==> tokens.len() > 0,
{
    lemma_expression_consumes(tokens, min);
}

/// The lengths that the definition of [`climb`] tests are always in order:
/// a binary operation on top of an operand consumes its operator.
pub proof fn lemma_climbing_consumes(lhs: ExprView, tokens: Seq<TokenView>, min: Precedence)
    requires
        continues(tokens, min),
    ensures
        infix_of(lhs, tokens).rest.len() < tokens.len(),
        is_rest_of(climb(lhs, tokens, min).rest, tokens),
{
    lemma_infix_consumes(lhs, tokens);
    lemma_climb_consumes(lhs, tokens, min);
}

/// A statement is read once and in order too, and takes at least one token,
/// whether it is parsed or not.
pub proof fn lemma_statement_consumes(tokens: Seq<TokenView>)
    requires
        tokens.len() > 0,
    ensures
        is_rest_behind(statement_of(tokens).rest, tokens),
{
    lemma_skip_one_is_rest(tokens);
    if tokens[0] is Let {
        lemma_let_statement_consumes(tokens);
    } else {
        lemma_assign_statement_consumes(tokens);
    }
}

proof fn lemma_expect_consumes(kind: TokenKind, tokens: Seq<TokenView>)
    ensures
        is_rest_of(expect_of(kind, tokens).rest, tokens),
        is_rest_of(skip_one(expect_of(kind, tokens).rest), tokens),
{
    lemma_skip_one_is_rest(tokens);
    lemma_skip_one_is_rest(expect_of(kind, tokens).rest);
    lemma_rest_of_rest(skip_one(expect_of(kind, tokens).rest), expect_of(kind, tokens).rest, tokens);
}

/// A binding takes at least one token, whether it is parsed or not.
pub proof fn lemma_let_statement_consumes(tokens: Seq<TokenView>)
    ensures
        is_rest_behind(let_statement_of(tokens).rest, tokens),
{
    let start = skip_one(tokens);
    lemma_skip_one_is_rest(tokens);
    let name = expect_of(TokenKind::Ident, start);
    lemma_expect_consumes(TokenKind::Ident, start);
    lemma_rest_of_rest(name.rest, start, tokens);
    lemma_rest_of_rest(skip_one(name.rest), start, tokens);
    let arrow = expect_of(TokenKind::Arrow, name.rest);
    lemma_expect_consumes(TokenKind::Arrow, name.rest);
    lemma_rest_of_rest(arrow.rest, name.rest, tokens);
    lemma_rest_of_rest(skip_one(arrow.rest), name.rest, tokens);
    let body = expression_of(arrow.rest, Precedence::Lowest);
    lemma_expression_consumes(arrow.rest, Precedence::Lowest);
    lemma_skip_one_is_rest(body.rest);
    lemma_rest_of_rest(body.rest, arrow.rest, tokens);
    lemma_rest_of_rest(skip_one(body.rest), body.rest, tokens);
    let assign = expect_of(TokenKind::Assign, body.rest);
    lemma_expect_consumes(TokenKind::Assign, body.rest);
    lemma_rest_of_rest(assign.rest, body.rest, tokens);
    let request = expression_of(assign.rest, Precedence::Lowest);
    lemma_expression_consumes(assign.rest, Precedence::Lowest);
    lemma_skip_one_is_rest(request.rest);
    lemma_rest_of_rest(request.rest, assign.rest, tokens);
    lemma_rest_of_rest(skip_one(request.rest), request.rest, tokens);
}

/// An assignment takes at least one token, whether it is parsed or not.
pub proof fn lemma_assign_statement_consumes(tokens: Seq<TokenView>)
    ensures
        is_rest_behind(assign_statement_of(tokens).rest, tokens),
{
    let target = expression_of(tokens, Precedence::Lowest);
    lemma_expression_consumes(tokens, Precedence::Lowest);
    lemma_skip_one_is_rest(target.rest);
    lemma_rest_of_rest(skip_one(target.rest), target.rest, tokens);
    let assign = expect_of(TokenKind::Assign, target.rest);
    lemma_expect_consumes(TokenKind::Assign, target.rest);
    lemma_rest_of_rest(assign.rest, target.rest, tokens);
    lemma_rest_of_rest(skip_one(assign.rest), target.rest, tokens);
    let source = expression_of(assign.rest, Precedence::Lowest);
    lemma_expression_consumes(assign.rest, Precedence::Lowest);
    lemma_skip_one_is_rest(source.rest);
    lemma_rest_of_rest(source.rest, assign.rest, tokens);
    lemma_rest_of_rest(skip_one(source.rest), source.rest, tokens);
}

proof fn lemma_prefix_well_formed(tokens: Seq<TokenView>)
    ensures
        prefix_of(tokens).result matches Ok(expr) ==> well_formed(expr),
    decreases tokens.len(), 0nat,
{
    if tokens.len() > 0 {
        match tokens[0] {
            TokenView::Minus => {
                lemma_expression_well_formed(tokens.skip(1), Precedence::Prefix);
            },
            TokenView::LParen => {
                lemma_expression_well_formed(tokens.skip(1), Precedence::Lowest);
            },
            _ => {},
        }
    }
}

proof fn lemma_infix_well_formed(lhs: ExprView, tokens: Seq<TokenView>)
    requires
        well_formed(lhs),
    ensures
        infix_of(lhs, tokens).result matches Ok(expr) ==> well_formed(expr),
    decreases tokens.len(), 1nat,
{
    if tokens.len() > 0 && operator_of(tokens[0]) is Some {
        lemma_expression_well_formed(tokens.skip(1), operand_threshold(tokens[0]));
    }
}

proof fn lemma_climb_well_formed(lhs: ExprView, tokens: Seq<TokenView>, min: Precedence)
    requires
        well_formed(lhs),
    ensures
        climb(lhs, tokens, min).result matches Ok(expr) ==> well_formed(expr),
    decreases tokens.len(), 2nat,
{
    if continues(tokens, min) {
        lemma_infix_well_formed(lhs, tokens);
        let step = infix_of(lhs, tokens);
        if let Ok(combined) = step.result {
            if step.rest.len() < tokens.len() {
                lemma_climb_well_formed(combined, step.rest, min);
            }
        }
    }
}

proof fn lemma_expression_well_formed(tokens: Seq<TokenView>, min: Precedence)
    ensures
        expression_of(tokens, min).result matches Ok(expr) ==> well_formed(expr),
    decreases tokens.len(), 3nat,
{
    lemma_prefix_well_formed(tokens);
    let operand = prefix_of(tokens);
    if let Ok(lhs) = operand.result {
        if operand.rest.len() <= tokens.len() {
            lemma_climb_well_formed(lhs, operand.rest, min);
        }
    }
}

/// Every expression that the grammar yields is well formed: its unary nodes
/// carry the tag of a supported operator.
pub proof fn lemma_parsed_is_well_formed(tokens: Seq<TokenView>, min: Precedence)
    ensures
        expression_of(tokens, min).result matches Ok(expr) ==> well_formed(expr),
{
    lemma_expression_well_formed(tokens, min);
}

/// Whether the expressions of a statement are well formed.
pub open spec fn statement_well_formed(statement: StatementView) -> bool {
    match statement {
        StatementView::Let { name, expr, value } => well_formed(expr) && (value matches Some(
            request,
        ) ==> well_formed(request)),
        StatementView::Assign { expr, value } => well_formed(expr) && well_formed(value),
        StatementView::Equation { lhs, rhs } => well_formed(lhs) && well_formed(rhs),
        StatementView::Illegal => true,
    }
}

/// Every statement that the grammar yields holds well-formed expressions
/// only.
pub proof fn lemma_parsed_statement_is_well_formed(tokens: Seq<TokenView>)
    requires
        tokens.len() > 0,
    ensures
        statement_of(tokens).result matches Ok(statement) ==> statement_well_formed(statement),
{
    let name = expect_of(TokenKind::Ident, skip_one(tokens));
    let arrow = expect_of(TokenKind::Arrow, name.rest);
    lemma_expression_well_formed(arrow.rest, Precedence::Lowest);
    let body = expression_of(arrow.rest, Precedence::Lowest);
    let assign = expect_of(TokenKind::Assign, body.rest);
    lemma_expression_well_formed(assign.rest, Precedence::Lowest);
    lemma_expression_well_formed(tokens, Precedence::Lowest);
    let target = expression_of(tokens, Precedence::Lowest);
    let sign = expect_of(TokenKind::Assign, target.rest);
    lemma_expression_well_formed(sign.rest, Precedence::Lowest);
}

/// Every statement of an accepted program holds well-formed expressions
/// only.
pub proof fn lemma_program_is_well_formed(tokens: Seq<TokenView>)
    ensures
        program_of(tokens).result matches Ok(statements) ==> forall|i: int|
            0 <= i < statements.len() ==> statement_well_formed(#[trigger] statements[i]),
    decreases tokens.len(),
{
    if tokens.len() > 0 {
        let head = statement_of(tokens);
        lemma_parsed_statement_is_well_formed(tokens);
        if let Ok(statement) = head.result {
            let behind = skip_one(head.rest);
            if behind.len() < tokens.len() {
                lemma_program_is_well_formed(behind);
            }
        }
    }
}

/// A token that is an operand by itself: a number or an identifier.
pub open spec fn is_operand(token: TokenView) -> bool {
    token is Number || token is Ident
}

/// The expression that an operand token stands for.
pub open spec fn operand_of(token: TokenView) -> ExprView {
    match token {
        TokenView::Number(literal) => ExprView::Number(literal),
        TokenView::Ident(name) => ExprView::Ident(name),
        _ => ExprView::Ident(Seq::empty()),
    }
}

/// Whether no binary operator stands at the head of `rest`, so that an
/// expression in front of it ends there.
pub open spec fn ends_expression(rest: Seq<TokenView>) -> bool {
    rest.len() == 0 || operator_of(rest[0]) is None
}

/// The node of a binary operator token over two operands.
pub open spec fn binary_node(lhs: ExprView, op: TokenView, rhs: ExprView) -> ExprView {
    ExprView::Binary { lhs: Box::new(lhs), op: operator_of(op)->0, rhs: Box::new(rhs) }
}

/// The node of a unary minus over an operand.
pub open spec fn negation_node(operand: ExprView) -> ExprView {
    ExprView::Unary { op: seq!['-'], rhs: Box::new(operand) }
}

proof fn lemma_operand_parses(a: TokenView, rest: Seq<TokenView>)
    requires
        is_operand(a),
    ensures
        prefix_of(seq![a] + rest) == (Parsed { result: Ok(operand_of(a)), rest }),
{
    let tokens = seq![a] + rest;
    assert(tokens[0] == a);
    assert(tokens.skip(1) =~= rest);
}

proof fn lemma_climb_stops(lhs: ExprView, rest: Seq<TokenView>, min: Precedence)
    requires
        !continues(rest, min),
    ensures
        climb(lhs, rest, min) == (Parsed { result: Ok(lhs), rest }),
{
}

proof fn lemma_operator_continues(op: TokenView, rest: Seq<TokenView>)
    requires
        operator_of(op) is Some,
    ensures
        continues(seq![op] + rest, Precedence::Lowest),
        (seq![op] + rest).skip(1) == rest,
        (seq![op] + rest)[0] == op,
        precedence_of(op).level() >= 1,
        precedence_of(op).level() >= operand_threshold(op).level() >= 1,
{
    assert((seq![op] + rest).skip(1) =~= rest);
}

proof fn lemma_end_stops(rest: Seq<TokenView>, min: Precedence)
    requires
        ends_expression(rest),
    ensures
        !continues(rest, min),
{
}

/// Two operands with a binary operator between them parse to the node of
/// that operator over the two, whatever the operator: `a + b`, `a - b`,
/// `a * b`, `a / b`, `a % b`, `a ^ b`.
pub proof fn lemma_binary_operation_parses(
    a: TokenView,
    op: TokenView,
    b: TokenView,
    rest: Seq<TokenView>,
)
    requires
        is_operand(a),
        operator_of(op) is Some,
        is_operand(b),
        ends_expression(rest),
    ensures
        expression_of(seq![a, op, b] + rest, Precedence::Lowest) == (Parsed {
            result: Ok(binary_node(operand_of(a), op, operand_of(b))),
            rest,
        }),
{
    let tokens = seq![a, op, b] + rest;
    let behind_a = seq![op] + (seq![b] + rest);
    let behind_op = seq![b] + rest;
    assert(tokens =~= seq![a] + behind_a);
    lemma_operand_parses(a, behind_a);
    lemma_operator_continues(op, behind_op);
    lemma_operand_parses(b, rest);
    lemma_end_stops(rest, operand_threshold(op));
    lemma_end_stops(rest, Precedence::Lowest);
    lemma_climb_stops(operand_of(b), rest, operand_threshold(op));
    assert(expression_of(behind_op, operand_threshold(op)) == (Parsed {
        result: Ok(operand_of(b)),
        rest,
    }));
    let node = binary_node(operand_of(a), op, operand_of(b));
    assert(infix_of(operand_of(a), behind_a) == (Parsed { result: Ok(node), rest }));
    lemma_climb_stops(node, rest, Precedence::Lowest);
    assert(climb(operand_of(a), behind_a, Precedence::Lowest) == (Parsed {
        result: Ok(node),
        rest,
    }));
}

/// Of two binary operators in a row, the second one takes the middle operand
/// if it binds tighter than the threshold of the first one; otherwise the
/// first one takes it, and the second one takes the first operation.
///
/// So `1 + 2 * 3` is `1 + (2 * 3)`, `10 - 4 - 3` is `(10 - 4) - 3`, and
/// `2 ^ 3 ^ 2` is `2 ^ (3 ^ 2)`.
pub proof fn lemma_second_operator(
    a: TokenView,
    first: TokenView,
    b: TokenView,
    second: TokenView,
    c: TokenView,
    rest: Seq<TokenView>,
)
    requires
        is_operand(a),
        operator_of(first) is Some,
        is_operand(b),
        operator_of(second) is Some,
        is_operand(c),
        ends_expression(rest),
    ensures
        expression_of(seq![a, first, b, second, c] + rest, Precedence::Lowest) == (Parsed {
            result: Ok(
                if precedence_of(second).level() > operand_threshold(first).level() {
                    binary_node(
                        operand_of(a),
                        first,
                        binary_node(operand_of(b), second, operand_of(c)),
                    )
                } else {
                    binary_node(
                        binary_node(operand_of(a), first, operand_of(b)),
                        second,
                        operand_of(c),
                    )
                },
            ),
            rest,
        }),
{
    let tokens = seq![a, first, b, second, c] + rest;
    let behind_b = seq![second] + (seq![c] + rest);
    let behind_first = seq![b] + behind_b;
    let behind_a = seq![first] + behind_first;
    let behind_second = seq![c] + rest;
    assert(tokens =~= seq![a] + behind_a);
    lemma_operand_parses(a, behind_a);
    lemma_operand_parses(b, behind_b);
    lemma_operand_parses(c, rest);
    lemma_operator_continues(first, behind_first);
    lemma_operator_continues(second, behind_second);
    lemma_end_stops(rest, operand_threshold(second));
    lemma_end_stops(rest, operand_threshold(first));
    lemma_end_stops(rest, Precedence::Lowest);
    let inner = binary_node(operand_of(b), second, operand_of(c));
    lemma_climb_stops(operand_of(c), rest, operand_threshold(second));
    assert(expression_of(behind_second, operand_threshold(second)) == (Parsed {
        result: Ok(operand_of(c)),
        rest,
    }));
    assert(infix_of(operand_of(b), behind_b) == (Parsed { result: Ok(inner), rest }));
    if precedence_of(second).level() > operand_threshold(first).level() {
        lemma_climb_stops(inner, rest, operand_threshold(first));
        assert(climb(operand_of(b), behind_b, operand_threshold(first)) == (Parsed {
            result: Ok(inner),
            rest,
        }));
        assert(expression_of(behind_first, operand_threshold(first)) == (Parsed {
            result: Ok(inner),
            rest,
        }));
        let node = binary_node(operand_of(a), first, inner);
        assert(infix_of(operand_of(a), behind_a) == (Parsed { result: Ok(node), rest }));
        lemma_climb_stops(node, rest, Precedence::Lowest);
        assert(climb(operand_of(a), behind_a, Precedence::Lowest) == (Parsed {
            result: Ok(node),
            rest,
        }));
    } else {
        lemma_climb_stops(operand_of(b), behind_b, operand_threshold(first));
        assert(expression_of(behind_first, operand_threshold(first)) == (Parsed {
            result: Ok(operand_of(b)),
            rest: behind_b,
        }));
        let left = binary_node(operand_of(a), first, operand_of(b));
        assert(infix_of(operand_of(a), behind_a) == (Parsed { result: Ok(left), rest: behind_b }));
        let node = binary_node(left, second, operand_of(c));
        assert(infix_of(left, behind_b) == (Parsed { result: Ok(node), rest }));
        lemma_climb_stops(node, rest, Precedence::Lowest);
        assert(climb(left, behind_b, Precedence::Lowest) == (Parsed { result: Ok(node), rest }));
        assert(climb(operand_of(a), behind_a, Precedence::Lowest) == (Parsed {
            result: Ok(node),
            rest,
        }));
    }
}

/// A unary minus binds tighter than every binary operator: in `-a op b` the
/// minus takes `a` alone, and the operator takes the negation and `b`.
pub proof fn lemma_negation_binds_tightest(
    a: TokenView,
    op: TokenView,
    b: TokenView,
    rest: Seq<TokenView>,
)
    requires
        is_operand(a),
        operator_of(op) is Some,
        is_operand(b),
        ends_expression(rest),
    ensures
        expression_of(seq![TokenView::Minus, a, op, b] + rest, Precedence::Lowest) == (Parsed {
            result: Ok(binary_node(negation_node(operand_of(a)), op, operand_of(b))),
            rest,
        }),
{
    let tokens = seq![TokenView::Minus, a, op, b] + rest;
    let behind_op = seq![b] + rest;
    let behind_a = seq![op] + behind_op;
    let behind_minus = seq![a] + behind_a;
    assert(tokens.skip(1) =~= behind_minus);
    assert(tokens[0] == TokenView::Minus);
    lemma_operand_parses(a, behind_a);
    lemma_operand_parses(b, rest);
    lemma_operator_continues(op, behind_op);
    lemma_climb_stops(operand_of(a), behind_a, Precedence::Prefix);
    assert(expression_of(behind_minus, Precedence::Prefix) == (Parsed {
        result: Ok(operand_of(a)),
        rest: behind_a,
    }));
    let negation = negation_node(operand_of(a));
    assert(prefix_of(tokens) == (Parsed { result: Ok(negation), rest: behind_a }));
    lemma_end_stops(rest, operand_threshold(op));
    lemma_end_stops(rest, Precedence::Lowest);
    lemma_climb_stops(operand_of(b), rest, operand_threshold(op));
    assert(expression_of(behind_op, operand_threshold(op)) == (Parsed {
        result: Ok(operand_of(b)),
        rest,
    }));
    let node = binary_node(negation, op, operand_of(b));
    assert(infix_of(negation, behind_a) == (Parsed { result: Ok(node), rest }));
    lemma_climb_stops(node, rest, Precedence::Lowest);
    assert(climb(negation, behind_a, Precedence::Lowest) == (Parsed { result: Ok(node), rest }));
}

/// The token that stands for a binary operator.
pub open spec fn token_of(op: Operator) -> TokenView {
    match op {
        Operator::Add => TokenView::Plus,
        Operator::Sub => TokenView::Minus,
        Operator::Mult => TokenView::Mult,
        Operator::Div => TokenView::Div,
        Operator::Rem => TokenView::Mod,
        Operator::Pow => TokenView::Pow,
    }
}

/// Whether the tree has the shape of a parsed one: every unary node is a
/// negation.
pub open spec fn can_be_written(expr: ExprView) -> bool
    decreases expr,
{
    match expr {
        ExprView::Number(_) => true,
        ExprView::Ident(_) => true,
        ExprView::Binary { lhs, op, rhs } => can_be_written(*lhs) && can_be_written(*rhs),
        ExprView::Unary { op, rhs } => is_negation(op) && can_be_written(*rhs),
    }
}

/// The expression written out in tokens, with parentheses around every
/// binary operation.
pub open spec fn written(expr: ExprView) -> Seq<TokenView>
    decreases expr,
{
    match expr {
        ExprView::Number(literal) => seq![TokenView::Number(literal)],
        ExprView::Ident(name) => seq![TokenView::Ident(name)],
        ExprView::Binary { lhs, op, rhs } => seq![TokenView::LParen] + written(*lhs)
            + seq![token_of(op)] + written(*rhs) + seq![TokenView::RParen],
        ExprView::Unary { op, rhs } => seq![TokenView::Minus] + written(*rhs),
    }
}

proof fn lemma_written_parses_as_operand(expr: ExprView, rest: Seq<TokenView>)
    requires
        can_be_written(expr),
    ensures
        prefix_of(written(expr) + rest) == (Parsed { result: Ok(expr), rest }),
        written(expr).len() >= 1,
    decreases expr,
{
    let tokens = written(expr) + rest;
    match expr {
        ExprView::Number(literal) => {
            lemma_operand_parses(TokenView::Number(literal), rest);
        },
        ExprView::Ident(name) => {
            lemma_operand_parses(TokenView::Ident(name), rest);
        },
        ExprView::Unary { op, rhs } => {
            let behind_minus = written(*rhs) + rest;
            assert(tokens[0] == TokenView::Minus);
            assert(tokens.skip(1) =~= behind_minus);
            lemma_written_parses_as_operand(*rhs, rest);
            assert(!continues(rest, Precedence::Prefix));
            lemma_climb_stops(*rhs, rest, Precedence::Prefix);
            assert(expression_of(behind_minus, Precedence::Prefix) == (Parsed {
                result: Ok(*rhs),
                rest,
            }));
            assert(op =~= seq!['-']);
        },
        ExprView::Binary { lhs, op, rhs } => {
            let behind_close = rest;
            let behind_rhs = seq![TokenView::RParen] + behind_close;
            let behind_op = written(*rhs) + behind_rhs;
            let behind_lhs = seq![token_of(op)] + behind_op;
            let behind_open = written(*lhs) + behind_lhs;
            assert(tokens[0] == TokenView::LParen);
            assert(tokens.skip(1) =~= behind_open);
            lemma_written_parses_as_operand(*lhs, behind_lhs);
            lemma_written_parses_as_operand(*rhs, behind_rhs);
            lemma_operator_continues(token_of(op), behind_op);
            assert(behind_rhs[0] == TokenView::RParen);
            assert(behind_rhs.skip(1) =~= behind_close);
            lemma_end_stops(behind_rhs, operand_threshold(token_of(op)));
            lemma_end_stops(behind_rhs, Precedence::Lowest);
            lemma_climb_stops(*rhs, behind_rhs, operand_threshold(token_of(op)));
            assert(expression_of(behind_op, operand_threshold(token_of(op))) == (Parsed {
                result: Ok(*rhs),
                rest: behind_rhs,
            }));
            assert(infix_of(*lhs, behind_lhs) == (Parsed { result: Ok(expr), rest: behind_rhs }));
            lemma_climb_stops(expr, behind_rhs, Precedence::Lowest);
            assert(behind_rhs.len() < behind_lhs.len());
            assert(climb(*lhs, behind_lhs, Precedence::Lowest) == (Parsed {
                result: Ok(expr),
                rest: behind_rhs,
            }));
            assert(expression_of(behind_open, Precedence::Lowest) == (Parsed {
                result: Ok(expr),
                rest: behind_rhs,
            }));
        },
    }
}

/// Writing and parsing are inverse: an expression written out with
/// parentheses around every binary operation parses to itself, and parsing
/// stops behind its last token.
pub proof fn lemma_written_expression_parses_to_itself(expr: ExprView, rest: Seq<TokenView>)
    requires
        can_be_written(expr),
        ends_expression(rest),
    ensures
        expression_of(written(expr) + rest, Precedence::Lowest) == (Parsed {
            result: Ok(expr),
            rest,
        }),
{
    lemma_written_parses_as_operand(expr, rest);
    lemma_end_stops(rest, Precedence::Lowest);
    lemma_climb_stops(expr, rest, Precedence::Lowest);
    assert(rest.len() <= (written(expr) + rest).len());
}

/// The tokens of a binding's head: the keyword, the name and the arrow.
pub open spec fn binding_head(name: Seq<char>) -> Seq<TokenView> {
    seq![TokenView::Let, TokenView::Ident(name), TokenView::Arrow]
}

/// A binding whose definition is followed by no assignment sign parses to a
/// binding without a value: `let f -> 6 + 3 * y`.
pub proof fn lemma_binding_without_value_parses(
    name: Seq<char>,
    expr: ExprView,
    rest: Seq<TokenView>,
)
    requires
        can_be_written(expr),
        ends_expression(rest),
        first_of(rest) != Some(TokenView::Assign),
    ensures
        let_statement_of(binding_head(name) + written(expr) + rest) == (Outcome {
            result: Ok(StatementView::Let { name, expr, value: None }),
            rest,
        }),
{
    let tokens = binding_head(name) + written(expr) + rest;
    let behind_let = seq![TokenView::Ident(name), TokenView::Arrow] + written(expr) + rest;
    let behind_name = seq![TokenView::Arrow] + written(expr) + rest;
    let behind_arrow = written(expr) + rest;
    assert(skip_one(tokens) =~= behind_let);
    assert(behind_let.skip(1) =~= behind_name);
    assert(behind_name.skip(1) =~= behind_arrow);
    assert(behind_let[0] == TokenView::Ident(name));
    assert(behind_name[0] == TokenView::Arrow);
    assert(expect_of(TokenKind::Ident, behind_let) == (Parsed {
        result: Ok(TokenView::Ident(name)),
        rest: behind_name,
    }));
    assert(expect_of(TokenKind::Arrow, behind_name) == (Parsed {
        result: Ok(TokenView::Arrow),
        rest: behind_arrow,
    }));
    lemma_written_expression_parses_to_itself(expr, rest);
    assert(expect_of(TokenKind::Assign, rest).result is Err);
}

/// A binding whose definition is followed by an assignment sign and a second
/// expression parses to a binding with that expression as its value:
/// `let f -> x = 10`.
pub proof fn lemma_binding_with_value_parses(
    name: Seq<char>,
    expr: ExprView,
    value: ExprView,
    rest: Seq<TokenView>,
)
    requires
        can_be_written(expr),
        can_be_written(value),
        ends_expression(rest),
    ensures
        let_statement_of(
            binding_head(name) + written(expr) + seq![TokenView::Assign] + written(value) + rest,
        ) == (Outcome {
            result: Ok(StatementView::Let { name, expr, value: Some(value) }),
            rest,
        }),
{
    let behind_sign = written(value) + rest;
    let behind_expr = seq![TokenView::Assign] + behind_sign;
    let behind_arrow = written(expr) + behind_expr;
    let behind_name = seq![TokenView::Arrow] + behind_arrow;
    let behind_let = seq![TokenView::Ident(name)] + behind_name;
    let tokens = binding_head(name) + written(expr) + seq![TokenView::Assign] + written(value)
        + rest;
    assert(skip_one(tokens) =~= behind_let);
    assert(behind_let.skip(1) =~= behind_name);
    assert(behind_name.skip(1) =~= behind_arrow);
    assert(behind_expr.skip(1) =~= behind_sign);
    assert(behind_let[0] == TokenView::Ident(name));
    assert(behind_name[0] == TokenView::Arrow);
    assert(behind_expr[0] == TokenView::Assign);
    assert(expect_of(TokenKind::Ident, behind_let) == (Parsed {
        result: Ok(TokenView::Ident(name)),
        rest: behind_name,
    }));
    assert(expect_of(TokenKind::Arrow, behind_name) == (Parsed {
        result: Ok(TokenView::Arrow),
        rest: behind_arrow,
    }));
    lemma_written_expression_parses_to_itself(expr, behind_expr);
    assert(expect_of(TokenKind::Assign, behind_expr) == (Parsed {
        result: Ok(TokenView::Assign),
        rest: behind_sign,
    }));
    lemma_written_expression_parses_to_itself(value, rest);
}

/// A program cannot start with a token that starts no statement: such a
/// token is rejected as an illegal statement, with the token itself and the
/// one behind it in the diagnostic. An operator other than a minus sign at
/// the start of a statement is the plainest case.
pub proof fn lemma_illegal_start_is_rejected(tokens: Seq<TokenView>)
    requires
        tokens.len() > 0,
        !starts_statement(tokens[0]),
    ensures
        program_of(tokens) == (Outcome::<Seq<StatementView>> {
            result: Err(diagnostic_of(ParseErrorView::IllegalStatement, tokens)),
            rest: skip_one(tokens),
        }),
        diagnostic_of(ParseErrorView::IllegalStatement, tokens).failed_at == Some(tokens[0]),
{
}

/// A program is accepted only if a statement starts at its first token.
pub proof fn lemma_accepted_program_starts_legally(tokens: Seq<TokenView>)
    requires
        tokens.len() > 0,
        program_of(tokens).result is Ok,
    ensures
        starts_statement(tokens[0]),
{
}

/// A token that starts no statement is recorded as an illegal statement
/// when parsing goes on: it is the first statement of the recovery, and its
/// diagnostic the first diagnostic.
pub proof fn lemma_illegal_start_is_recorded(tokens: Seq<TokenView>)
    requires
        tokens.len() > 0,
        !starts_statement(tokens[0]),
    ensures
        recovery_of(tokens).statements.len() > 0,
        recovery_of(tokens).statements[0] == StatementView::Illegal,
        recovery_of(tokens).diagnostics.len() > 0,
        recovery_of(tokens).diagnostics[0] == diagnostic_of(
            ParseErrorView::IllegalStatement,
            tokens,
        ),
{
}

/// How many statements of a sequence are illegal.
pub open spec fn illegal_count(statements: Seq<StatementView>) -> nat
    decreases statements.len(),
{
    if statements.len() == 0 {
        0
    } else {
        illegal_count(statements.skip(1)) + if statements[0] is Illegal {
            1nat
        } else {
            0nat
        }
    }
}

proof fn lemma_parsed_statement_is_legal(tokens: Seq<TokenView>)
    requires
        tokens.len() > 0,
    ensures
        statement_of(tokens).result matches Ok(statement) ==> !(statement is Illegal),
{
}

/// Parsing with recovery gives one diagnostic for each illegal statement.
pub proof fn lemma_one_diagnostic_per_illegal_statement(tokens: Seq<TokenView>)
    ensures
        recovery_of(tokens).diagnostics.len() == illegal_count(recovery_of(tokens).statements),
    decreases tokens.len(),
{
    if tokens.len() > 0 {
        let head = statement_of(tokens);
        lemma_statement_consumes(tokens);
        lemma_skip_one_is_rest(head.rest);
        lemma_parsed_statement_is_legal(tokens);
        let behind = resumes_at(head);
        lemma_one_diagnostic_per_illegal_statement(behind);
        let tail = recovery_of(behind);
        assert(recovery_of(tokens) == attempt_then(head.result, tail));
        assert(recovery_of(tokens).statements.skip(1) =~= tail.statements);
    }
}

/// Parsing with recovery and parsing without agree: a program is accepted
/// exactly if its recovery holds no diagnostic, and then the statements are
/// the same; a program is rejected with the first diagnostic of its
/// recovery.
pub proof fn lemma_recovery_agrees(tokens: Seq<TokenView>)
    ensures
        match program_of(tokens).result {
            Ok(statements) => recovery_of(tokens).diagnostics.len() == 0 && recovery_of(
                tokens,
            ).statements == statements,
            Err(diagnostic) => recovery_of(tokens).diagnostics.len() > 0 && recovery_of(
                tokens,
            ).diagnostics[0] == diagnostic,
        },
    decreases tokens.len(),
{
    if tokens.len() > 0 {
        let head = statement_of(tokens);
        lemma_statement_consumes(tokens);
        lemma_skip_one_is_rest(head.rest);
        let behind = resumes_at(head);
        let tail = recovery_of(behind);
        assert(recovery_of(tokens) == attempt_then(head.result, tail));
        if head.result is Ok {
            lemma_recovery_agrees(behind);
        }
    }
}

} // verus!
