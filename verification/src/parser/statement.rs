//! Statements: bindings and assignments built from expressions.

use super::cursor::{is_rest_behind, skip_one, TokenCursor};
use super::error::{Diagnostic, DiagnosticView, ParseErrorView};
use super::lemmas::{lemma_assign_statement_consumes, lemma_let_statement_consumes};
use super::expr::{expression_of, parse_expression, ExprView, Expression, Precedence};
use super::{diagnostic_of, expect_kind, expect_of, parsing_error};
use crate::lexer::token::{Token, TokenKind, TokenView};
use vstd::prelude::*;

verus! {

/// A top-level unit of a program.
#[allow(inconsistent_fields)]
#[derive(Debug, PartialEq, Eq)]
pub enum Statement {
    /// `let NAME -> EXPR`, with `= EXPR` behind it or not: `expr` is the
    /// definition behind the arrow, `value` what stands behind the `=`.
    Let { name: String, expr: Expression, value: Option<Expression> },
    /// `EXPR = EXPR`.
    Assign { expr: Expression, value: Expression },
    /// An equation between two expressions. No statement of the grammar
    /// parses to it yet.
    Equation { lhs: Expression, rhs: Expression },
    /// The place of a statement that could not be parsed.
    Illegal,
}

/// The mathematical model of a [`Statement`].
#[allow(inconsistent_fields)]
pub enum StatementView {
    Let { name: Seq<char>, expr: ExprView, value: Option<ExprView> },
    Assign { expr: ExprView, value: ExprView },
    Equation { lhs: ExprView, rhs: ExprView },
    Illegal,
}

impl View for Statement {
    type V = StatementView;

    open spec fn view(&self) -> StatementView {
        match self {
            Statement::Let { name, expr, value } => StatementView::Let {
                name: name@,
                expr: expr@,
                value: match value {
                    Some(value) => Some(value@),
                    None => None,
                },
            },
            Statement::Assign { expr, value } => StatementView::Assign {
                expr: expr@,
                value: value@,
            },
            Statement::Equation { lhs, rhs } => StatementView::Equation { lhs: lhs@, rhs: rhs@ },
            Statement::Illegal => StatementView::Illegal,
        }
    }
}

/// The models of a sequence of statements, in order.
pub open spec fn statement_views(statements: Seq<Statement>) -> Seq<StatementView> {
    statements.map_values(|statement: Statement| statement@)
}

/// What parsing a statement yields: a value or a diagnostic, and the tokens
/// left over.
pub struct Outcome<T> {
    pub result: Result<T, DiagnosticView>,
    pub rest: Seq<TokenView>,
}

/// Giving up at the head of `tokens`: the diagnostic names the token there
/// and the one behind it, and the token there is consumed.
pub open spec fn failure<T>(error: ParseErrorView, tokens: Seq<TokenView>) -> Outcome<T> {
    Outcome { result: Err(diagnostic_of(error, tokens)), rest: skip_one(tokens) }
}

/// The name that an identifier token holds.
pub open spec fn name_of(token: TokenView) -> Seq<char> {
    match token {
        TokenView::Ident(name) => name,
        _ => Seq::empty(),
    }
}

/// A binding: the keyword, a name, an arrow and the expression that defines
/// the name; then, if an assignment sign follows, the expression whose value
/// is asked for.
///
/// The first token is taken for the keyword and consumed whatever it is.
pub open spec fn let_statement_of(tokens: Seq<TokenView>) -> Outcome<StatementView> {
    let name = expect_of(TokenKind::Ident, skip_one(tokens));
    match name.result {
        Err(error) => failure(error, name.rest),
        Ok(ident) => {
            let arrow = expect_of(TokenKind::Arrow, name.rest);
            match arrow.result {
                Err(error) => failure(error, arrow.rest),
                Ok(_) => {
                    let body = expression_of(arrow.rest, Precedence::Lowest);
                    match body.result {
                        Err(error) => failure(error, body.rest),
                        Ok(expr) => {
                            let assign = expect_of(TokenKind::Assign, body.rest);
                            if assign.result is Ok {
                                let request = expression_of(assign.rest, Precedence::Lowest);
                                match request.result {
                                    Err(error) => failure(error, request.rest),
                                    Ok(value) => Outcome {
                                        result: Ok(
                                            StatementView::Let {
                                                name: name_of(ident),
                                                expr,
                                                value: Some(value),
                                            },
                                        ),
                                        rest: request.rest,
                                    },
                                }
                            } else {
                                Outcome {
                                    result: Ok(
                                        StatementView::Let {
                                            name: name_of(ident),
                                            expr,
                                            value: None,
                                        },
                                    ),
                                    rest: body.rest,
                                }
                            }
                        },
                    }
                },
            }
        },
    }
}

/// An assignment: an expression, an assignment sign, and a second
/// expression.
pub open spec fn assign_statement_of(tokens: Seq<TokenView>) -> Outcome<StatementView> {
    let target = expression_of(tokens, Precedence::Lowest);
    match target.result {
        Err(error) => failure(error, target.rest),
        Ok(expr) => {
            let assign = expect_of(TokenKind::Assign, target.rest);
            match assign.result {
                Err(error) => failure(error, assign.rest),
                Ok(_) => {
                    let source = expression_of(assign.rest, Precedence::Lowest);
                    match source.result {
                        Err(error) => failure(error, source.rest),
                        Ok(value) => Outcome {
                            result: Ok(StatementView::Assign { expr, value }),
                            rest: source.rest,
                        },
                    }
                },
            }
        },
    }
}

/// Whether the parser's outcome for a statement is the one that the grammar
/// gives.
pub open spec fn complies(
    result: Result<Statement, Diagnostic>,
    rest: Seq<TokenView>,
    outcome: Outcome<StatementView>,
) -> bool {
    &&& rest == outcome.rest
    &&& match result {
        Ok(statement) => outcome.result == Ok::<StatementView, DiagnosticView>(statement@),
        Err(diagnostic) => outcome.result == Err::<StatementView, DiagnosticView>(diagnostic@),
    }
}

/// Parses a binding. The cursor stands at the keyword, which is consumed
/// without a look at it.
///
/// On failure the diagnostic holds the token at which parsing gave up, and
/// the cursor is left behind that token.
pub fn parse_let_statement(tokens: &mut TokenCursor) -> (result: Result<Statement, Diagnostic>)
    ensures
        complies(result, final(tokens)@, let_statement_of(old(tokens)@)),
        is_rest_behind(final(tokens)@, old(tokens)@),
{
    proof {
        lemma_let_statement_consumes(tokens@);
    }
    tokens.next();
    let name = match expect_kind(TokenKind::Ident, tokens) {
        Ok(Token::Ident(name)) => name,
        Ok(_) => String::new(),
        Err(error) => {
            return Err(parsing_error(error, tokens));
        },
    };
    if let Err(error) = expect_kind(TokenKind::Arrow, tokens) {
        return Err(parsing_error(error, tokens));
    }
    let expr = match parse_expression(tokens) {
        Ok(expr) => expr,
        Err(error) => {
            return Err(parsing_error(error, tokens));
        },
    };
    let value = if expect_kind(TokenKind::Assign, tokens).is_ok() {
        match parse_expression(tokens) {
            Ok(value) => Some(value),
            Err(error) => {
                return Err(parsing_error(error, tokens));
            },
        }
    } else {
        None
    };
    Ok(Statement::Let { name, expr, value })
}

/// Parses an assignment.
///
/// On failure the diagnostic holds the token at which parsing gave up, and
/// the cursor is left behind that token.
pub fn parse_assign_statement(tokens: &mut TokenCursor) -> (result: Result<Statement, Diagnostic>)
    ensures
        complies(result, final(tokens)@, assign_statement_of(old(tokens)@)),
        is_rest_behind(final(tokens)@, old(tokens)@),
{
    proof {
        lemma_assign_statement_consumes(tokens@);
    }
    let expr = match parse_expression(tokens) {
        Ok(expr) => expr,
        Err(error) => {
            return Err(parsing_error(error, tokens));
        },
    };
    if let Err(error) = expect_kind(TokenKind::Assign, tokens) {
        return Err(parsing_error(error, tokens));
    }
    let value = match parse_expression(tokens) {
        Ok(value) => value,
        Err(error) => {
            return Err(parsing_error(error, tokens));
        },
    };
    Ok(Statement::Assign { expr, value })
}

} // verus!
