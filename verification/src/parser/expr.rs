//! Expressions, and the precedence-climbing parser that builds them.

use super::cursor::{first_of, is_rest_behind, skip_one, TokenCursor};
use super::error::{ParseError, ParseErrorView};
use super::lemmas::{lemma_parsed_is_well_formed, lemma_parsing_consumes};
use super::operator::{get_operator, operator_of, Operator};
use crate::lexer::token::{Token, TokenView};
use vstd::prelude::*;

verus! {

/// A syntax tree for something that has a value. Every node owns its
/// children.
///
/// A number holds its literal, an identifier its name. The operator of a
/// unary node is a tag: `-` for negation, `abs` or `modulus` for the absolute
/// value. A tree in which every unary node carries one of these tags is
/// well formed, see [`well_formed`].
#[allow(inconsistent_fields)]
#[derive(Debug, PartialEq, Eq)]
pub enum Expression {
    Number(String),
    Ident(String),
    Binary { lhs: Box<Expression>, op: Operator, rhs: Box<Expression> },
    Unary { op: String, rhs: Box<Expression> },
}

/// The mathematical model of an [`Expression`].
#[allow(inconsistent_fields)]
pub enum ExprView {
    Number(Seq<char>),
    Ident(Seq<char>),
    Binary { lhs: Box<ExprView>, op: Operator, rhs: Box<ExprView> },
    Unary { op: Seq<char>, rhs: Box<ExprView> },
}

impl Expression {
    /// The model of this expression, node by node.
    pub open spec fn model(self) -> ExprView
        decreases self,
    {
        match self {
            Expression::Number(literal) => ExprView::Number(literal@),
            Expression::Ident(name) => ExprView::Ident(name@),
            Expression::Binary { lhs, op, rhs } => ExprView::Binary {
                lhs: Box::new((*lhs).model()),
                op,
                rhs: Box::new((*rhs).model()),
            },
            Expression::Unary { op, rhs } => ExprView::Unary {
                op: op@,
                rhs: Box::new((*rhs).model()),
            },
        }
    }
}

impl View for Expression {
    type V = ExprView;

    open spec fn view(&self) -> ExprView {
        self.model()
    }
}

/// The tag of arithmetic negation.
pub open spec fn is_negation(tag: Seq<char>) -> bool {
    tag == seq!['-']
}

/// The tags of the absolute value.
pub open spec fn is_absolute_value(tag: Seq<char>) -> bool {
    tag == seq!['a', 'b', 's'] || tag == seq!['m', 'o', 'd', 'u', 'l', 'u', 's']
}

/// Whether every unary node of the tree carries the tag of a supported
/// operator.
pub open spec fn well_formed(expr: ExprView) -> bool
    decreases expr,
{
    match expr {
        ExprView::Number(_) => true,
        ExprView::Ident(_) => true,
        ExprView::Binary { lhs, op, rhs } => well_formed(*lhs) && well_formed(*rhs),
        ExprView::Unary { op, rhs } => (is_negation(op) || is_absolute_value(op)) && well_formed(
            *rhs,
        ),
    }
}

/// How tightly an operator binds, from loosest to tightest.
///
/// `+` and `-` are sums; `*`, `/` and `%` are products; `^` is an exponent.
/// A unary minus binds tighter than every binary operator.
#[derive(Debug, Clone, Copy, PartialEq, Eq, PartialOrd, Ord, Structural)]
pub enum Precedence {
    Lowest,
    Sum,
    Product,
    Exponent,
    Prefix,
    Parens,
}

impl Precedence {
    /// The place of this precedence in the order, `Lowest` being 0.
    pub open spec fn level(self) -> nat {
        match self {
            Precedence::Lowest => 0,
            Precedence::Sum => 1,
            Precedence::Product => 2,
            Precedence::Exponent => 3,
            Precedence::Prefix => 4,
            Precedence::Parens => 5,
        }
    }

    /// The place of this precedence in the order, `Lowest` being 0.
    pub fn rank(self) -> (rank: u8)
        ensures
            rank == self.level(),
    {
        match self {
            Precedence::Lowest => 0,
            Precedence::Sum => 1,
            Precedence::Product => 2,
            Precedence::Exponent => 3,
            Precedence::Prefix => 4,
            Precedence::Parens => 5,
        }
    }
}

/// The precedence of a token taken as a binary operator. A token that is no
/// binary operator has the lowest precedence, so it ends every expression.
pub open spec fn precedence_of(token: TokenView) -> Precedence {
    match token {
        TokenView::Plus => Precedence::Sum,
        TokenView::Minus => Precedence::Sum,
        TokenView::Mult => Precedence::Product,
        TokenView::Div => Precedence::Product,
        TokenView::Mod => Precedence::Product,
        TokenView::Pow => Precedence::Exponent,
        _ => Precedence::Lowest,
    }
}

/// The precedence of a token taken as a binary operator.
pub fn token_precedence(token: &Token) -> (precedence: Precedence)
    ensures
        precedence == precedence_of(token@),
{
    match token {
        Token::Plus => Precedence::Sum,
        Token::Minus => Precedence::Sum,
        Token::Mult => Precedence::Product,
        Token::Div => Precedence::Product,
        Token::Mod => Precedence::Product,
        Token::Pow => Precedence::Exponent,
        _ => Precedence::Lowest,
    }
}

/// The threshold for the right operand of an operator: an operator that
/// follows the operand is taken into it only if it binds tighter than this.
///
/// For the operators that associate to the left it is the operator's own
/// precedence. `^` associates to the right, so its threshold lies one step
/// lower and a following `^` goes to the right operand.
pub open spec fn operand_threshold(token: TokenView) -> Precedence {
    match token {
        TokenView::Pow => Precedence::Product,
        _ => precedence_of(token),
    }
}

/// What parsing yields: a value or an error, and the tokens left over.
pub struct Parsed<T> {
    pub result: Result<T, ParseErrorView>,
    pub rest: Seq<TokenView>,
}

/// An operand: a number, an identifier, a negated operand, or an expression
/// in parentheses.
///
/// The first token is consumed whatever it is. Where a closing parenthesis
/// is missing, the token found in its place is consumed too.
pub open spec fn prefix_of(tokens: Seq<TokenView>) -> Parsed<ExprView>
    decreases tokens.len(), 0nat,
{
    if tokens.len() == 0 {
        Parsed { result: Err(ParseErrorView::UnexpectedToken { found: None }), rest: tokens }
    } else {
        let rest = tokens.skip(1);
        match tokens[0] {
            TokenView::Number(literal) => Parsed { result: Ok(ExprView::Number(literal)), rest },
            TokenView::Ident(name) => Parsed { result: Ok(ExprView::Ident(name)), rest },
            TokenView::Minus => {
                let operand = expression_of(rest, Precedence::Prefix);
                match operand.result {
                    Ok(rhs) => Parsed {
                        result: Ok(ExprView::Unary { op: seq!['-'], rhs: Box::new(rhs) }),
                        rest: operand.rest,
                    },
                    Err(error) => Parsed { result: Err(error), rest: operand.rest },
                }
            },
            TokenView::LParen => {
                let inner = expression_of(rest, Precedence::Lowest);
                match inner.result {
                    Ok(expr) => if first_of(inner.rest) == Some(TokenView::RParen) {
                        Parsed { result: Ok(expr), rest: skip_one(inner.rest) }
                    } else {
                        Parsed {
                            result: Err(
                                ParseErrorView::MissingRParen { found: first_of(inner.rest) },
                            ),
                            rest: skip_one(inner.rest),
                        }
                    },
                    Err(error) => Parsed { result: Err(error), rest: inner.rest },
                }
            },
            other => Parsed {
                result: Err(ParseErrorView::UnexpectedToken { found: Some(other) }),
                rest,
            },
        }
    }
}

/// One binary operation on top of `lhs`: the operator at the head of the
/// tokens, and its right operand.
pub open spec fn infix_of(lhs: ExprView, tokens: Seq<TokenView>) -> Parsed<ExprView>
    decreases tokens.len(), 1nat,
{
    if tokens.len() > 0 && operator_of(tokens[0]) is Some {
        let operand = expression_of(tokens.skip(1), operand_threshold(tokens[0]));
        match operand.result {
            Ok(rhs) => Parsed {
                result: Ok(
                    ExprView::Binary {
                        lhs: Box::new(lhs),
                        op: operator_of(tokens[0])->0,
                        rhs: Box::new(rhs),
                    },
                ),
                rest: operand.rest,
            },
            Err(error) => Parsed { result: Err(error), rest: operand.rest },
        }
    } else {
        Parsed { result: Ok(lhs), rest: tokens }
    }
}

/// Whether the operator at the head of the tokens binds tighter than `min`,
/// so that it continues the expression on its left.
pub open spec fn continues(tokens: Seq<TokenView>, min: Precedence) -> bool {
    tokens.len() > 0 && precedence_of(tokens[0]).level() > min.level()
}

/// The binary operations that follow `lhs`, as long as their operators bind
/// tighter than `min`; each one takes all that was parsed before it as its
/// left operand.
///
/// Every operation consumes tokens, see [`super::lemmas`]; the test
/// on the lengths only serves to show that the definition is well founded.
pub open spec fn climb(lhs: ExprView, tokens: Seq<TokenView>, min: Precedence) -> Parsed<ExprView>
    decreases tokens.len(), 2nat,
{
    if continues(tokens, min) {
        let step = infix_of(lhs, tokens);
        match step.result {
            Ok(combined) => if step.rest.len() < tokens.len() {
                climb(combined, step.rest, min)
            } else {
                step
            },
            Err(_) => step,
        }
    } else {
        Parsed { result: Ok(lhs), rest: tokens }
    }
}

/// An expression all of whose top-level operators bind tighter than `min`:
/// an operand, and the binary operations that follow it.
pub open spec fn expression_of(tokens: Seq<TokenView>, min: Precedence) -> Parsed<ExprView>
    decreases tokens.len(), 3nat,
{
    let operand = prefix_of(tokens);
    match operand.result {
        Ok(lhs) => if operand.rest.len() <= tokens.len() {
            climb(lhs, operand.rest, min)
        } else {
            operand
        },
        Err(_) => operand,
    }
}

/// Whether an outcome of the parser is the one that the grammar gives.
pub open spec fn agrees(
    result: Result<Expression, ParseError>,
    rest: Seq<TokenView>,
    parsed: Parsed<ExprView>,
) -> bool {
    &&& rest == parsed.rest
    &&& match result {
        Ok(expr) => parsed.result == Ok::<ExprView, ParseErrorView>(expr@),
        Err(error) => parsed.result == Err::<ExprView, ParseErrorView>(error@),
    }
}

/// Parses an operand.
fn parse_prefix(tokens: &mut TokenCursor) -> (result: Result<Expression, ParseError>)
    ensures
        agrees(result, final(tokens)@, prefix_of(old(tokens)@)),
        final(tokens)@.len() <= old(tokens)@.len(),
        old(tokens)@.len() > 0 ==> final(tokens)@.len() < old(tokens)@.len(),
        result is Ok ==> old(tokens)@.len() > 0,
    decreases old(tokens)@.len(), 0nat,
{
    match tokens.next() {
        Some(Token::Number(literal)) => Ok(Expression::Number(literal)),
        Some(Token::Ident(name)) => Ok(Expression::Ident(name)),
        Some(Token::Minus) => {
            match parse_expression_pratt(tokens, Precedence::Prefix) {
                Ok(rhs) => {
                    let op = String::from_str("-");
                    proof {
                        reveal_strlit("-");
                        assert(op@ =~= seq!['-']);
                    }
                    Ok(Expression::Unary { op, rhs: Box::new(rhs) })
                },
                Err(error) => Err(error),
            }
        },
        Some(Token::LParen) => {
            match parse_expression_pratt(tokens, Precedence::Lowest) {
                Ok(expr) => {
                    match tokens.next() {
                        Some(Token::RParen) => Ok(expr),
                        other => Err(ParseError::MissingRParen { found: other }),
                    }
                },
                Err(error) => Err(error),
            }
        },
        other => Err(ParseError::UnexpectedToken { found: other }),
    }
}

/// Parses the operator at the cursor and its right operand, and puts `lhs`
/// and the operand under the operator.
fn parse_infix(lhs: Expression, tokens: &mut TokenCursor) -> (result: Result<
    Expression,
    ParseError,
>)
    requires
        old(tokens)@.len() > 0,
        operator_of(old(tokens)@[0]) is Some,
    ensures
        agrees(result, final(tokens)@, infix_of(lhs@, old(tokens)@)),
        final(tokens)@.len() < old(tokens)@.len(),
    decreases old(tokens)@.len(), 1nat,
{
    let op_token = tokens.next().unwrap();
    let op = get_operator(&op_token);
    let threshold = match op_token {
        Token::Pow => Precedence::Product,
        _ => token_precedence(&op_token),
    };
    match parse_expression_pratt(tokens, threshold) {
        Ok(rhs) => Ok(Expression::Binary { lhs: Box::new(lhs), op, rhs: Box::new(rhs) }),
        Err(error) => Err(error),
    }
}

/// Parses an expression all of whose top-level operators bind tighter than
/// `min_prec`.
fn parse_expression_pratt(tokens: &mut TokenCursor, min_prec: Precedence) -> (result: Result<
    Expression,
    ParseError,
>)
    ensures
        agrees(result, final(tokens)@, expression_of(old(tokens)@, min_prec)),
        final(tokens)@.len() <= old(tokens)@.len(),
        old(tokens)@.len() > 0 ==> final(tokens)@.len() < old(tokens)@.len(),
        result is Ok ==> old(tokens)@.len() > 0,
    decreases old(tokens)@.len(), 3nat,
{
    let ghost start = tokens@;
    let mut lhs = match parse_prefix(tokens) {
        Ok(operand) => operand,
        Err(error) => {
            return Err(error);
        },
    };
    loop
        invariant
            start == old(tokens)@,
            tokens@.len() < start.len(),
            climb(lhs@, tokens@, min_prec) == expression_of(start, min_prec),
        decreases tokens@.len(),
    {
        let go_on = match tokens.peek() {
            Some(next) => token_precedence(next).rank() > min_prec.rank(),
            None => false,
        };
        if !go_on {
            return Ok(lhs);
        }
        match parse_infix(lhs, tokens) {
            Ok(combined) => {
                lhs = combined;
            },
            Err(error) => {
                return Err(error);
            },
        }
    }
}

/// Parses an expression: operands joined by binary operators, where `*`, `/`
/// and `%` bind tighter than `+` and `-`, `^` binds tighter still and
/// associates to the right, and a unary minus binds tightest.
///
/// The cursor is left behind the last token of the expression, or behind the
/// token at which parsing failed.
pub fn parse_expression(tokens: &mut TokenCursor) -> (result: Result<Expression, ParseError>)
    ensures
        agrees(result, final(tokens)@, expression_of(old(tokens)@, Precedence::Lowest)),
        is_rest_behind(final(tokens)@, old(tokens)@),
        result matches Ok(expr) ==> well_formed(expr@) && old(tokens)@.len() > 0,
{
    proof {
        lemma_parsing_consumes(tokens@, Precedence::Lowest);
        lemma_parsed_is_well_formed(tokens@, Precedence::Lowest);
    }
    parse_expression_pratt(tokens, Precedence::Lowest)
}

} // verus!
