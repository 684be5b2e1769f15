//! The binary operators and the tokens that stand for them.

use crate::lexer::token::{Token, TokenView};
use vstd::pervasive::unreached;
use vstd::prelude::*;

verus! {

/// A binary arithmetic operator.
#[derive(Debug, Clone, Copy, PartialEq, Eq, Structural)]
pub enum Operator {
    Add,
    Sub,
    Mult,
    Div,
    Rem,
    Pow,
}

/// The operator that a token stands for between two operands, if any.
pub open spec fn operator_of(token: TokenView) -> Option<Operator> {
    match token {
        TokenView::Plus => Some(Operator::Add),
        TokenView::Minus => Some(Operator::Sub),
        TokenView::Mult => Some(Operator::Mult),
        TokenView::Div => Some(Operator::Div),
        TokenView::Mod => Some(Operator::Rem),
        TokenView::Pow => Some(Operator::Pow),
        _ => None,
    }
}

/// The operator that an operator token stands for.
pub fn get_operator(op_token: &Token) -> (op: Operator)
    requires
        operator_of(op_token@) is Some,
    ensures
        operator_of(op_token@) == Some(op),
{
    match op_token {
        Token::Plus => Operator::Add,
        Token::Minus => Operator::Sub,
        Token::Mult => Operator::Mult,
        Token::Div => Operator::Div,
        Token::Mod => Operator::Rem,
        Token::Pow => Operator::Pow,
        _ => unreached(),
    }
}

} // verus!
