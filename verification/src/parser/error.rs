//! What the parser reports when the tokens do not fit the grammar.

use super::cursor::optional_view;
use crate::lexer::token::{Token, TokenKind, TokenView};
use vstd::prelude::*;

verus! {

/// Why a piece of the grammar could not be parsed. Where a token is named, it
/// is the token that was found in place of the expected one; `None` stands
/// for the end of the input.
#[derive(Debug, PartialEq, Eq)]
pub enum ParseError {
    /// The token found cannot start an expression.
    UnexpectedToken { found: Option<Token> },
    /// An opening parenthesis has no closing one behind its expression.
    MissingRParen { found: Option<Token> },
    /// A token of the given kind was required.
    ExpectedKind { kind: TokenKind, found: Option<Token> },
    /// No statement starts with the next token.
    IllegalStatement,
}

/// The mathematical model of a [`ParseError`].
pub enum ParseErrorView {
    UnexpectedToken { found: Option<TokenView> },
    MissingRParen { found: Option<TokenView> },
    ExpectedKind { kind: TokenKind, found: Option<TokenView> },
    IllegalStatement,
}

impl View for ParseError {
    type V = ParseErrorView;

    open spec fn view(&self) -> ParseErrorView {
        match self {
            ParseError::UnexpectedToken { found } => ParseErrorView::UnexpectedToken {
                found: optional_view(*found),
            },
            ParseError::MissingRParen { found } => ParseErrorView::MissingRParen {
                found: optional_view(*found),
            },
            ParseError::ExpectedKind { kind, found } => ParseErrorView::ExpectedKind {
                kind: *kind,
                found: optional_view(*found),
            },
            ParseError::IllegalStatement => ParseErrorView::IllegalStatement,
        }
    }
}

/// A parse error together with the place where parsing stopped: the token at
/// which it gave up and the token behind that one.
#[derive(Debug, PartialEq, Eq)]
pub struct Diagnostic {
    pub error: ParseError,
    pub failed_at: Option<Token>,
    pub next: Option<Token>,
}

/// The mathematical model of a [`Diagnostic`].
pub struct DiagnosticView {
    pub error: ParseErrorView,
    pub failed_at: Option<TokenView>,
    pub next: Option<TokenView>,
}

impl View for Diagnostic {
    type V = DiagnosticView;

    open spec fn view(&self) -> DiagnosticView {
        DiagnosticView {
            error: self.error@,
            failed_at: optional_view(self.failed_at),
            next: optional_view(self.next),
        }
    }
}

} // verus!
