//! The parser: from a token stream to statements built from expressions.

pub mod cursor;
pub mod error;
pub mod expr;
pub mod lemmas;
pub mod operator;
pub mod statement;

pub use cursor::TokenCursor;
pub use error::{Diagnostic, ParseError};
pub use expr::{parse_expression, Expression};
pub use operator::{get_operator, Operator};
pub use statement::Statement;

use crate::lexer::token::{token_views, Token, TokenKind, TokenView};
use cursor::{first_of, skip_one};
use error::{DiagnosticView, ParseErrorView};
use expr::Parsed;
use statement::{
    assign_statement_of, complies, failure, let_statement_of, parse_assign_statement,
    parse_let_statement, statement_views, Outcome, StatementView,
};
use vstd::prelude::*;

verus! {

/// Requiring a token of a given kind at the head of `tokens`: the token is
/// taken if its kind is the one asked for; otherwise nothing is consumed.
pub open spec fn expect_of(kind: TokenKind, tokens: Seq<TokenView>) -> Parsed<TokenView> {
    if tokens.len() > 0 && tokens[0].kind() == kind {
        Parsed { result: Ok(tokens[0]), rest: tokens.skip(1) }
    } else {
        Parsed {
            result: Err(ParseErrorView::ExpectedKind { kind, found: first_of(tokens) }),
            rest: tokens,
        }
    }
}

/// Consumes and returns the next token if it is of the given kind. Otherwise
/// the cursor stays where it is, and the error names the kind asked for and
/// the token found.
pub fn expect_kind(kind: TokenKind, tokens: &mut TokenCursor) -> (result: Result<
    Token,
    ParseError,
>)
    ensures
        final(tokens)@ == expect_of(kind, old(tokens)@).rest,
        match result {
            Ok(token) => expect_of(kind, old(tokens)@).result == Ok::<TokenView, ParseErrorView>(
                token@,
            ),
            Err(error) => expect_of(kind, old(tokens)@).result == Err::<TokenView, ParseErrorView>(
                error@,
            ),
        },
{
    let found = match tokens.peek() {
        Some(token) => {
            if token.kind() == kind {
                None
            } else {
                Some(Some(token.clone()))
            }
        },
        None => Some(None),
    };
    match found {
        None => Ok(tokens.next().unwrap()),
        Some(found) => Err(ParseError::ExpectedKind { kind, found }),
    }
}

/// The diagnostic for giving up at the head of `tokens`.
pub open spec fn diagnostic_of(error: ParseErrorView, tokens: Seq<TokenView>) -> DiagnosticView {
    DiagnosticView { error, failed_at: first_of(tokens), next: first_of(skip_one(tokens)) }
}

/// Builds the diagnostic for an error met at the cursor: it holds the token
/// at the cursor, which is consumed, and the token behind it, which is not.
pub fn parsing_error(error: ParseError, tokens: &mut TokenCursor) -> (diagnostic: Diagnostic)
    ensures
        diagnostic@ == diagnostic_of(error@, old(tokens)@),
        final(tokens)@ == skip_one(old(tokens)@),
{
    let failed_at = tokens.next();
    let next = match tokens.peek() {
        Some(token) => Some(token.clone()),
        None => None,
    };
    Diagnostic { error, failed_at, next }
}

/// Whether a statement can start with this token: with the keyword of a
/// binding, or with a token that starts the expression of an assignment.
pub open spec fn starts_statement(token: TokenView) -> bool {
    token is Let || starts_assignment(token)
}

/// Whether an assignment can start with this token.
pub open spec fn starts_assignment(token: TokenView) -> bool {
    token is Ident || token is Number || token is Minus
}

/// The statement at the head of `tokens`, which are not empty.
pub open spec fn statement_of(tokens: Seq<TokenView>) -> Outcome<StatementView> {
    if tokens[0] is Let {
        let_statement_of(tokens)
    } else if starts_assignment(tokens[0]) {
        assign_statement_of(tokens)
    } else {
        failure(ParseErrorView::IllegalStatement, tokens)
    }
}

/// The outcome for a program whose first statements are `statements` and
/// whose other statements gave `tail`.
pub open spec fn with_all(statements: Seq<StatementView>, tail: Outcome<Seq<StatementView>>) -> Outcome<
    Seq<StatementView>,
> {
    match tail.result {
        Ok(others) => Outcome { result: Ok(statements + others), rest: tail.rest },
        Err(diagnostic) => Outcome { result: Err(diagnostic), rest: tail.rest },
    }
}

/// The statements of a whole token stream.
///
/// Behind each statement one more token is consumed without a look at it:
/// the statement's terminator. The first statement that cannot be parsed
/// ends the program with its diagnostic.
///
/// Every statement consumes tokens, see [`lemmas`]; the test on the lengths
/// only serves to show that the definition is well founded.
pub open spec fn program_of(tokens: Seq<TokenView>) -> Outcome<Seq<StatementView>>
    decreases tokens.len(),
{
    if tokens.len() == 0 {
        Outcome { result: Ok(Seq::empty()), rest: tokens }
    } else {
        let head = statement_of(tokens);
        match head.result {
            Err(diagnostic) => Outcome { result: Err(diagnostic), rest: head.rest },
            Ok(statement) => {
                let behind = skip_one(head.rest);
                if behind.len() < tokens.len() {
                    with_all(seq![statement], program_of(behind))
                } else {
                    Outcome { result: Ok(seq![statement]), rest: behind }
                }
            },
        }
    }
}

/// What parsing with recovery yields: a statement for every attempt, the
/// illegal statement standing for an attempt that failed, and the
/// diagnostics of the failed attempts, both in the order of the program.
pub struct Recovery {
    pub statements: Seq<StatementView>,
    pub diagnostics: Seq<DiagnosticView>,
}

/// The recovery that starts with an attempt and goes on with `tail`.
pub open spec fn attempt_then(attempt: Result<StatementView, DiagnosticView>, tail: Recovery) -> Recovery {
    match attempt {
        Ok(statement) => Recovery {
            statements: seq![statement] + tail.statements,
            diagnostics: tail.diagnostics,
        },
        Err(diagnostic) => Recovery {
            statements: seq![StatementView::Illegal] + tail.statements,
            diagnostics: seq![diagnostic] + tail.diagnostics,
        },
    }
}

/// The tokens at which parsing goes on behind an attempt: behind the
/// terminator of a statement that was parsed, and behind the token at which
/// a failed attempt gave up.
pub open spec fn resumes_at(head: Outcome<StatementView>) -> Seq<TokenView> {
    match head.result {
        Ok(_) => skip_one(head.rest),
        Err(_) => head.rest,
    }
}

/// The statements and diagnostics of a whole token stream, parsed with
/// recovery: a statement that cannot be parsed is recorded with its
/// diagnostic, and parsing goes on behind the token at which it gave up.
///
/// Every attempt consumes tokens, see [`lemmas`]; the test on the lengths
/// only serves to show that the definition is well founded.
pub open spec fn recovery_of(tokens: Seq<TokenView>) -> Recovery
    decreases tokens.len(),
{
    if tokens.len() == 0 {
        Recovery { statements: Seq::empty(), diagnostics: Seq::empty() }
    } else {
        let head = statement_of(tokens);
        let tail = if resumes_at(head).len() < tokens.len() {
            recovery_of(resumes_at(head))
        } else {
            Recovery { statements: Seq::empty(), diagnostics: Seq::empty() }
        };
        attempt_then(head.result, tail)
    }
}

/// The models of a sequence of diagnostics, in order.
pub open spec fn diagnostic_views(diagnostics: Seq<Diagnostic>) -> Seq<DiagnosticView> {
    diagnostics.map_values(|diagnostic: Diagnostic| diagnostic@)
}

/// The statement parser over a token stream.
pub struct Parser {
    tokens: TokenCursor,
}

impl View for Parser {
    type V = Seq<TokenView>;

    /// The models of the tokens that are still to be parsed.
    closed spec fn view(&self) -> Seq<TokenView> {
        self.tokens@
    }
}

/// Parses the statement at the cursor, which stands before a token.
fn parse_statement(tokens: &mut TokenCursor) -> (result: Result<Statement, Diagnostic>)
    requires
        old(tokens)@.len() > 0,
    ensures
        complies(result, final(tokens)@, statement_of(old(tokens)@)),
        final(tokens)@.len() < old(tokens)@.len(),
{
    let keyword = match tokens.peek() {
        Some(Token::Let) => true,
        _ => false,
    };
    let operand = match tokens.peek() {
        Some(Token::Ident(_)) => true,
        Some(Token::Number(_)) => true,
        Some(Token::Minus) => true,
        _ => false,
    };
    if keyword {
        parse_let_statement(tokens)
    } else if operand {
        parse_assign_statement(tokens)
    } else {
        Err(parsing_error(ParseError::IllegalStatement, tokens))
    }
}

impl Parser {
    /// A parser at the start of `tokens`.
    pub fn new(tokens: Vec<Token>) -> (parser: Self)
        ensures
            parser@ == token_views(tokens@),
    {
        Parser { tokens: TokenCursor::new(tokens) }
    }

    /// Parses the whole token stream into its statements.
    ///
    /// A statement starts with `let`, or with an identifier, a number or a
    /// minus sign. At any other token, and at the first statement that does
    /// not fit the grammar, parsing stops with a diagnostic.
    pub fn run_parser(&mut self) -> (result: Result<Vec<Statement>, Diagnostic>)
        ensures
            final(self)@ == program_of(old(self)@).rest,
            match result {
                Ok(statements) => program_of(old(self)@).result == Ok::<
                    Seq<StatementView>,
                    DiagnosticView,
                >(statement_views(statements@)),
                Err(diagnostic) => program_of(old(self)@).result == Err::<
                    Seq<StatementView>,
                    DiagnosticView,
                >(diagnostic@),
            },
    {
        let mut statements: Vec<Statement> = Vec::new();
        loop
            invariant
                program_of(old(self)@) == with_all(
                    statement_views(statements@),
                    program_of(self@),
                ),
            decreases self@.len(),
        {
            let ghost parsed = statement_views(statements@);
            if self.tokens.is_empty() {
                proof {
                    assert(parsed + Seq::<StatementView>::empty() =~= parsed);
                }
                return Ok(statements);
            }
            match parse_statement(&mut self.tokens) {
                Ok(statement) => {
                    self.tokens.next();
                    statements.push(statement);
                    proof {
                        assert(statement_views(statements@) =~= parsed + seq![statement@]);
                        lemma_with_all_joins(parsed, seq![statement@], program_of(self@));
                    }
                },
                Err(diagnostic) => {
                    return Err(diagnostic);
                },
            }
        }
    }

    /// Parses the whole token stream with recovery: a statement that does
    /// not fit the grammar is recorded as illegal, together with its
    /// diagnostic, and parsing goes on behind the token at which it gave up.
    ///
    /// The first list holds a statement for every attempt, the second one a
    /// diagnostic for every illegal statement of the first, in their order.
    pub fn run_parser_with_recovery(&mut self) -> (result: (Vec<Statement>, Vec<Diagnostic>))
        ensures
            final(self)@.len() == 0,
            statement_views(result.0@) == recovery_of(old(self)@).statements,
            diagnostic_views(result.1@) == recovery_of(old(self)@).diagnostics,
    {
        let mut statements: Vec<Statement> = Vec::new();
        let mut diagnostics: Vec<Diagnostic> = Vec::new();
        while !self.tokens.is_empty()
            invariant
                recovery_of(old(self)@).statements == statement_views(statements@) + recovery_of(
                    self@,
                ).statements,
                recovery_of(old(self)@).diagnostics == diagnostic_views(diagnostics@)
                    + recovery_of(self@).diagnostics,
            decreases self@.len(),
        {
            let ghost parsed = statement_views(statements@);
            let ghost reported = diagnostic_views(diagnostics@);
            let ghost tail = recovery_of(self@);
            match parse_statement(&mut self.tokens) {
                Ok(statement) => {
                    self.tokens.next();
                    statements.push(statement);
                    proof {
                        let behind = recovery_of(self@);
                        assert(statement_views(statements@) =~= parsed + seq![statement@]);
                        assert(parsed + (seq![statement@] + behind.statements) =~= (parsed
                            + seq![statement@]) + behind.statements);
                    }
                },
                Err(diagnostic) => {
                    statements.push(Statement::Illegal);
                    diagnostics.push(diagnostic);
                    proof {
                        let behind = recovery_of(self@);
                        assert(statement_views(statements@) =~= parsed
                            + seq![StatementView::Illegal]);
                        assert(diagnostic_views(diagnostics@) =~= reported + seq![diagnostic@]);
                        assert(parsed + (seq![StatementView::Illegal] + behind.statements) =~= (
                        parsed + seq![StatementView::Illegal]) + behind.statements);
                        assert(reported + (seq![diagnostic@] + behind.diagnostics) =~= (reported
                            + seq![diagnostic@]) + behind.diagnostics);
                    }
                },
            }
        }
        proof {
            assert(statement_views(statements@) + Seq::<StatementView>::empty()
                =~= statement_views(statements@));
            assert(diagnostic_views(diagnostics@) + Seq::<DiagnosticView>::empty()
                =~= diagnostic_views(diagnostics@));
        }
        (statements, diagnostics)
    }
}

proof fn lemma_with_all_joins(
    first: Seq<StatementView>,
    second: Seq<StatementView>,
    tail: Outcome<Seq<StatementView>>,
)
    ensures
        with_all(first, with_all(second, tail)) == with_all(first + second, tail),
{
    if let Ok(others) = tail.result {
        assert(first + (second + others) =~= (first + second) + others);
    }
}

} // verus!
