//! A small expression and statement language: source text is cut into tokens,
//! the tokens are parsed into statements built from expressions, and an
//! expression is reduced to a single value.
//!
//! The library never computes with numbers itself. A number is carried as the
//! literal that was written, and the arithmetic is handed in by the caller, so
//! that every function here is stated and proved over plain data.

pub mod evaluator;
pub mod lexer;
pub mod parser;

use evaluator::operation::UnaryOperator;
use evaluator::lemmas::lemma_value_is_owed;
use evaluator::{
    always_callable, eval_expr, evaluable, reads_everything, yields, EvalError, EvalErrorView,
};
use lexer::{lex, tokenize};
use parser::error::{Diagnostic, DiagnosticView};
use parser::expr::ExprView;
use parser::operator::Operator;
use parser::statement::{statement_views, Statement, StatementView};
use parser::{program_of, Parser};
use vstd::prelude::*;

verus! {

/// A name together with the value that was computed for it.
#[derive(Debug, PartialEq)]
pub struct Binding<V> {
    pub name: String,
    pub value: V,
}

/// Why a run stopped before the end of the program.
#[derive(Debug, PartialEq, Eq)]
pub enum RunError {
    /// The program does not fit the grammar.
    Parse(Diagnostic),
    /// A binding asks for no value: nothing stands behind its definition.
    MissingValue { name: String },
    /// The expression of a binding has no value.
    Evaluation { name: String, error: EvalError },
}

/// The mathematical model of a [`RunError`].
pub enum RunErrorView {
    Parse(DiagnosticView),
    MissingValue { name: Seq<char> },
    Evaluation { name: Seq<char>, error: EvalErrorView },
}

impl View for RunError {
    type V = RunErrorView;

    open spec fn view(&self) -> RunErrorView {
        match self {
            RunError::Parse(diagnostic) => RunErrorView::Parse(diagnostic@),
            RunError::MissingValue { name } => RunErrorView::MissingValue { name: name@ },
            RunError::Evaluation { name, error } => RunErrorView::Evaluation {
                name: name@,
                error: error@,
            },
        }
    }
}

/// What a run has computed: the bindings in the order of the program, up to
/// the place where it stopped, and the reason why it stopped there, if it did
/// not reach the end.
#[derive(Debug, PartialEq)]
pub struct Report<V> {
    pub bindings: Vec<Binding<V>>,
    pub failure: Option<RunError>,
}

/// What a binding of the program asks for: the name, and the expression
/// whose value the name shall get, if one is given.
pub struct Request {
    pub name: Seq<char>,
    pub value: Option<ExprView>,
}

/// The requests of a program: one for each of its bindings, in their order.
/// Other statements ask for nothing.
pub open spec fn requests_of(statements: Seq<StatementView>) -> Seq<Request>
    decreases statements.len(),
{
    if statements.len() == 0 {
        Seq::empty()
    } else {
        let before = requests_of(statements.drop_last());
        match statements.last() {
            StatementView::Let { name, expr, value } => before.push(Request { name, value }),
            _ => before,
        }
    }
}

/// Whether a request asks for the value of an evaluable expression.
pub open spec fn asks_for_a_value(request: Request) -> bool {
    request.value matches Some(expr) && evaluable(expr)
}

/// Whether a binding answers a request: it has the name of the request and a
/// value of its expression.
pub open spec fn answers<V, L, B, U>(
    binding: Binding<V>,
    request: Request,
    literal: &L,
    binary: &B,
    unary: &U,
) -> bool where
    L: Fn(&String) -> Option<V>,
    B: Fn(Operator, V, V) -> V,
    U: Fn(UnaryOperator, V) -> V,
 {
    &&& binding.name@ == request.name
    &&& request.value matches Some(expr) && yields(
        expr,
        Ok::<V, EvalErrorView>(binding.value),
        literal,
        binary,
        unary,
    )
}

/// Whether an error is what a request fails with: it names the request, and
/// tells that no expression was given or how the evaluation of the
/// expression failed.
pub open spec fn refuses<V, L, B, U>(
    error: RunErrorView,
    request: Request,
    literal: &L,
    binary: &B,
    unary: &U,
) -> bool where
    L: Fn(&String) -> Option<V>,
    B: Fn(Operator, V, V) -> V,
    U: Fn(UnaryOperator, V) -> V,
 {
    match request.value {
        None => error == (RunErrorView::MissingValue { name: request.name }),
        Some(expr) => error matches RunErrorView::Evaluation { name, error: failure }
            && name == request.name && yields(
            expr,
            Err::<V, EvalErrorView>(failure),
            literal,
            binary,
            unary,
        ),
    }
}

/// Whether a report tells of a run over these requests: the bindings answer
/// the first requests one by one; either they answer all of them, or the
/// failure is what the next request fails with.
pub open spec fn reports<V, L, B, U>(
    report: Report<V>,
    requests: Seq<Request>,
    literal: &L,
    binary: &B,
    unary: &U,
) -> bool where
    L: Fn(&String) -> Option<V>,
    B: Fn(Operator, V, V) -> V,
    U: Fn(UnaryOperator, V) -> V,
 {
    &&& report.bindings@.len() <= requests.len()
    &&& forall|i: int|
        0 <= i < report.bindings@.len() ==> answers(
            #[trigger] report.bindings@[i],
            requests[i],
            literal,
            binary,
            unary,
        )
    &&& match report.failure {
        None => report.bindings@.len() == requests.len(),
        Some(error) => report.bindings@.len() < requests.len() && refuses(
            error@,
            requests[report.bindings@.len() as int],
            literal,
            binary,
            unary,
        ),
    }
}

/// The requests of the first statements of a program are the first requests
/// of the program.
proof fn lemma_requests_grow(statements: Seq<StatementView>, count: int)
    requires
        0 <= count <= statements.len(),
    ensures
        requests_of(statements.take(count)).len() <= requests_of(statements).len(),
        forall|i: int|
            0 <= i < requests_of(statements.take(count)).len() ==> requests_of(
                statements.take(count),
            )[i] == #[trigger] requests_of(statements)[i],
    decreases statements.len(),
{
    if count == statements.len() {
        assert(statements.take(count) =~= statements);
    } else {
        let shorter = statements.drop_last();
        lemma_requests_grow(shorter, count);
        assert(shorter.take(count) =~= statements.take(count));
    }
}

/// A run reaches the end of the program whenever every binding asks for the
/// value of an evaluable expression and `literal` reads every text; and only
/// if every binding asks for the value of an evaluable expression.
pub proof fn lemma_run_is_complete<V, L, B, U>(
    report: Report<V>,
    requests: Seq<Request>,
    literal: &L,
    binary: &B,
    unary: &U,
) where
    L: Fn(&String) -> Option<V>,
    B: Fn(Operator, V, V) -> V,
    U: Fn(UnaryOperator, V) -> V,

    requires
        reports(report, requests, literal, binary, unary),
    ensures
        reads_everything(literal) && (forall|i: int|
            0 <= i < requests.len() ==> asks_for_a_value(#[trigger] requests[i]))
            ==> report.failure is None,
        report.failure is None ==> forall|i: int|
            0 <= i < requests.len() ==> asks_for_a_value(#[trigger] requests[i]),
{
    let reached = report.bindings@.len() as int;
    if let Some(error) = report.failure {
        if let Some(expr) = requests[reached].value {
            let failure = error@->Evaluation_error;
            lemma_value_is_owed(expr, Err::<V, EvalErrorView>(failure), literal, binary, unary);
        }
    } else {
        assert forall|i: int| 0 <= i < requests.len() implies asks_for_a_value(
            #[trigger] requests[i],
        ) by {
            let binding = report.bindings@[i];
            assert(answers(binding, requests[i], literal, binary, unary));
            lemma_value_is_owed(
                requests[i].value->0,
                Ok::<V, EvalErrorView>(binding.value),
                literal,
                binary,
                unary,
            );
        }
    }
}

/// Runs a program text: cuts it into tokens, parses the statements, and
/// computes the value of each binding in turn. `literal` reads the number
/// literals, `binary` and `unary` compute.
///
/// A text that does not parse yields no binding and the parser's diagnostic.
/// Otherwise the bindings are computed in the order of the program, up to
/// the first binding that gives no expression to evaluate or whose
/// expression has no value.
pub fn run<V, L, B, U>(content: String, literal: &L, binary: &B, unary: &U) -> (report: Report<
    V,
>) where
    L: Fn(&String) -> Option<V>,
    B: Fn(Operator, V, V) -> V,
    U: Fn(UnaryOperator, V) -> V,

    requires
        always_callable(literal, binary, unary),
    ensures
        match program_of(lex(content@)).result {
            Err(diagnostic) => {
                &&& report.bindings@.len() == 0
                &&& report.failure matches Some(RunError::Parse(found)) && found@ == diagnostic
            },
            Ok(statements) => reports(report, requests_of(statements), literal, binary, unary),
        },
{
    let tokens = tokenize(content);
    let mut parser = Parser::new(tokens);
    let statements = match parser.run_parser() {
        Ok(statements) => statements,
        Err(diagnostic) => {
            return Report { bindings: Vec::new(), failure: Some(RunError::Parse(diagnostic)) };
        },
    };
    let ghost program = statement_views(statements@);
    let mut bindings: Vec<Binding<V>> = Vec::new();
    let ghost mut done: int = 0;
    assert(program.take(0) =~= Seq::<StatementView>::empty());
    for statement in it: statements
        invariant
            done == it.index(),
            0 <= done <= program.len(),
            program == statement_views(it.seq()),
            bindings@.len() == requests_of(program.take(done)).len(),
            forall|i: int|
                0 <= i < bindings@.len() ==> answers(
                    #[trigger] bindings@[i],
                    requests_of(program.take(done))[i],
                    literal,
                    binary,
                    unary,
                ),
            always_callable(literal, binary, unary),
            program_of(lex(content@)).result == Ok::<Seq<StatementView>, DiagnosticView>(program),
    {
        proof {
            assert(program.take(done + 1).drop_last() =~= program.take(done));
            assert(program.take(done + 1).last() == statement@);
            lemma_requests_grow(program, done);
            lemma_requests_grow(program, done + 1);
        }
        match statement {
            Statement::Let { name, expr: _, value } => {
                match value {
                    None => {
                        return Report { bindings, failure: Some(RunError::MissingValue { name }) };
                    },
                    Some(expr) => {
                        match eval_expr(expr, literal, binary, unary) {
                            Ok(value) => {
                                bindings.push(Binding { name, value });
                            },
                            Err(error) => {
                                return Report {
                                    bindings,
                                    failure: Some(RunError::Evaluation { name, error }),
                                };
                            },
                        }
                    },
                }
            },
            _ => {},
        }
        proof {
            done = done + 1;
        }
    }
    proof {
        assert(program.take(done) =~= program);
    }
    Report { bindings, failure: None }
}

} // verus!
