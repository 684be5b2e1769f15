use methal::evaluator::{eval_expr, DeriveError, EvalError, UnaryOperator};
use methal::lexer::token::{Token, TokenKind};
use methal::lexer::tokenize;
use methal::parser::{
    parse_expression, Diagnostic, Operator, ParseError, Parser, Statement, TokenCursor,
};
use methal::{run, Binding, Report, RunError};

fn literal(text: &String) -> Option<f32> {
    text.parse::<f32>().ok()
}

fn binary(op: Operator, a: f32, b: f32) -> f32 {
    match op {
        Operator::Add => a + b,
        Operator::Sub => a - b,
        Operator::Mult => a * b,
        Operator::Div => a / b,
        Operator::Rem => a % b,
        Operator::Pow => a.powf(b),
    }
}

fn unary(op: UnaryOperator, a: f32) -> f32 {
    match op {
        UnaryOperator::Negate => -a,
        UnaryOperator::Abs => a.abs(),
    }
}

fn value_of(input: &str) -> f32 {
    let mut tokens = TokenCursor::new(tokenize(input.to_string()));
    let expr = parse_expression(&mut tokens).unwrap();
    assert!(tokens.is_empty());
    eval_expr(expr, &literal, &binary, &unary).unwrap()
}

fn report_of(input: &str) -> Report<f32> {
    run(input.to_string(), &literal, &binary, &unary)
}

fn binding(name: &str, value: f32) -> Binding<f32> {
    Binding {
        name: name.to_string(),
        value,
    }
}

#[test]
fn binary_operations_have_the_value_of_their_operator() {
    assert_eq!(value_of("7 + 2"), 9.0);
    assert_eq!(value_of("7 - 2"), 5.0);
    assert_eq!(value_of("7 * 2"), 14.0);
    assert_eq!(value_of("7 / 2"), 3.5);
    assert_eq!(value_of("7 % 2"), 1.0);
    assert_eq!(value_of("7 ^ 2"), 49.0);
}

#[test]
fn a_product_is_computed_before_a_sum() {
    assert_eq!(value_of("1 + 2 * 3"), 7.0);
    assert_eq!(value_of("2 * 3 + 1"), 7.0);
    assert_eq!(value_of("1 + 7 % 4"), 4.0);
}

#[test]
fn subtraction_associates_to_the_left() {
    assert_eq!(value_of("10 - 4 - 3"), 3.0);
    assert_eq!(value_of("16 / 4 / 2"), 2.0);
}

#[test]
fn exponents_associate_to_the_right() {
    assert_eq!(value_of("2 ^ 3 ^ 2"), 512.0);
    assert_eq!(value_of("2 * 3 ^ 2"), 18.0);
}

#[test]
fn parentheses_group() {
    assert_eq!(value_of("((1 + 2) * (3 + 4))"), 21.0);
    assert_eq!(value_of("10 - (4 - 3)"), 9.0);
    assert_eq!(value_of("(2 ^ 3) ^ 2"), 64.0);
}

#[test]
fn unary_minus_is_applied_first() {
    assert_eq!(value_of("-5 + 3"), -2.0);
    assert_eq!(value_of("-(1+2)"), -3.0);
    assert_eq!(value_of("-2 ^ 2"), 4.0);
    assert_eq!(value_of("--4"), 4.0);
    assert_eq!(value_of("3 - -4"), 7.0);
}

#[test]
fn a_run_computes_the_requested_values() {
    assert_eq!(
        report_of("let f -> x = 10"),
        Report {
            bindings: vec![binding("f", 10.0)],
            failure: None,
        }
    );
    assert_eq!(
        report_of("let f -> x = 1 + 2 * 3; let g -> y = (1 + 2) * 3"),
        Report {
            bindings: vec![binding("f", 7.0), binding("g", 9.0)],
            failure: None,
        }
    );
}

#[test]
fn a_run_over_nothing_computes_nothing() {
    assert_eq!(
        report_of(""),
        Report {
            bindings: vec![],
            failure: None,
        }
    );
    assert_eq!(
        report_of("  \n "),
        Report {
            bindings: vec![],
            failure: None,
        }
    );
}

#[test]
fn assignments_ask_for_no_value() {
    assert_eq!(
        report_of("f + g = 10 + h; let k -> f = 2 ^ 10"),
        Report {
            bindings: vec![binding("k", 1024.0)],
            failure: None,
        }
    );
}

#[test]
fn a_run_stops_at_a_program_that_does_not_parse() {
    assert_eq!(
        report_of("let f -> x = 10; + 3"),
        Report {
            bindings: vec![],
            failure: Some(RunError::Parse(Diagnostic {
                error: ParseError::IllegalStatement,
                failed_at: Some(Token::Plus),
                next: Some(Token::Number("3".into())),
            })),
        }
    );
    assert_eq!(
        report_of("let f x"),
        Report {
            bindings: vec![],
            failure: Some(RunError::Parse(Diagnostic {
                error: ParseError::ExpectedKind {
                    kind: TokenKind::Arrow,
                    found: Some(Token::Ident("x".into())),
                },
                failed_at: Some(Token::Ident("x".into())),
                next: None,
            })),
        }
    );
}

#[test]
fn a_run_stops_at_a_binding_without_a_value() {
    assert_eq!(
        report_of("let f -> 6 + 3 * y"),
        Report {
            bindings: vec![],
            failure: Some(RunError::MissingValue { name: "f".into() }),
        }
    );
    assert_eq!(
        report_of("let a -> x = 1; let b -> y; let c -> z = 3"),
        Report {
            bindings: vec![binding("a", 1.0)],
            failure: Some(RunError::MissingValue { name: "b".into() }),
        }
    );
}

#[test]
fn a_run_stops_at_an_expression_without_a_value() {
    assert_eq!(
        report_of("let a -> x = 2 * 4; let b -> y = 1 + z; let c -> z = 3"),
        Report {
            bindings: vec![binding("a", 8.0)],
            failure: Some(RunError::Evaluation {
                name: "b".into(),
                error: EvalError::Derivation(DeriveError::UnresolvedIdentifier("z".into())),
            }),
        }
    );
    assert_eq!(
        report_of("let a -> x = 1.2.3"),
        Report {
            bindings: vec![],
            failure: Some(RunError::Evaluation {
                name: "a".into(),
                error: EvalError::InvalidNumber("1.2.3".into()),
            }),
        }
    );
}

#[test]
fn a_number_and_a_name_side_by_side_are_two_operands() {
    // the definition ends behind `5`; `x` is taken for the terminator
    let statements = Parser::new(tokenize("let f -> 5x + 7y = 1".to_string())).run_parser();
    assert_eq!(
        statements,
        Err(Diagnostic {
            error: ParseError::IllegalStatement,
            failed_at: Some(Token::Plus),
            next: Some(Token::Number("7".into())),
        })
    );
    let statements = Parser::new(tokenize("let f -> 5x".to_string())).run_parser();
    assert_eq!(
        statements,
        Ok(vec![Statement::Let {
            name: "f".into(),
            expr: methal::parser::Expression::Number("5".into()),
            value: None,
        }])
    );
}

#[test]
fn nesting_and_long_chains_are_parsed_and_evaluated() {
    let depth = 200;
    let nested = format!("{}1{}", "(".repeat(depth), ")".repeat(depth));
    assert_eq!(value_of(&nested), 1.0);

    let negated = format!("{}1", "-".repeat(101));
    assert_eq!(value_of(&negated), -1.0);

    let chain = vec!["1"; 500].join(" + ");
    assert_eq!(value_of(&chain), 500.0);

    let tower = vec!["1"; 300].join(" ^ ");
    assert_eq!(value_of(&tower), 1.0);
}
