use methal::evaluator::{
    derive_operation, eval_expr, evaluate, DeriveError, EvalError, Operation, UnaryOperator,
};
use methal::parser::{Expression, Operator};

fn literal(text: &String) -> Option<f32> {
    text.parse::<f32>().ok()
}

fn binary(op: Operator, a: f32, b: f32) -> f32 {
    match op {
        Operator::Add => a + b,
        Operator::Sub => a - b,
        Operator::Mult => a * b,
        Operator::Div => a / b,
        Operator::Rem => a % b,
        Operator::Pow => a.powf(b),
    }
}

fn unary(op: UnaryOperator, a: f32) -> f32 {
    match op {
        UnaryOperator::Negate => -a,
        UnaryOperator::Abs => a.abs(),
    }
}

fn num(n: f32) -> Box<Expression> {
    Box::new(Expression::Number(n.to_string()))
}

fn ident(name: &str) -> Box<Expression> {
    Box::new(Expression::Ident(name.to_string()))
}

fn outcome(expr: Expression) -> Result<f32, EvalError> {
    eval_expr(expr, &literal, &binary, &unary)
}

fn value(expr: Expression) -> f32 {
    evaluate(derive_operation(expr).unwrap(), &literal, &binary, &unary).unwrap()
}

#[test]
fn test_addition() {
    let expr = Expression::Binary {
        op: Operator::Add,
        lhs: num(2.0),
        rhs: num(3.0),
    };
    assert_eq!(value(expr), 5.0);
}

#[test]
fn test_subtraction() {
    let expr = Expression::Binary {
        op: Operator::Sub,
        lhs: num(10.0),
        rhs: num(4.0),
    };
    assert_eq!(value(expr), 6.0);
}

#[test]
fn test_multiplication() {
    let expr = Expression::Binary {
        op: Operator::Mult,
        lhs: num(6.0),
        rhs: num(7.0),
    };
    assert_eq!(value(expr), 42.0);
}

#[test]
fn test_division() {
    let expr = Expression::Binary {
        op: Operator::Div,
        lhs: num(8.0),
        rhs: num(2.0),
    };
    assert_eq!(value(expr), 4.0);
}

#[test]
fn test_remainder() {
    let expr = Expression::Binary {
        op: Operator::Rem,
        lhs: num(10.0),
        rhs: num(3.0),
    };
    assert_eq!(value(expr), 1.0);
}

#[test]
fn test_power() {
    let expr = Expression::Binary {
        op: Operator::Pow,
        lhs: num(2.0),
        rhs: num(3.0),
    };
    assert_eq!(value(expr), 8.0);
}

#[test]
fn test_negative_number() {
    let expr = Expression::Unary {
        op: "-".into(),
        rhs: num(5.0),
    };
    assert_eq!(value(expr), -5.0);
}

#[test]
fn test_negative_expression() {
    let expr = Expression::Unary {
        op: "-".into(),
        rhs: Box::new(Expression::Binary {
            op: Operator::Add,
            lhs: num(2.0),
            rhs: num(3.0),
        }),
    };
    assert_eq!(value(expr), -5.0);
}

#[test]
fn test_absolute_value() {
    let expr = Expression::Unary {
        op: "modulus".into(),
        rhs: num(-7.0),
    };
    assert_eq!(value(expr), 7.0);
}

#[test]
fn absolute_value_is_also_written_abs() {
    let expr = Expression::Unary {
        op: "abs".into(),
        rhs: num(-7.0),
    };
    assert_eq!(value(expr), 7.0);
    let expr = Expression::Unary {
        op: "abs".into(),
        rhs: num(7.0),
    };
    assert_eq!(outcome(expr), Ok(7.0));
}

#[test]
fn a_number_evaluates_to_its_reading() {
    assert_eq!(outcome(*num(2.5)), Ok(2.5));
    assert_eq!(outcome(Expression::Number("007".into())), Ok(7.0));
    assert_eq!(outcome(Expression::Number("3.".into())), Ok(3.0));
}

#[test]
fn division_and_remainder_follow_the_arithmetic_that_is_handed_in() {
    assert_eq!(
        value(Expression::Binary {
            op: Operator::Div,
            lhs: num(1.0),
            rhs: num(0.0),
        }),
        f32::INFINITY
    );
    assert!(value(Expression::Binary {
        op: Operator::Div,
        lhs: num(0.0),
        rhs: num(0.0),
    })
    .is_nan());
    assert_eq!(
        value(Expression::Binary {
            op: Operator::Rem,
            lhs: num(-7.0),
            rhs: num(3.0),
        }),
        -1.0
    );
    assert_eq!(
        value(Expression::Binary {
            op: Operator::Pow,
            lhs: num(4.0),
            rhs: num(0.5),
        }),
        2.0
    );
    assert_eq!(
        value(Expression::Binary {
            op: Operator::Pow,
            lhs: num(2.0),
            rhs: num(-1.0),
        }),
        0.5
    );
    assert!(value(Expression::Binary {
        op: Operator::Pow,
        lhs: num(-8.0),
        rhs: num(0.5),
    })
    .is_nan());
}

#[test]
fn operands_are_evaluated_before_the_operator_is_applied() {
    // (10 - 4) - 3 and 10 - (4 - 3)
    let left = Expression::Binary {
        op: Operator::Sub,
        lhs: Box::new(Expression::Binary {
            op: Operator::Sub,
            lhs: num(10.0),
            rhs: num(4.0),
        }),
        rhs: num(3.0),
    };
    let right = Expression::Binary {
        op: Operator::Sub,
        lhs: num(10.0),
        rhs: Box::new(Expression::Binary {
            op: Operator::Sub,
            lhs: num(4.0),
            rhs: num(3.0),
        }),
    };
    assert_eq!(value(left), 3.0);
    assert_eq!(value(right), 9.0);
}

#[test]
fn the_arithmetic_is_the_callers() {
    let count = |text: &String| Some(text.len());
    let join = |op: Operator, a: usize, b: usize| match op {
        Operator::Add => a + b,
        _ => 0,
    };
    let keep = |_: UnaryOperator, a: usize| a;
    let expr = Expression::Binary {
        op: Operator::Add,
        lhs: Box::new(Expression::Number("123".into())),
        rhs: Box::new(Expression::Unary {
            op: "-".into(),
            rhs: Box::new(Expression::Number("45".into())),
        }),
    };
    assert_eq!(eval_expr(expr, &count, &join, &keep), Ok(5));
}

#[test]
fn derivation_maps_each_operator_to_its_operation() {
    let cases = [
        (Operator::Add, Operation::Add(num(1.0), ident("x"))),
        (Operator::Sub, Operation::Sub(num(1.0), ident("x"))),
        (Operator::Mult, Operation::Mult(num(1.0), ident("x"))),
        (Operator::Div, Operation::Div(num(1.0), ident("x"))),
        (Operator::Rem, Operation::Rem(num(1.0), ident("x"))),
        (Operator::Pow, Operation::Pow(num(1.0), ident("x"))),
    ];
    for (op, operation) in cases {
        let expr = Expression::Binary {
            lhs: num(1.0),
            op,
            rhs: ident("x"),
        };
        assert_eq!(derive_operation(expr), Ok(operation));
    }
    assert_eq!(
        derive_operation(Expression::Number("4".into())),
        Ok(Operation::Number("4".into()))
    );
    assert_eq!(
        derive_operation(Expression::Unary {
            op: "-".into(),
            rhs: ident("x"),
        }),
        Ok(Operation::Negative(ident("x")))
    );
    assert_eq!(
        derive_operation(Expression::Unary {
            op: "modulus".into(),
            rhs: ident("x"),
        }),
        Ok(Operation::Abs(ident("x")))
    );
    assert_eq!(
        derive_operation(Expression::Unary {
            op: "abs".into(),
            rhs: ident("x"),
        }),
        Ok(Operation::Abs(ident("x")))
    );
}

#[test]
fn derivation_leaves_the_operands_underived() {
    let inner = Expression::Binary {
        lhs: ident("a"),
        op: Operator::Mult,
        rhs: Box::new(Expression::Unary {
            op: "sqrt".into(),
            rhs: num(2.0),
        }),
    };
    let expr = Expression::Binary {
        lhs: Box::new(inner),
        op: Operator::Add,
        rhs: num(1.0),
    };
    let expected = Operation::Add(
        Box::new(Expression::Binary {
            lhs: ident("a"),
            op: Operator::Mult,
            rhs: Box::new(Expression::Unary {
                op: "sqrt".into(),
                rhs: num(2.0),
            }),
        }),
        num(1.0),
    );
    assert_eq!(derive_operation(expr), Ok(expected));
}

#[test]
fn an_identifier_stands_for_no_operation() {
    assert_eq!(
        derive_operation(*ident("y")),
        Err(DeriveError::UnresolvedIdentifier("y".into()))
    );
    assert_eq!(
        outcome(*ident("y")),
        Err(EvalError::Derivation(DeriveError::UnresolvedIdentifier(
            "y".into()
        )))
    );
}

#[test]
fn an_unknown_tag_stands_for_no_operation() {
    for tag in ["sqrt", "", "+", "--", "Abs", "abs ", "modulu"] {
        let expr = Expression::Unary {
            op: tag.into(),
            rhs: num(1.0),
        };
        assert_eq!(
            derive_operation(expr),
            Err(DeriveError::UnsupportedOperator(tag.into()))
        );
    }
    assert_eq!(
        outcome(Expression::Unary {
            op: "sqrt".into(),
            rhs: num(4.0),
        }),
        Err(EvalError::Derivation(DeriveError::UnsupportedOperator(
            "sqrt".into()
        )))
    );
}

#[test]
fn a_literal_that_cannot_be_read_has_no_value() {
    assert_eq!(
        outcome(Expression::Number("1.2.3".into())),
        Err(EvalError::InvalidNumber("1.2.3".into()))
    );
    assert_eq!(
        outcome(Expression::Binary {
            lhs: num(1.0),
            op: Operator::Add,
            rhs: Box::new(Expression::Number("..".into())),
        }),
        Err(EvalError::InvalidNumber("..".into()))
    );
}

#[test]
fn the_first_failure_is_reported() {
    // both operands are derived before either is evaluated
    let expr = Expression::Binary {
        lhs: Box::new(Expression::Number("1.2.3".into())),
        op: Operator::Add,
        rhs: ident("y"),
    };
    assert_eq!(
        outcome(expr),
        Err(EvalError::Derivation(DeriveError::UnresolvedIdentifier(
            "y".into()
        )))
    );
    // the left operand is derived before the right one
    let expr = Expression::Binary {
        lhs: ident("x"),
        op: Operator::Add,
        rhs: ident("y"),
    };
    assert_eq!(
        outcome(expr),
        Err(EvalError::Derivation(DeriveError::UnresolvedIdentifier(
            "x".into()
        )))
    );
    // the left operand is evaluated before the right one
    let expr = Expression::Binary {
        lhs: Box::new(Expression::Unary {
            op: "-".into(),
            rhs: Box::new(Expression::Number("1.2.3".into())),
        }),
        op: Operator::Add,
        rhs: Box::new(Expression::Unary {
            op: "-".into(),
            rhs: ident("y"),
        }),
    };
    assert_eq!(outcome(expr), Err(EvalError::InvalidNumber("1.2.3".into())));
    // a failure deep in the right operand
    let expr = Expression::Binary {
        lhs: num(1.0),
        op: Operator::Mult,
        rhs: Box::new(Expression::Binary {
            lhs: num(2.0),
            op: Operator::Add,
            rhs: Box::new(Expression::Unary {
                op: "abs".into(),
                rhs: ident("z"),
            }),
        }),
    };
    assert_eq!(
        outcome(expr),
        Err(EvalError::Derivation(DeriveError::UnresolvedIdentifier(
            "z".into()
        )))
    );
}

#[test]
fn deriving_again_changes_nothing() {
    let build = || Expression::Binary {
        lhs: Box::new(Expression::Unary {
            op: "-".into(),
            rhs: num(5.0),
        }),
        op: Operator::Add,
        rhs: num(3.0),
    };
    let first = derive_operation(build()).unwrap();
    let second = derive_operation(build()).unwrap();
    assert_eq!(first, second);
    match first {
        Operation::Add(lhs, rhs) => {
            assert_eq!(
                *lhs,
                Expression::Unary {
                    op: "-".into(),
                    rhs: num(5.0),
                }
            );
            assert_eq!(rhs, num(3.0));
            // the operands derive as they would have derived in the tree
            assert_eq!(derive_operation(*lhs), Ok(Operation::Negative(num(5.0))));
            assert_eq!(
                derive_operation(*rhs),
                Ok(Operation::Number((3.0 as f32).to_string()))
            );
        }
        other => panic!("expected an addition, got {:?}", other),
    }
    assert_eq!(value(build()), -2.0);
    assert_eq!(
        evaluate(second, &literal, &binary, &unary),
        Ok(-2.0)
    );
}
