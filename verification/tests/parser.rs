use methal::lexer::token::{Token, TokenKind};
use methal::lexer::tokenize;
use methal::parser::expr::{parse_expression, token_precedence, Expression, Precedence};
use methal::parser::statement::{parse_assign_statement, parse_let_statement};
use methal::parser::{
    expect_kind, get_operator, parsing_error, Diagnostic, Operator, ParseError, Parser, Statement,
    TokenCursor,
};

fn cursor(input: &str) -> TokenCursor {
    TokenCursor::new(tokenize(input.to_string()))
}

fn parse_expr(input: String) -> Expression {
    let tokens = tokenize(input);
    let mut iter = TokenCursor::new(tokens);
    parse_expression(&mut iter).unwrap()
}

fn parse_error(input: &str) -> ParseError {
    parse_expression(&mut cursor(input)).unwrap_err()
}

fn parse_program(input: &str) -> Result<Vec<Statement>, Diagnostic> {
    Parser::new(tokenize(input.to_string())).run_parser()
}

fn number(n: f32) -> Expression {
    Expression::Number(n.to_string())
}

fn ident(name: &str) -> Expression {
    Expression::Ident(name.into())
}

fn binary(lhs: Expression, op: Operator, rhs: Expression) -> Expression {
    Expression::Binary {
        lhs: Box::new(lhs),
        op,
        rhs: Box::new(rhs),
    }
}

fn negative(rhs: Expression) -> Expression {
    Expression::Unary {
        op: "-".into(),
        rhs: Box::new(rhs),
    }
}

#[test]
fn parses_number() {
    let expr = parse_expr("42".to_string());

    assert_eq!(expr, Expression::Number((42.0 as f32).to_string()));
    assert_eq!(expr, Expression::Number("42".to_string()));
}

#[test]
fn parses_simple_addition() {
    let expr = parse_expr("1 + 2".to_string());

    assert_eq!(
        expr,
        Expression::Binary {
            lhs: Box::new(number(1.0)),
            op: Operator::Add,
            rhs: Box::new(number(2.0)),
        }
    );
}

#[test]
fn respects_operator_precedence() {
    let expr = parse_expr("1 + 2 * 3".to_string());

    assert_eq!(
        expr,
        Expression::Binary {
            lhs: Box::new(number(1.0)),
            op: Operator::Add,
            rhs: Box::new(Expression::Binary {
                lhs: Box::new(number(2.0)),
                op: Operator::Mult,
                rhs: Box::new(number(3.0)),
            }),
        }
    );
}

#[test]
fn parses_unary_expression() {
    let expr = parse_expr("-5".to_string());

    assert_eq!(
        expr,
        Expression::Unary {
            op: "-".into(),
            rhs: Box::new(number(5.0)),
        }
    );
}

#[test]
fn parses_let_with_expression() {
    let input = String::from("let f -> 6 + 3 * y");
    let tokens = tokenize(input);

    let mut parser = Parser::new(tokens);
    let ast = parser.run_parser().unwrap();

    match &ast[0] {
        Statement::Let { name, expr, value } => {
            assert_eq!(name, "f");
            assert!(value.is_none());

            // spot-check structure
            match expr {
                Expression::Binary { op, .. } => assert_eq!(op, &Operator::Add),
                _ => panic!("expected binary expression"),
            }
        }
        _ => panic!("expected let statement"),
    }
}

#[test]
fn parses_let_with_assignment() {
    let input = String::from("let f -> x = 10");
    let tokens = tokenize(input);

    let mut parser = Parser::new(tokens);
    let ast = parser.run_parser().unwrap();

    match &ast[0] {
        Statement::Let { value, .. } => {
            assert!(value.is_some());
        }
        _ => panic!("expected let statement"),
    }
}

#[test]
fn parser_assign_statement() {
    let input = String::from("f+g = 10+h;");
    let tokens = tokenize(input);

    let mut parser = Parser::new(tokens);
    let ast = parser.run_parser().unwrap();

    match &ast[0] {
        Statement::Assign { expr, value } => {
            assert_eq!(
                *expr,
                Expression::Binary {
                    lhs: Box::new(Expression::Ident("f".into())),
                    op: Operator::Add,
                    rhs: Box::new(Expression::Ident("g".into()))
                }
            );

            assert_eq!(
                *value,
                Expression::Binary {
                    lhs: Box::new(number(10.0)),
                    op: Operator::Add,
                    rhs: Box::new(Expression::Ident("h".into()))
                }
            );
        }
        _ => panic!("expected let statement"),
    }
}

#[test]
fn parses_nested_parentheses() {
    let expr = parse_expr("((1 + 2) * (3 + 4))".to_string());

    assert_eq!(
        expr,
        Expression::Binary {
            lhs: Box::new(Expression::Binary {
                lhs: Box::new(number(1.0)),
                op: Operator::Add,
                rhs: Box::new(number(2.0)),
            }),
            op: Operator::Mult,
            rhs: Box::new(Expression::Binary {
                lhs: Box::new(number(3.0)),
                op: Operator::Add,
                rhs: Box::new(number(4.0)),
            }),
        }
    );
}

#[test]
fn unary_with_parentheses() {
    let expr = parse_expr("-(1 + 2)".to_string());

    assert_eq!(
        expr,
        Expression::Unary {
            op: "-".into(),
            rhs: Box::new(Expression::Binary {
                lhs: Box::new(number(1.0)),
                op: Operator::Add,
                rhs: Box::new(number(2.0)),
            }),
        }
    );
}

#[test]
fn every_binary_operator_parses_to_its_node() {
    let cases = [
        ("8 + 2", Operator::Add),
        ("8 - 2", Operator::Sub),
        ("8 * 2", Operator::Mult),
        ("8 / 2", Operator::Div),
        ("8 % 2", Operator::Rem),
        ("8 ^ 2", Operator::Pow),
    ];
    for (input, op) in cases {
        assert_eq!(
            parse_expr(input.to_string()),
            binary(number(8.0), op, number(2.0))
        );
    }
    assert_eq!(
        parse_expr("a % b".to_string()),
        binary(ident("a"), Operator::Rem, ident("b"))
    );
}

#[test]
fn operators_of_one_level_associate_to_the_left() {
    assert_eq!(
        parse_expr("10 - 4 - 3".to_string()),
        binary(
            binary(number(10.0), Operator::Sub, number(4.0)),
            Operator::Sub,
            number(3.0)
        )
    );
    assert_eq!(
        parse_expr("8 / 4 * 2".to_string()),
        binary(
            binary(number(8.0), Operator::Div, number(4.0)),
            Operator::Mult,
            number(2.0)
        )
    );
    assert_eq!(
        parse_expr("7 % 4 % 2".to_string()),
        binary(
            binary(number(7.0), Operator::Rem, number(4.0)),
            Operator::Rem,
            number(2.0)
        )
    );
}

#[test]
fn the_exponent_associates_to_the_right_and_binds_tighter_than_a_product() {
    assert_eq!(
        parse_expr("2 ^ 3 ^ 2".to_string()),
        binary(
            number(2.0),
            Operator::Pow,
            binary(number(3.0), Operator::Pow, number(2.0))
        )
    );
    assert_eq!(
        parse_expr("2 * 3 ^ 2".to_string()),
        binary(
            number(2.0),
            Operator::Mult,
            binary(number(3.0), Operator::Pow, number(2.0))
        )
    );
    assert_eq!(
        parse_expr("2 ^ 3 * 2".to_string()),
        binary(
            binary(number(2.0), Operator::Pow, number(3.0)),
            Operator::Mult,
            number(2.0)
        )
    );
    assert_eq!(
        parse_expr("1 + 6 % 4".to_string()),
        binary(
            number(1.0),
            Operator::Add,
            binary(number(6.0), Operator::Rem, number(4.0))
        )
    );
}

#[test]
fn unary_minus_binds_tighter_than_binary_operators() {
    assert_eq!(
        parse_expr("-5 + 3".to_string()),
        binary(negative(number(5.0)), Operator::Add, number(3.0))
    );
    assert_eq!(
        parse_expr("-5 * 3".to_string()),
        binary(negative(number(5.0)), Operator::Mult, number(3.0))
    );
    assert_eq!(
        parse_expr("-2 ^ 2".to_string()),
        binary(negative(number(2.0)), Operator::Pow, number(2.0))
    );
    assert_eq!(
        parse_expr("2 - -3".to_string()),
        binary(number(2.0), Operator::Sub, negative(number(3.0)))
    );
    assert_eq!(
        parse_expr("--x".to_string()),
        negative(negative(ident("x")))
    );
}

#[test]
fn an_expression_ends_at_a_token_that_is_no_operator() {
    let mut tokens = cursor("1 + 2 = 3");
    assert_eq!(
        parse_expression(&mut tokens),
        Ok(binary(number(1.0), Operator::Add, number(2.0)))
    );
    assert_eq!(tokens.peek(), Some(&Token::Assign));

    let mut tokens = cursor("x y");
    assert_eq!(parse_expression(&mut tokens), Ok(ident("x")));
    assert_eq!(tokens.peek(), Some(&Token::Ident("y".into())));

    let mut tokens = cursor("(1) 2");
    assert_eq!(parse_expression(&mut tokens), Ok(number(1.0)));
    assert_eq!(tokens.peek(), Some(&Token::Number("2".into())));
}

#[test]
fn an_expression_cannot_start_with_any_token() {
    assert_eq!(parse_error(""), ParseError::UnexpectedToken { found: None });
    assert_eq!(
        parse_error("* 3"),
        ParseError::UnexpectedToken {
            found: Some(Token::Mult)
        }
    );
    assert_eq!(
        parse_error("1 + )"),
        ParseError::UnexpectedToken {
            found: Some(Token::RParen)
        }
    );
    assert_eq!(parse_error("1 +"), ParseError::UnexpectedToken { found: None });
    assert_eq!(parse_error("-"), ParseError::UnexpectedToken { found: None });
    assert_eq!(
        parse_error("2 * let"),
        ParseError::UnexpectedToken {
            found: Some(Token::Let)
        }
    );
    assert_eq!(
        parse_error("#"),
        ParseError::UnexpectedToken {
            found: Some(Token::Illegal('#'))
        }
    );
}

#[test]
fn an_open_parenthesis_needs_its_closing_one() {
    assert_eq!(parse_error("(1 + 2"), ParseError::MissingRParen { found: None });
    assert_eq!(
        parse_error("(1 + 2 = 3"),
        ParseError::MissingRParen {
            found: Some(Token::Assign)
        }
    );
    assert_eq!(
        parse_error("((1)"),
        ParseError::MissingRParen { found: None }
    );

    let mut tokens = cursor("(1 ; 2");
    assert_eq!(
        parse_expression(&mut tokens),
        Err(ParseError::MissingRParen {
            found: Some(Token::Semicolon)
        })
    );
    assert_eq!(tokens.peek(), Some(&Token::Number("2".into())));
}

#[test]
fn precedences_of_tokens() {
    assert_eq!(token_precedence(&Token::Plus), Precedence::Sum);
    assert_eq!(token_precedence(&Token::Minus), Precedence::Sum);
    assert_eq!(token_precedence(&Token::Mult), Precedence::Product);
    assert_eq!(token_precedence(&Token::Div), Precedence::Product);
    assert_eq!(token_precedence(&Token::Mod), Precedence::Product);
    assert_eq!(token_precedence(&Token::Pow), Precedence::Exponent);
    assert_eq!(token_precedence(&Token::LParen), Precedence::Lowest);
    assert_eq!(token_precedence(&Token::RParen), Precedence::Lowest);
    assert_eq!(token_precedence(&Token::Assign), Precedence::Lowest);
    assert_eq!(token_precedence(&Token::Let), Precedence::Lowest);
    assert_eq!(
        token_precedence(&Token::Number("1".into())),
        Precedence::Lowest
    );
}

#[test]
fn precedences_are_ordered() {
    let order = [
        Precedence::Lowest,
        Precedence::Sum,
        Precedence::Product,
        Precedence::Exponent,
        Precedence::Prefix,
        Precedence::Parens,
    ];
    for (place, precedence) in order.iter().enumerate() {
        assert_eq!(precedence.rank() as usize, place);
    }
    for pair in order.windows(2) {
        assert!(pair[0] < pair[1]);
        assert!(pair[0].rank() < pair[1].rank());
    }
}

#[test]
fn operators_of_tokens() {
    assert_eq!(get_operator(&Token::Plus), Operator::Add);
    assert_eq!(get_operator(&Token::Minus), Operator::Sub);
    assert_eq!(get_operator(&Token::Mult), Operator::Mult);
    assert_eq!(get_operator(&Token::Div), Operator::Div);
    assert_eq!(get_operator(&Token::Mod), Operator::Rem);
    assert_eq!(get_operator(&Token::Pow), Operator::Pow);
}

#[test]
fn expect_kind_takes_a_token_of_the_kind() {
    let mut tokens = cursor("f -> 1");
    assert_eq!(
        expect_kind(TokenKind::Ident, &mut tokens),
        Ok(Token::Ident("f".into()))
    );
    assert_eq!(expect_kind(TokenKind::Arrow, &mut tokens), Ok(Token::Arrow));
    assert_eq!(
        expect_kind(TokenKind::Syntax, &mut tokens),
        Ok(Token::Number("1".into()))
    );
    assert!(tokens.is_empty());
}

#[test]
fn expect_kind_consumes_nothing_when_it_fails() {
    let mut tokens = cursor("= 1");
    assert_eq!(
        expect_kind(TokenKind::Arrow, &mut tokens),
        Err(ParseError::ExpectedKind {
            kind: TokenKind::Arrow,
            found: Some(Token::Assign)
        })
    );
    assert_eq!(tokens.peek(), Some(&Token::Assign));
    assert_eq!(expect_kind(TokenKind::Assign, &mut tokens), Ok(Token::Assign));

    let mut tokens = cursor("");
    assert_eq!(
        expect_kind(TokenKind::Semicolon, &mut tokens),
        Err(ParseError::ExpectedKind {
            kind: TokenKind::Semicolon,
            found: None
        })
    );
}

#[test]
fn parsing_error_names_the_next_two_tokens() {
    let mut tokens = cursor("+ 3 4");
    let diagnostic = parsing_error(ParseError::IllegalStatement, &mut tokens);
    assert_eq!(
        diagnostic,
        Diagnostic {
            error: ParseError::IllegalStatement,
            failed_at: Some(Token::Plus),
            next: Some(Token::Number("3".into())),
        }
    );
    assert_eq!(tokens.peek(), Some(&Token::Number("3".into())));

    let mut tokens = cursor(";");
    let diagnostic = parsing_error(ParseError::IllegalStatement, &mut tokens);
    assert_eq!(diagnostic.failed_at, Some(Token::Semicolon));
    assert_eq!(diagnostic.next, None);

    let mut tokens = cursor("");
    let diagnostic = parsing_error(ParseError::IllegalStatement, &mut tokens);
    assert_eq!(diagnostic.failed_at, None);
    assert_eq!(diagnostic.next, None);
}

#[test]
fn the_token_cursor_reads_in_order() {
    let mut tokens = cursor("a + 1");
    assert!(!tokens.is_empty());
    assert_eq!(tokens.peek(), Some(&Token::Ident("a".into())));
    assert_eq!(tokens.next(), Some(Token::Ident("a".into())));
    assert_eq!(tokens.next(), Some(Token::Plus));
    assert_eq!(tokens.peek(), Some(&Token::Number("1".into())));
    assert_eq!(tokens.next(), Some(Token::Number("1".into())));
    assert!(tokens.is_empty());
    assert_eq!(tokens.peek(), None);
    assert_eq!(tokens.next(), None);
}

#[test]
fn let_with_expression_has_a_nested_product_on_the_right() {
    let ast = parse_program("let f -> 6 + 3 * y").unwrap();
    assert_eq!(
        ast,
        vec![Statement::Let {
            name: "f".into(),
            expr: binary(
                number(6.0),
                Operator::Add,
                binary(number(3.0), Operator::Mult, ident("y"))
            ),
            value: None,
        }]
    );
}

#[test]
fn let_with_assignment_holds_the_value() {
    let ast = parse_program("let f -> x = 10").unwrap();
    assert_eq!(
        ast,
        vec![Statement::Let {
            name: "f".into(),
            expr: ident("x"),
            value: Some(number(10.0)),
        }]
    );
}

#[test]
fn an_empty_program_has_no_statements() {
    assert_eq!(parse_program(""), Ok(vec![]));
}

#[test]
fn statements_are_separated_by_one_token() {
    let ast = parse_program("a = 1; let b -> a = 2; -c = 3").unwrap();
    assert_eq!(
        ast,
        vec![
            Statement::Assign {
                expr: ident("a"),
                value: number(1.0),
            },
            Statement::Let {
                name: "b".into(),
                expr: ident("a"),
                value: Some(number(2.0)),
            },
            Statement::Assign {
                expr: negative(ident("c")),
                value: number(3.0),
            },
        ]
    );
}

#[test]
fn the_token_behind_a_statement_is_consumed_unseen() {
    // the second `let` is taken for the terminator of the first statement
    let diagnostic = parse_program("let a -> 1 let b -> 2").unwrap_err();
    assert_eq!(
        diagnostic,
        Diagnostic {
            error: ParseError::ExpectedKind {
                kind: TokenKind::Assign,
                found: Some(Token::Arrow),
            },
            failed_at: Some(Token::Arrow),
            next: Some(Token::Number("2".into())),
        }
    );
}

#[test]
fn malformed_statement_start_is_rejected() {
    for input in ["+ 3", "* 3 = 4", "/ 1", "% 1", "^ 2", "= 3", "( 1 ) = 2", ") = 1", "-> 1", "; a = 1", "#"] {
        let tokens = tokenize(input.to_string());
        let first = tokens[0].clone();
        let second = tokens.get(1).cloned();
        assert_eq!(
            parse_program(input),
            Err(Diagnostic {
                error: ParseError::IllegalStatement,
                failed_at: Some(first),
                next: second,
            }),
            "{}",
            input
        );
    }
}

#[test]
fn a_malformed_statement_behind_a_good_one_is_rejected() {
    let diagnostic = parse_program("a = 1; + 2").unwrap_err();
    assert_eq!(diagnostic.error, ParseError::IllegalStatement);
    assert_eq!(diagnostic.failed_at, Some(Token::Plus));
    assert_eq!(diagnostic.next, Some(Token::Number("2".into())));
}

#[test]
fn a_binding_needs_a_name_and_an_arrow() {
    assert_eq!(
        parse_program("let 5 -> 1"),
        Err(Diagnostic {
            error: ParseError::ExpectedKind {
                kind: TokenKind::Ident,
                found: Some(Token::Number("5".into())),
            },
            failed_at: Some(Token::Number("5".into())),
            next: Some(Token::Arrow),
        })
    );
    assert_eq!(
        parse_program("let f = 1"),
        Err(Diagnostic {
            error: ParseError::ExpectedKind {
                kind: TokenKind::Arrow,
                found: Some(Token::Assign),
            },
            failed_at: Some(Token::Assign),
            next: Some(Token::Number("1".into())),
        })
    );
    assert_eq!(
        parse_program("let f"),
        Err(Diagnostic {
            error: ParseError::ExpectedKind {
                kind: TokenKind::Arrow,
                found: None,
            },
            failed_at: None,
            next: None,
        })
    );
    assert_eq!(
        parse_program("let"),
        Err(Diagnostic {
            error: ParseError::ExpectedKind {
                kind: TokenKind::Ident,
                found: None,
            },
            failed_at: None,
            next: None,
        })
    );
}

#[test]
fn a_binding_needs_its_expressions() {
    assert_eq!(
        parse_program("let f -> * 2"),
        Err(Diagnostic {
            error: ParseError::UnexpectedToken {
                found: Some(Token::Mult),
            },
            failed_at: Some(Token::Number("2".into())),
            next: None,
        })
    );
    assert_eq!(
        parse_program("let f -> x = "),
        Err(Diagnostic {
            error: ParseError::UnexpectedToken { found: None },
            failed_at: None,
            next: None,
        })
    );
    assert_eq!(
        parse_program("let f -> (x = 1"),
        Err(Diagnostic {
            error: ParseError::MissingRParen {
                found: Some(Token::Assign),
            },
            failed_at: Some(Token::Number("1".into())),
            next: None,
        })
    );
}

#[test]
fn an_assignment_needs_its_sign_and_its_value() {
    assert_eq!(
        parse_program("x + 1"),
        Err(Diagnostic {
            error: ParseError::ExpectedKind {
                kind: TokenKind::Assign,
                found: None,
            },
            failed_at: None,
            next: None,
        })
    );
    assert_eq!(
        parse_program("x ; y"),
        Err(Diagnostic {
            error: ParseError::ExpectedKind {
                kind: TokenKind::Assign,
                found: Some(Token::Semicolon),
            },
            failed_at: Some(Token::Semicolon),
            next: Some(Token::Ident("y".into())),
        })
    );
    assert_eq!(
        parse_program("x = ;"),
        Err(Diagnostic {
            error: ParseError::UnexpectedToken {
                found: Some(Token::Semicolon),
            },
            failed_at: None,
            next: None,
        })
    );
}

#[test]
fn parse_let_statement_takes_the_first_token_for_the_keyword() {
    let mut tokens = cursor("let area -> w * h = 6; rest");
    assert_eq!(
        parse_let_statement(&mut tokens),
        Ok(Statement::Let {
            name: "area".into(),
            expr: binary(ident("w"), Operator::Mult, ident("h")),
            value: Some(number(6.0)),
        })
    );
    assert_eq!(tokens.peek(), Some(&Token::Semicolon));

    let mut tokens = cursor("; f -> 1");
    assert_eq!(
        parse_let_statement(&mut tokens),
        Ok(Statement::Let {
            name: "f".into(),
            expr: number(1.0),
            value: None,
        })
    );
}

#[test]
fn parse_assign_statement_stops_behind_the_value() {
    let mut tokens = cursor("f + g = 10 + h; k");
    assert_eq!(
        parse_assign_statement(&mut tokens),
        Ok(Statement::Assign {
            expr: binary(ident("f"), Operator::Add, ident("g")),
            value: binary(number(10.0), Operator::Add, ident("h")),
        })
    );
    assert_eq!(tokens.peek(), Some(&Token::Semicolon));
}

fn recover(input: &str) -> (Vec<Statement>, Vec<Diagnostic>) {
    Parser::new(tokenize(input.to_string())).run_parser_with_recovery()
}

#[test]
fn recovery_of_a_good_program_reports_nothing() {
    let input = "a = 1; let b -> a = 2; -c = 3";
    let (statements, diagnostics) = recover(input);
    assert_eq!(Ok(statements), parse_program(input));
    assert_eq!(diagnostics, vec![]);
    assert_eq!(recover(""), (vec![], vec![]));
}

#[test]
fn recovery_records_an_illegal_start_and_goes_on() {
    let (statements, diagnostics) = recover("+ a = 1; let b -> a = 2");
    assert_eq!(
        statements,
        vec![
            Statement::Illegal,
            Statement::Assign {
                expr: ident("a"),
                value: number(1.0),
            },
            Statement::Let {
                name: "b".into(),
                expr: ident("a"),
                value: Some(number(2.0)),
            },
        ]
    );
    assert_eq!(
        diagnostics,
        vec![Diagnostic {
            error: ParseError::IllegalStatement,
            failed_at: Some(Token::Plus),
            next: Some(Token::Ident("a".into())),
        }]
    );
}

#[test]
fn recovery_reports_the_diagnostic_that_stops_the_strict_parser_first() {
    for input in ["a = 1; + 2", "let f", "x ; y = 1", "let f -> (x = 1; let g -> y", "= = ="] {
        let (statements, diagnostics) = recover(input);
        let strict = parse_program(input).unwrap_err();
        assert_eq!(diagnostics[0], strict, "{}", input);
        let illegal = statements
            .iter()
            .filter(|statement| **statement == Statement::Illegal)
            .count();
        assert_eq!(illegal, diagnostics.len(), "{}", input);
    }
}

#[test]
fn recovery_gives_one_diagnostic_for_each_malformed_statement() {
    let (statements, diagnostics) = recover("= = =");
    assert_eq!(
        statements,
        vec![Statement::Illegal, Statement::Illegal, Statement::Illegal]
    );
    assert_eq!(
        diagnostics,
        vec![
            Diagnostic {
                error: ParseError::IllegalStatement,
                failed_at: Some(Token::Assign),
                next: Some(Token::Assign),
            },
            Diagnostic {
                error: ParseError::IllegalStatement,
                failed_at: Some(Token::Assign),
                next: Some(Token::Assign),
            },
            Diagnostic {
                error: ParseError::IllegalStatement,
                failed_at: Some(Token::Assign),
                next: None,
            },
        ]
    );

    // every failed attempt takes the token at which it gave up with it
    let (statements, diagnostics) = recover("let f -> ; a = 1");
    assert_eq!(
        statements,
        vec![Statement::Illegal, Statement::Illegal, Statement::Illegal]
    );
    assert_eq!(
        diagnostics,
        vec![
            Diagnostic {
                error: ParseError::UnexpectedToken {
                    found: Some(Token::Semicolon),
                },
                failed_at: Some(Token::Ident("a".into())),
                next: Some(Token::Assign),
            },
            Diagnostic {
                error: ParseError::IllegalStatement,
                failed_at: Some(Token::Assign),
                next: Some(Token::Number("1".into())),
            },
            Diagnostic {
                error: ParseError::ExpectedKind {
                    kind: TokenKind::Assign,
                    found: None,
                },
                failed_at: None,
                next: None,
            },
        ]
    );
}
