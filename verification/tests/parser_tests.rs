//! Parser behaviour: precedence, associativity, statement grammar,
//! errors.

use minicomp::ast::{BinaryOperator, Expression, Statement};
use minicomp::lexer::Lexer;
use minicomp::parser::{parse_program, Expected, ParseError};
use minicomp::tokens::Token;

fn parse(src: &str) -> Result<Vec<Statement>, ParseError> {
    let mut lexer = Lexer::new(src.to_string());
    let tokens = lexer.tokenise().unwrap();
    parse_program(&tokens)
}

#[test]
fn multiplication_binds_tighter_than_addition() {
    let stmts = parse("x = 2 + 3 * 4; print x;").unwrap();
    assert_eq!(stmts.len(), 2);
    match &stmts[0] {
        Statement::Assign { name, value } => {
            assert_eq!(name, "x");
            match value {
                Expression::BinaryOp { left, op, right } => {
                    assert!(matches!(**left, Expression::Integer(2)));
                    assert!(matches!(op, BinaryOperator::Add));
                    match &**right {
                        Expression::BinaryOp { left, op, right } => {
                            assert!(matches!(**left, Expression::Integer(3)));
                            assert!(matches!(op, BinaryOperator::Mul));
                            assert!(matches!(**right, Expression::Integer(4)));
                        }
                        other => panic!("expected product, got {:?}", other),
                    }
                }
                other => panic!("expected sum, got {:?}", other),
            }
        }
        other => panic!("expected assignment, got {:?}", other),
    }
    match &stmts[1] {
        Statement::Print(Expression::Variable(name)) => assert_eq!(name, "x"),
        other => panic!("expected print of variable, got {:?}", other),
    }
}

#[test]
fn comparisons_bind_loosest() {
    let stmts = parse("x = 1 + 2 == 3;").unwrap();
    match &stmts[0] {
        Statement::Assign { value, .. } => match value {
            Expression::BinaryOp { left, op, right } => {
                assert!(matches!(op, BinaryOperator::Eq));
                assert!(matches!(
                    &**left,
                    Expression::BinaryOp { op: BinaryOperator::Add, .. }
                ));
                assert!(matches!(**right, Expression::Integer(3)));
            }
            other => panic!("expected comparison, got {:?}", other),
        },
        other => panic!("expected assignment, got {:?}", other),
    }
}

#[test]
fn same_precedence_chains_lean_left() {
    let stmts = parse("x = 1 - 2 - 3;").unwrap();
    match &stmts[0] {
        Statement::Assign { value, .. } => match value {
            Expression::BinaryOp { left, op, right } => {
                assert!(matches!(op, BinaryOperator::Sub));
                assert!(matches!(**right, Expression::Integer(3)));
                assert!(matches!(
                    &**left,
                    Expression::BinaryOp { op: BinaryOperator::Sub, .. }
                ));
            }
            other => panic!("expected subtraction chain, got {:?}", other),
        },
        other => panic!("expected assignment, got {:?}", other),
    }
}

#[test]
fn conditional_with_else_parses() {
    let thn = format!("th{}", "en");
    let stmts = parse(&format!("if 1 < 2 {} print 1 else print 0 end", thn)).unwrap();
    assert_eq!(stmts.len(), 1);
    match &stmts[0] {
        Statement::If { condition, then_body, else_body } => {
            assert!(matches!(
                condition,
                Expression::BinaryOp { op: BinaryOperator::Lt, .. }
            ));
            assert_eq!(then_body.len(), 1);
            assert!(matches!(then_body[0], Statement::Print(Expression::Integer(1))));
            let els = else_body.as_ref().unwrap();
            assert_eq!(els.len(), 1);
            assert!(matches!(els[0], Statement::Print(Expression::Integer(0))));
        }
        other => panic!("expected conditional, got {:?}", other),
    }
}

#[test]
fn while_loop_parses() {
    let stmts = parse("while x < 3 do x = x + 1 end").unwrap();
    match &stmts[0] {
        Statement::While { condition, body } => {
            assert!(matches!(
                condition,
                Expression::BinaryOp { op: BinaryOperator::Lt, .. }
            ));
            assert_eq!(body.len(), 1);
            assert!(matches!(body[0], Statement::Assign { .. }));
        }
        other => panic!("expected loop, got {:?}", other),
    }
}

#[test]
fn function_with_parameters_parses() {
    let stmts = parse("run f(a, b) send a + b end").unwrap();
    match &stmts[0] {
        Statement::Function { name, params, body } => {
            assert_eq!(name, "f");
            assert_eq!(params.len(), 2);
            assert!(matches!(&params[0], Expression::FunctionArg(n) if n == "a"));
            assert!(matches!(&params[1], Expression::FunctionArg(n) if n == "b"));
            assert_eq!(body.len(), 1);
            assert!(matches!(body[0], Statement::Send(_)));
        }
        other => panic!("expected function, got {:?}", other),
    }
}

#[test]
fn function_without_identifier_gets_fallback_name() {
    let stmts = parse("run print 1 end").unwrap();
    match &stmts[0] {
        Statement::Function { name, params, body } => {
            assert_eq!(name, "Name");
            assert!(params.is_empty());
            assert_eq!(body.len(), 1);
        }
        other => panic!("expected function, got {:?}", other),
    }
}

#[test]
fn fetch_call_with_two_arguments_becomes_fetch_node() {
    let stmts = parse("x = @fetch(\"GET\", \"u\");").unwrap();
    match &stmts[0] {
        Statement::Assign { value, .. } => match value {
            Expression::Fetch { method, url, body } => {
                assert!(matches!(&**method, Expression::StringLiteral(s) if s == "GET"));
                assert!(matches!(&**url, Expression::StringLiteral(s) if s == "u"));
                assert!(body.is_none());
            }
            other => panic!("expected fetch, got {:?}", other),
        },
        other => panic!("expected assignment, got {:?}", other),
    }
}

#[test]
fn fetch_statement_with_three_arguments_keeps_its_body() {
    let stmts = parse("@fetch(\"POST\", \"u\", \"b\");").unwrap();
    match &stmts[0] {
        Statement::Fetch { body, .. } => {
            assert!(matches!(body.as_ref().unwrap(), Expression::StringLiteral(s) if s == "b"));
        }
        other => panic!("expected fetch statement, got {:?}", other),
    }
}

#[test]
fn fetch_with_one_argument_stays_a_plain_call() {
    let stmts = parse("x = @fetch(\"GET\");").unwrap();
    match &stmts[0] {
        Statement::Assign { value, .. } => {
            assert!(matches!(value, Expression::FunctionCall { .. }));
        }
        other => panic!("expected assignment, got {:?}", other),
    }
}

#[test]
fn call_statement_without_parentheses_has_no_arguments() {
    let stmts = parse("@go;").unwrap();
    match &stmts[0] {
        Statement::FunctionCall { name, args } => {
            assert_eq!(name, "go");
            assert!(args.is_empty());
        }
        other => panic!("expected call statement, got {:?}", other),
    }
}

#[test]
fn missing_assign_operator_is_reported() {
    let err = parse("x 1").unwrap_err();
    assert_eq!(
        err,
        ParseError { expected: Expected::Assign, found: Some(Token::Number(1)) }
    );
}

#[test]
fn missing_terminator_is_reported() {
    let err = parse("x = 1 y = 2").unwrap_err();
    assert_eq!(
        err,
        ParseError {
            expected: Expected::Terminator,
            found: Some(Token::Identifier("y".to_string())),
        }
    );
}

#[test]
fn statement_cannot_start_with_a_closing_parenthesis() {
    let err = parse(")").unwrap_err();
    assert_eq!(
        err,
        ParseError { expected: Expected::Statement, found: Some(Token::RParen) }
    );
}

#[test]
fn print_at_end_of_stream_wants_an_expression() {
    let err = parse("print").unwrap_err();
    assert_eq!(err, ParseError { expected: Expected::Expression, found: None });
}

#[test]
fn condition_must_be_followed_by_its_keyword() {
    let err = parse("if 1 print 2 end").unwrap_err();
    assert_eq!(
        err,
        ParseError { expected: Expected::Then, found: Some(Token::Print) }
    );
}

#[test]
fn loop_condition_must_be_followed_by_do() {
    let err = parse("while 1 print 2 end").unwrap_err();
    assert_eq!(
        err,
        ParseError { expected: Expected::Do, found: Some(Token::Print) }
    );
}

#[test]
fn argument_list_must_close() {
    let err = parse("x = @f(1").unwrap_err();
    assert_eq!(err, ParseError { expected: Expected::RParen, found: None });
}

#[test]
fn parameter_must_be_a_bare_identifier() {
    let err = parse("run f(1) end").unwrap_err();
    assert_eq!(
        err,
        ParseError { expected: Expected::Identifier, found: Some(Token::Number(1)) }
    );
}

#[test]
fn parameter_must_be_followed_by_comma_or_close() {
    let err = parse("run f(a b) end").unwrap_err();
    assert_eq!(
        err,
        ParseError {
            expected: Expected::CommaOrRParen,
            found: Some(Token::Identifier("b".to_string())),
        }
    );
}

#[test]
fn empty_token_stream_parses_to_no_statements() {
    let stmts = parse("   ").unwrap();
    assert!(stmts.is_empty());
}
