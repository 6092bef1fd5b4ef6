use keystone_lang::ast::{Expr, Operator, Statement};
use keystone_lang::error::ParseError;
use keystone_lang::lexer::Token;
use keystone_lang::parser::{parse, parse_tokens};

fn var(name: &str) -> Expr {
    Expr::Variable(name.to_string())
}

fn binary(left: Expr, op: Operator, right: Expr) -> Expr {
    Expr::BinaryOp(Box::new(left), op, Box::new(right))
}

#[test]
fn parses_each_statement_form() {
    assert_eq!(
        parse("x = 1"),
        Ok(vec![Statement::Assignment("x".to_string(), Expr::Number(1))])
    );
    assert_eq!(parse("print x"), Ok(vec![Statement::Print(var("x"))]));
    assert_eq!(
        parse("if x then print 1 end"),
        Ok(vec![Statement::If(
            var("x"),
            vec![Statement::Print(Expr::Number(1))]
        )])
    );
    assert_eq!(
        parse("loop 3 times print 1 end"),
        Ok(vec![Statement::Loop(
            3,
            vec![Statement::Print(Expr::Number(1))]
        )])
    );
}

#[test]
fn parses_each_operator() {
    assert_eq!(
        parse("print a + 1"),
        Ok(vec![Statement::Print(binary(
            var("a"),
            Operator::Add,
            Expr::Number(1)
        ))])
    );
    assert_eq!(
        parse("print 2 - b"),
        Ok(vec![Statement::Print(binary(
            Expr::Number(2),
            Operator::Sub,
            var("b")
        ))])
    );
    assert_eq!(
        parse("print a * b"),
        Ok(vec![Statement::Print(binary(
            var("a"),
            Operator::Mul,
            var("b")
        ))])
    );
    assert_eq!(
        parse("print 8 / 4"),
        Ok(vec![Statement::Print(binary(
            Expr::Number(8),
            Operator::Div,
            Expr::Number(4)
        ))])
    );
}

#[test]
fn statements_need_only_whitespace_between_them() {
    assert_eq!(
        parse("x=1+2 print x\nprint 3"),
        Ok(vec![
            Statement::Assignment(
                "x".to_string(),
                binary(Expr::Number(1), Operator::Add, Expr::Number(2))
            ),
            Statement::Print(var("x")),
            Statement::Print(Expr::Number(3)),
        ])
    );
}

#[test]
fn blocks_nest() {
    assert_eq!(
        parse("loop 2 times if a then b = 1 print b end print a end"),
        Ok(vec![Statement::Loop(
            2,
            vec![
                Statement::If(
                    var("a"),
                    vec![
                        Statement::Assignment("b".to_string(), Expr::Number(1)),
                        Statement::Print(var("b")),
                    ]
                ),
                Statement::Print(var("a")),
            ]
        )])
    );
}

#[test]
fn expression_takes_one_operator_only() {
    assert_eq!(parse("print 1 + 2 + 3"), Err(ParseError::Syntax));
    assert_eq!(parse("x = a * b - c"), Err(ParseError::Syntax));
    assert_eq!(parse("print 1 +"), Err(ParseError::Syntax));
    assert_eq!(parse("print - 1"), Err(ParseError::Syntax));
}

#[test]
fn reserved_words_are_variables_before_an_assignment_sign() {
    assert_eq!(
        parse("print = 5 print print"),
        Ok(vec![
            Statement::Assignment("print".to_string(), Expr::Number(5)),
            Statement::Print(var("print")),
        ])
    );
    assert_eq!(
        parse("if then then end = 1 end"),
        Ok(vec![Statement::If(
            var("then"),
            vec![Statement::Assignment("end".to_string(), Expr::Number(1))]
        )])
    );
}

#[test]
fn reserved_words_are_case_sensitive() {
    assert_eq!(parse("Print 1"), Err(ParseError::Syntax));
    assert_eq!(parse("IF 1 then print 1 end"), Err(ParseError::Syntax));
    assert_eq!(parse("if 1 THEN print 1 end"), Err(ParseError::Syntax));
}

#[test]
fn incomplete_statements_are_rejected() {
    assert_eq!(parse("print"), Err(ParseError::Syntax));
    assert_eq!(parse("x ="), Err(ParseError::Syntax));
    assert_eq!(parse("x"), Err(ParseError::Syntax));
    assert_eq!(parse("if 1 then print 1"), Err(ParseError::Syntax));
    assert_eq!(parse("if 1 print 1 end"), Err(ParseError::Syntax));
    assert_eq!(parse("loop 3 times print 1"), Err(ParseError::Syntax));
    assert_eq!(parse("loop x times print 1 end"), Err(ParseError::Syntax));
    assert_eq!(parse("loop 3 print 1 end"), Err(ParseError::Syntax));
    assert_eq!(parse("end"), Err(ParseError::Syntax));
}

#[test]
fn empty_blocks_are_rejected() {
    assert_eq!(parse("if 1 then end"), Err(ParseError::Syntax));
    assert_eq!(parse("loop 3 times end"), Err(ParseError::Syntax));
}

#[test]
fn text_after_the_last_statement_is_rejected() {
    assert_eq!(parse("print 1 print 2 garbage"), Err(ParseError::Syntax));
    assert_eq!(parse("print 1 2"), Err(ParseError::Syntax));
    assert_eq!(parse("print 1 = 2"), Err(ParseError::Syntax));
    assert_eq!(parse("if 1 then print 1 end end"), Err(ParseError::Syntax));
}

#[test]
fn lexical_faults_come_before_syntax() {
    assert_eq!(parse("print 1 print 2 garbage$$"), Err(ParseError::UnexpectedCharacter));
    assert_eq!(parse("garbage 99999999999999999999"), Err(ParseError::NumberTooLarge));
}

#[test]
fn token_sequences_parse_without_text() {
    let tokens = vec![
        Token::Word("loop".to_string()),
        Token::Number(2),
        Token::Word("times".to_string()),
        Token::Word("print".to_string()),
        Token::Word("x".to_string()),
        Token::Operator(Operator::Mul),
        Token::Number(-3),
        Token::Word("end".to_string()),
    ];
    assert_eq!(
        parse_tokens(&tokens),
        Ok(vec![Statement::Loop(
            2,
            vec![Statement::Print(binary(
                var("x"),
                Operator::Mul,
                Expr::Number(-3)
            ))]
        )])
    );
    assert_eq!(parse_tokens(&vec![]), Err(ParseError::Syntax));
    assert_eq!(
        parse_tokens(&vec![Token::Assign, Token::Number(1)]),
        Err(ParseError::Syntax)
    );
}
