use keystone_lang::ast::Operator;
use keystone_lang::error::ParseError;
use keystone_lang::lexer::{tokenize, Token};

fn word(text: &str) -> Token {
    Token::Word(text.to_string())
}

#[test]
fn tokens_come_in_text_order() {
    assert_eq!(
        tokenize("hoge = 12+x"),
        Ok(vec![
            word("hoge"),
            Token::Assign,
            Token::Number(12),
            Token::Operator(Operator::Add),
            word("x"),
        ])
    );
}

#[test]
fn words_keep_their_spelling() {
    assert_eq!(
        tokenize("print Print loopTimes"),
        Ok(vec![word("print"), word("Print"), word("loopTimes")])
    );
}

#[test]
fn every_operator_is_a_token() {
    assert_eq!(
        tokenize("+-*/="),
        Ok(vec![
            Token::Operator(Operator::Add),
            Token::Operator(Operator::Sub),
            Token::Operator(Operator::Mul),
            Token::Operator(Operator::Div),
            Token::Assign,
        ])
    );
}

#[test]
fn whitespace_only_separates() {
    assert_eq!(
        tokenize("  a\t=\r\n1\n"),
        Ok(vec![word("a"), Token::Assign, Token::Number(1)])
    );
    assert_eq!(tokenize(""), Ok(vec![]));
    assert_eq!(tokenize("   "), Ok(vec![]));
}

#[test]
fn numbers_are_read_in_decimal() {
    assert_eq!(tokenize("0"), Ok(vec![Token::Number(0)]));
    assert_eq!(tokenize("007"), Ok(vec![Token::Number(7)]));
    assert_eq!(tokenize("1234567890"), Ok(vec![Token::Number(1234567890)]));
    assert_eq!(
        tokenize("9223372036854775807"),
        Ok(vec![Token::Number(i64::MAX)])
    );
    assert_eq!(
        tokenize("00000000000000000000000000000000000042"),
        Ok(vec![Token::Number(42)])
    );
}

#[test]
fn number_beyond_sixty_four_bits_is_rejected() {
    assert_eq!(tokenize("9223372036854775808"), Err(ParseError::NumberTooLarge));
    assert_eq!(
        tokenize("x = 99999999999999999999999999"),
        Err(ParseError::NumberTooLarge)
    );
}

#[test]
fn word_and_number_must_not_touch() {
    assert_eq!(tokenize("print1"), Err(ParseError::UnexpectedCharacter));
    assert_eq!(tokenize("loop3times"), Err(ParseError::UnexpectedCharacter));
    assert_eq!(tokenize("1x"), Err(ParseError::UnexpectedCharacter));
    assert_eq!(tokenize("x1"), Err(ParseError::UnexpectedCharacter));
}

#[test]
fn characters_outside_the_alphabet_are_rejected() {
    assert_eq!(tokenize("a < b"), Err(ParseError::UnexpectedCharacter));
    assert_eq!(tokenize("garbage$$"), Err(ParseError::UnexpectedCharacter));
    assert_eq!(tokenize("(1)"), Err(ParseError::UnexpectedCharacter));
    assert_eq!(tokenize("caf\u{e9}"), Err(ParseError::UnexpectedCharacter));
    assert_eq!(tokenize("a_b"), Err(ParseError::UnexpectedCharacter));
    assert_eq!(tokenize("1.5"), Err(ParseError::UnexpectedCharacter));
}

#[test]
fn leftmost_fault_is_reported() {
    assert_eq!(
        tokenize("99999999999999999999 $"),
        Err(ParseError::NumberTooLarge)
    );
    assert_eq!(
        tokenize("$ 99999999999999999999"),
        Err(ParseError::UnexpectedCharacter)
    );
    assert_eq!(
        tokenize("99999999999999999999x"),
        Err(ParseError::NumberTooLarge)
    );
}
