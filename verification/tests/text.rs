use keystone_lang::lexer::{tokenize, Token};
use keystone_lang::run;
use keystone_lang::text::{decimal, render, write_decimal};

#[test]
fn decimal_of_small_values() {
    assert_eq!(decimal(0), "0");
    assert_eq!(decimal(7), "7");
    assert_eq!(decimal(10), "10");
    assert_eq!(decimal(1234567890), "1234567890");
    assert_eq!(decimal(-1), "-1");
    assert_eq!(decimal(-120), "-120");
}

#[test]
fn decimal_of_extreme_values() {
    assert_eq!(decimal(i64::MAX), "9223372036854775807");
    assert_eq!(decimal(i64::MIN), "-9223372036854775808");
}

#[test]
fn decimal_agrees_with_the_standard_library() {
    for value in [0i64, 9, 10, 99, 100, 101, -9, -10, -99, -100, 4611686018427387904, -4611686018427387905] {
        assert_eq!(decimal(value), value.to_string());
    }
}

#[test]
fn write_decimal_appends() {
    let mut text = String::from("x = ");
    write_decimal(-42, &mut text);
    write_decimal(0, &mut text);
    assert_eq!(text, "x = -420");
}

#[test]
fn render_writes_one_line_for_each_value() {
    assert_eq!(render(&vec![]), "");
    assert_eq!(render(&vec![3]), "3\n");
    assert_eq!(render(&vec![3, 1, 1, 1, 1]), "3\n1\n1\n1\n1\n");
    assert_eq!(render(&vec![-5, 0, 12]), "-5\n0\n12\n");
}

#[test]
fn rendered_run() {
    let mut output: Vec<i64> = Vec::new();
    assert_eq!(run("loop 3 times print 1 end", &mut output), Ok(()));
    assert_eq!(render(&output), "1\n1\n1\n");
}

#[test]
fn scanner_reads_back_what_is_written() {
    for value in [0i64, 5, 10, 907, i64::MAX] {
        assert_eq!(tokenize(&decimal(value)), Ok(vec![Token::Number(value)]));
    }
}
