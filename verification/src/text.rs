//! The text that a run writes: each printed value in decimal, on a line of
//! its own.

use vstd::prelude::*;
use crate::lexer::decimal_value;

verus! {

/// The character of a decimal digit.
pub open spec fn digit_char(digit: int) -> char
    recommends
        0 <= digit < 10,
{
    seq!['0', '1', '2', '3', '4', '5', '6', '7', '8', '9'][digit]
}

/// The decimal digits of a natural number, most significant first, without
/// leading zeros.
pub open spec fn digits_of(n: nat) -> Seq<char>
    decreases n,
{
    if n < 10 {
        seq![digit_char(n as int)]
    } else {
        digits_of(n / 10).push(digit_char((n % 10) as int))
    }
}

/// The decimal representation of an integer: a minus sign if it is
/// negative, then the digits of its magnitude.
pub open spec fn decimal_text(value: int) -> Seq<char> {
    if value < 0 {
        seq!['-'] + digits_of((-value) as nat)
    } else {
        digits_of(value as nat)
    }
}

/// The printed values as text: each in decimal, each followed by a line
/// feed.
pub open spec fn lines(values: Seq<i64>) -> Seq<char>
    decreases values.len(),
{
    if values.len() == 0 {
        Seq::empty()
    } else {
        lines(values.drop_last()) + decimal_text(values.last() as int) + seq!['\n']
    }
}

/// A sequence read from its end to its start.
pub open spec fn backwards(s: Seq<char>) -> Seq<char> {
    Seq::new(s.len(), |i: int| s[s.len() - 1 - i])
}

fn digit_to_char(digit: u64) -> (c: char)
    requires
        digit < 10,
    ensures
        c == digit_char(digit as int),
{
    if digit == 0 {
        '0'
    } else if digit == 1 {
        '1'
    } else if digit == 2 {
        '2'
    } else if digit == 3 {
        '3'
    } else if digit == 4 {
        '4'
    } else if digit == 5 {
        '5'
    } else if digit == 6 {
        '6'
    } else if digit == 7 {
        '7'
    } else if digit == 8 {
        '8'
    } else {
        '9'
    }
}

/// Appends the decimal representation of `value` to `text`.
pub fn write_decimal(value: i64, text: &mut String)
    ensures
        final(text)@ == old(text)@ + decimal_text(value as int),
{
    let ghost start = text@;
    let magnitude: u64 = if value < 0 {
        text.push('-');
        (-(value + 1)) as u64 + 1
    } else {
        value as u64
    };
    let ghost signed = text@;
    let mut reversed: Vec<char> = Vec::new();
    reversed.push(digit_to_char(magnitude % 10));
    let mut rest: u64 = magnitude / 10;
    assert(digits_of(magnitude as nat) == (if rest > 0 {
        digits_of(rest as nat)
    } else {
        Seq::empty()
    }) + backwards(reversed@));
    while rest > 0
        invariant
            reversed@.len() > 0,
            digits_of(magnitude as nat) == (if rest > 0 {
                digits_of(rest as nat)
            } else {
                Seq::empty()
            }) + backwards(reversed@),
        decreases rest,
    {
        let ghost before = reversed@;
        reversed.push(digit_to_char(rest % 10));
        assert(backwards(reversed@) == seq![digit_char((rest % 10) as int)] + backwards(before));
        assert(digits_of(rest as nat) + backwards(before) == (if rest / 10 > 0 {
            digits_of((rest / 10) as nat)
        } else {
            Seq::empty()
        }) + (seq![digit_char((rest % 10) as int)] + backwards(before)));
        rest = rest / 10;
    }
    assert(digits_of(magnitude as nat) == backwards(reversed@));
    let mut i: usize = reversed.len();
    assert(backwards(reversed@).take(0) == Seq::<char>::empty());
    while i > 0
        invariant
            i <= reversed.len(),
            text@ == signed + backwards(reversed@).take(reversed.len() - i),
        decreases i,
    {
        i = i - 1;
        text.push(reversed[i]);
        assert(backwards(reversed@).take(reversed.len() - i) == backwards(reversed@).take(
            reversed.len() - i - 1,
        ).push(reversed@[i as int]));
    }
    assert(backwards(reversed@).take(reversed.len() as int) == backwards(reversed@));
    assert(value < 0 ==> signed + digits_of(magnitude as nat) == start + (seq!['-'] + digits_of(
        magnitude as nat,
    )));
}

/// The decimal representation of a value.
pub fn decimal(value: i64) -> (text: String)
    ensures
        text@ == decimal_text(value as int),
{
    let mut text = String::new();
    write_decimal(value, &mut text);
    assert(Seq::<char>::empty() + decimal_text(value as int) == decimal_text(value as int));
    text
}

/// The text that printing `values` in order writes: one line for each.
pub fn render(values: &Vec<i64>) -> (text: String)
    ensures
        text@ == lines(values@),
{
    let mut text = String::new();
    let mut i: usize = 0;
    assert(values@.take(0).len() == 0);
    while i < values.len()
        invariant
            i <= values.len(),
            text@ == lines(values@.take(i as int)),
        decreases values.len() - i,
    {
        write_decimal(values[i], &mut text);
        text.push('\n');
        i = i + 1;
        assert(values@.take(i as int).drop_last() == values@.take(i as int - 1));
        assert(text@ == lines(values@.take(i as int - 1)) + decimal_text(values@[i as int - 1] as int) + seq!['\n']);
    }
    assert(values@.take(values.len() as int) == values@);
    text
}

/// Every digit character is a decimal digit of the lexer, with its value.
proof fn lemma_digit_char(digit: int)
    requires
        0 <= digit < 10,
    ensures
        digit_char(digit) as int - '0' as int == digit,
{
}

/// The digits that stand for a natural number denote it: the scanner reads
/// back every number that is written here.
pub proof fn law_digits_denote_number(n: nat)
    ensures
        decimal_value(digits_of(n)) == n,
    decreases n,
{
    reveal_with_fuel(decimal_value, 2);
    if n < 10 {
        lemma_digit_char(n as int);
        assert(digits_of(n).drop_last().len() == 0);
    } else {
        law_digits_denote_number(n / 10);
        lemma_digit_char((n % 10) as int);
        assert(digits_of(n).drop_last() == digits_of(n / 10));
    }
}

} // verus!
