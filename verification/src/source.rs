//! Tokens and programs written out as source text, and the laws that tie
//! the scanner to that writing.

use vstd::prelude::*;
use crate::ast::{Operator, StatementModel};
use crate::error::ParseError;
use crate::grammar::{
    block_in_grammar, block_tokens, law_written_program_parses, lemma_spans_concat, spans,
};
use crate::lexer::{
    decimal_value, in_class, is_digit, is_letter, is_space, lemma_run_all_in_class,
    lemma_run_end_bounds, lexed, prepend, run_end, scan, symbol, TokenModel,
};
use crate::parser::parsed;
use crate::text::{digit_char, digits_of, law_digits_denote_number};

verus! {

/// The character that stands for an operator.
pub open spec fn operator_char(op: Operator) -> char {
    match op {
        Operator::Add => '+',
        Operator::Sub => '-',
        Operator::Mul => '*',
        Operator::Div => '/',
    }
}

/// A token that some text denotes: a word of one or more letters, a number
/// that is not negative, the assignment sign or an operator.
pub open spec fn token_in_alphabet(token: TokenModel) -> bool {
    match token {
        TokenModel::Word(text) => text.len() > 0 && forall|i: int|
            0 <= i < text.len() ==> is_letter(#[trigger] text[i]),
        TokenModel::Number(value) => value >= 0,
        _ => true,
    }
}

/// Every token of the sequence is one that some text denotes.
pub open spec fn tokens_in_alphabet(tokens: Seq<TokenModel>) -> bool {
    forall|i: int| 0 <= i < tokens.len() ==> token_in_alphabet(#[trigger] tokens[i])
}

/// A token written out.
pub open spec fn token_text(token: TokenModel) -> Seq<char> {
    match token {
        TokenModel::Word(text) => text,
        TokenModel::Number(value) => digits_of(value as nat),
        TokenModel::Assign => seq!['='],
        TokenModel::Operator(op) => seq![operator_char(op)],
    }
}

/// Tokens written out in order, a space after each.
pub open spec fn tokens_text(tokens: Seq<TokenModel>) -> Seq<char>
    decreases tokens.len(),
{
    if tokens.len() == 0 {
        Seq::empty()
    } else {
        token_text(tokens[0]) + seq![' '] + tokens_text(tokens.drop_first())
    }
}

/// A program written out as source text.
pub open spec fn program_text(program: Seq<StatementModel>) -> Seq<char> {
    tokens_text(block_tokens(program))
}

/// A run of characters of one class that is followed by a character of
/// another class, or by nothing, ends exactly there.
pub proof fn lemma_run_ends_at(text: Seq<char>, from: int, end: int, digits: bool)
    requires
        0 <= from <= end <= text.len(),
        forall|i: int| from <= i < end ==> in_class(#[trigger] text[i], digits),
        end == text.len() || !in_class(text[end], digits),
    ensures
        run_end(text, from, digits) == end,
    decreases end - from,
{
    if from < end {
        lemma_run_ends_at(text, from + 1, end, digits);
    }
}

/// The digits of a natural number are decimal digits, and there is at least
/// one.
pub proof fn lemma_digits_are_digits(n: nat)
    ensures
        digits_of(n).len() > 0,
        forall|i: int| 0 <= i < digits_of(n).len() ==> is_digit(#[trigger] digits_of(n)[i]),
    decreases n,
{
    if n >= 10 {
        lemma_digits_are_digits(n / 10);
    }
    let last = digit_char((n % 10) as int);
    assert(is_digit(last));
}

/// The scanner reads written tokens back: on the text of tokens that are in
/// the alphabet, from where that text starts to the end, it yields them.
pub proof fn lemma_scan_reads_written(text: Seq<char>, at: int, tokens: Seq<TokenModel>)
    requires
        tokens_in_alphabet(tokens),
        spans(text, at, tokens_text(tokens)),
        at + tokens_text(tokens).len() == text.len(),
    ensures
        scan(text, at) == Ok::<Seq<TokenModel>, ParseError>(tokens),
    decreases tokens.len(),
{
    if tokens.len() == 0 {
        assert(tokens == Seq::<TokenModel>::empty());
    } else {
        let first = tokens[0];
        let others = tokens.drop_first();
        let part = token_text(first);
        let end = at + part.len();
        assert(token_in_alphabet(first));
        assert forall|i: int| 0 <= i < others.len() implies token_in_alphabet(
            #[trigger] others[i],
        ) by {
            assert(others[i] == tokens[i + 1]);
        }
        lemma_spans_concat(text, at, part + seq![' '], tokens_text(others));
        lemma_spans_concat(text, at, part, seq![' ']);
        assert(text[end + 0] == seq![' '][0]);
        lemma_scan_reads_written(text, end + 1, others);
        assert(scan(text, end) == scan(text, end + 1));
        assert(seq![first] + others == tokens);
        match first {
            TokenModel::Word(word) => {
                assert(text[at + 0] == word[0]);
                assert forall|i: int| at + 1 <= i < end implies in_class(#[trigger] text[i], false) by {
                    assert(text[at + (i - at)] == word[i - at]);
                }
                lemma_run_ends_at(text, at + 1, end, false);
                assert(text.subrange(at, end) =~= word) by {
                    assert forall|i: int| 0 <= i < word.len() implies text.subrange(at, end)[i]
                        == word[i] by {
                        assert(text[at + i] == word[i]);
                    }
                }
            },
            TokenModel::Number(value) => {
                let digits = digits_of(value as nat);
                lemma_digits_are_digits(value as nat);
                law_digits_denote_number(value as nat);
                assert(text[at + 0] == digits[0]);
                assert forall|i: int| at + 1 <= i < end implies in_class(#[trigger] text[i], true) by {
                    assert(text[at + (i - at)] == digits[i - at]);
                }
                lemma_run_ends_at(text, at + 1, end, true);
                assert(text.subrange(at, end) =~= digits) by {
                    assert forall|i: int| 0 <= i < digits.len() implies text.subrange(at, end)[i]
                        == digits[i] by {
                        assert(text[at + i] == digits[i]);
                    }
                }
            },
            TokenModel::Assign => {
                assert(text[at + 0] == part[0]);
            },
            TokenModel::Operator(op) => {
                assert(text[at + 0] == part[0]);
            },
        }
    }
}

/// What the scanner yields from position `from` on is in the alphabet.
pub proof fn lemma_scanned_in_alphabet(text: Seq<char>, from: int)
    requires
        0 <= from,
        scan(text, from) is Ok,
    ensures
        tokens_in_alphabet(scan(text, from)->Ok_0),
    decreases text.len() - from,
{
    if from < text.len() {
        let c = text[from];
        if is_space(c) {
            lemma_scanned_in_alphabet(text, from + 1);
        } else if is_letter(c) || is_digit(c) {
            let end = run_end(text, from + 1, is_digit(c));
            lemma_run_end_bounds(text, from + 1, is_digit(c));
            lemma_run_all_in_class(text, from + 1, is_digit(c));
            lemma_scanned_in_alphabet(text, end);
            let first = if is_letter(c) {
                TokenModel::Word(text.subrange(from, end))
            } else {
                TokenModel::Number(decimal_value(text.subrange(from, end)) as i64)
            };
            let others = scan(text, end)->Ok_0;
            assert(scan(text, from)->Ok_0 == seq![first] + others);
            assert(token_in_alphabet(first));
            assert forall|i: int| 0 <= i < (seq![first] + others).len() implies token_in_alphabet(
                #[trigger] (seq![first] + others)[i],
            ) by {
                if i > 0 {
                    assert((seq![first] + others)[i] == others[i - 1]);
                }
            }
        } else {
            lemma_scanned_in_alphabet(text, from + 1);
            let first = symbol(c)->Some_0;
            let others = scan(text, from + 1)->Ok_0;
            assert(scan(text, from)->Ok_0 == seq![first] + others);
            assert forall|i: int| 0 <= i < (seq![first] + others).len() implies token_in_alphabet(
                #[trigger] (seq![first] + others)[i],
            ) by {
                if i > 0 {
                    assert((seq![first] + others)[i] == others[i - 1]);
                }
            }
        }
    }
}

/// The scanner yields only tokens of the alphabet: words of one or more
/// letters, and numbers that are not negative.
pub proof fn law_scanned_tokens_in_alphabet(text: Seq<char>)
    requires
        lexed(text) is Ok,
    ensures
        tokens_in_alphabet(lexed(text)->Ok_0),
{
    lemma_scanned_in_alphabet(text, 0);
}

/// The scanner reads back what is written: tokens of the alphabet, written
/// out, scan as themselves.
pub proof fn law_written_tokens_scan(tokens: Seq<TokenModel>)
    requires
        tokens_in_alphabet(tokens),
    ensures
        lexed(tokens_text(tokens)) == Ok::<Seq<TokenModel>, ParseError>(tokens),
{
    let text = tokens_text(tokens);
    assert(spans(text, 0, text));
    lemma_scan_reads_written(text, 0, tokens);
}

/// Every program of the grammar whose words and numbers are in the
/// alphabet has a source text, and that text parses as the program.
pub proof fn law_written_text_parses(program: Seq<StatementModel>)
    requires
        program.len() > 0,
        block_in_grammar(program),
        tokens_in_alphabet(block_tokens(program)),
    ensures
        parsed(program_text(program)) == Ok::<Seq<StatementModel>, ParseError>(program),
{
    law_written_tokens_scan(block_tokens(program));
    law_written_program_parses(program);
}

} // verus!
