//! Tokens, and the scanner that splits source text into them.
//!
//! A token is a word (a maximal run of ASCII letters), a number (a maximal
//! run of ASCII digits), the assignment sign, or an arithmetic operator.
//! Spaces, tabs, line feeds and carriage returns separate tokens and mean
//! nothing else. A word and a number must not touch each other.

use vstd::prelude::*;
use crate::ast::Operator;
use crate::error::ParseError;

verus! {

/// A lexical unit of the source text.
#[derive(Debug, PartialEq, Eq)]
pub enum Token {
    Word(String),
    Number(i64),
    Assign,
    Operator(Operator),
}

/// A token as a mathematical value.
pub ghost enum TokenModel {
    Word(Seq<char>),
    Number(i64),
    Assign,
    Operator(Operator),
}

impl View for Token {
    type V = TokenModel;

    open spec fn view(&self) -> TokenModel {
        match self {
            Token::Word(text) => TokenModel::Word(text@),
            Token::Number(value) => TokenModel::Number(*value),
            Token::Assign => TokenModel::Assign,
            Token::Operator(op) => TokenModel::Operator(*op),
        }
    }
}

/// The models of a sequence of tokens, in order.
pub open spec fn tokens_model(tokens: Seq<Token>) -> Seq<TokenModel> {
    Seq::new(tokens.len(), |i: int| tokens[i]@)
}

/// The model of what `tokenize` returns.
pub open spec fn tokenized_model(r: Result<Vec<Token>, ParseError>) -> Result<
    Seq<TokenModel>,
    ParseError,
> {
    match r {
        Ok(tokens) => Ok(tokens_model(tokens@)),
        Err(e) => Err(e),
    }
}

pub open spec fn is_space(c: char) -> bool {
    c == ' ' || c == '\t' || c == '\n' || c == '\r'
}

pub open spec fn is_letter(c: char) -> bool {
    ('a' <= c && c <= 'z') || ('A' <= c && c <= 'Z')
}

pub open spec fn is_digit(c: char) -> bool {
    '0' <= c && c <= '9'
}

/// Membership in the class of digits (`digits` true) or of letters.
pub open spec fn in_class(c: char, digits: bool) -> bool {
    if digits {
        is_digit(c)
    } else {
        is_letter(c)
    }
}

/// The token that a single punctuation character stands for.
pub open spec fn symbol(c: char) -> Option<TokenModel> {
    if c == '=' {
        Some(TokenModel::Assign)
    } else if c == '+' {
        Some(TokenModel::Operator(Operator::Add))
    } else if c == '-' {
        Some(TokenModel::Operator(Operator::Sub))
    } else if c == '*' {
        Some(TokenModel::Operator(Operator::Mul))
    } else if c == '/' {
        Some(TokenModel::Operator(Operator::Div))
    } else {
        None
    }
}

/// The end of the maximal run of characters of one class that starts at
/// `from`: the first position at or after `from` whose character is not of
/// the class, or the length of the text.
pub open spec fn run_end(text: Seq<char>, from: int, digits: bool) -> int
    decreases text.len() - from,
{
    if 0 <= from < text.len() && in_class(text[from], digits) {
        run_end(text, from + 1, digits)
    } else {
        from
    }
}

/// The number that a sequence of decimal digits denotes.
pub open spec fn decimal_value(digits: Seq<char>) -> nat
    decreases digits.len(),
{
    if digits.len() == 0 {
        0
    } else {
        (decimal_value(digits.drop_last()) * 10 + (digits.last() as int - '0' as int)) as nat
    }
}

/// `tokens` followed by the tokens of `rest`, or the failure of `rest`.
pub open spec fn prepend(tokens: Seq<TokenModel>, rest: Result<Seq<TokenModel>, ParseError>)
    -> Result<Seq<TokenModel>, ParseError> {
    match rest {
        Ok(more) => Ok(tokens + more),
        Err(e) => Err(e),
    }
}

/// The tokens of `text` from position `from` on, or the leftmost lexical
/// fault in that part of the text.
pub open spec fn scan(text: Seq<char>, from: int) -> Result<Seq<TokenModel>, ParseError>
    decreases text.len() - from,
    via scan_decreases
{
    if from < 0 || from >= text.len() {
        Ok(Seq::empty())
    } else if is_space(text[from]) {
        scan(text, from + 1)
    } else if is_letter(text[from]) {
        let end = run_end(text, from + 1, false);
        if end < text.len() && is_digit(text[end]) {
            Err(ParseError::UnexpectedCharacter)
        } else {
            prepend(seq![TokenModel::Word(text.subrange(from, end))], scan(text, end))
        }
    } else if is_digit(text[from]) {
        let end = run_end(text, from + 1, true);
        let value = decimal_value(text.subrange(from, end));
        if value > i64::MAX {
            Err(ParseError::NumberTooLarge)
        } else if end < text.len() && is_letter(text[end]) {
            Err(ParseError::UnexpectedCharacter)
        } else {
            prepend(seq![TokenModel::Number(value as i64)], scan(text, end))
        }
    } else {
        match symbol(text[from]) {
            Some(token) => prepend(seq![token], scan(text, from + 1)),
            None => Err(ParseError::UnexpectedCharacter),
        }
    }
}

#[via_fn]
proof fn scan_decreases(text: Seq<char>, from: int) {
    if 0 <= from < text.len() {
        lemma_run_end_bounds(text, from + 1, false);
        lemma_run_end_bounds(text, from + 1, true);
    }
}

/// The tokens of a whole text.
pub open spec fn lexed(text: Seq<char>) -> Result<Seq<TokenModel>, ParseError> {
    scan(text, 0)
}

/// A run ends at or after its start and within the text.
pub proof fn lemma_run_end_bounds(text: Seq<char>, from: int, digits: bool)
    requires
        0 <= from <= text.len(),
    ensures
        from <= run_end(text, from, digits) <= text.len(),
    decreases text.len() - from,
{
    if from < text.len() && in_class(text[from], digits) {
        lemma_run_end_bounds(text, from + 1, digits);
    }
}

/// `String::push` of the standard library: the text afterwards is the text
/// before with the character appended.
pub assume_specification[ String::push ](s: &mut String, ch: char)
    ensures
        final(s)@ == old(s)@.push(ch),
;

fn char_is_space(c: char) -> (r: bool)
    ensures
        r == is_space(c),
{
    c == ' ' || c == '\t' || c == '\n' || c == '\r'
}

fn char_in_class(c: char, digits: bool) -> (r: bool)
    ensures
        r == in_class(c, digits),
{
    if digits {
        c >= '0' && c <= '9'
    } else {
        (c >= 'a' && c <= 'z') || (c >= 'A' && c <= 'Z')
    }
}

fn char_symbol(c: char) -> (r: Option<Token>)
    ensures
        match r {
            Some(token) => symbol(c) == Some(token@),
            None => symbol(c) is None,
        },
{
    if c == '=' {
        Some(Token::Assign)
    } else if c == '+' {
        Some(Token::Operator(Operator::Add))
    } else if c == '-' {
        Some(Token::Operator(Operator::Sub))
    } else if c == '*' {
        Some(Token::Operator(Operator::Mul))
    } else if c == '/' {
        Some(Token::Operator(Operator::Div))
    } else {
        None
    }
}

/// The characters of a text, in order.
fn characters(source: &str) -> (chars: Vec<char>)
    ensures
        chars@ == source@,
{
    let mut chars: Vec<char> = Vec::new();
    for c in it: source.chars()
        invariant
            it.seq() == source@,
            chars@ == it.seq().take(it.index()),
    {
        chars.push(c);
    }
    chars
}

/// The end of the run of one class that starts at `from`.
fn find_run_end(chars: &Vec<char>, from: usize, digits: bool) -> (end: usize)
    requires
        from <= chars.len(),
    ensures
        end == run_end(chars@, from as int, digits),
        from <= end <= chars.len(),
{
    let mut end: usize = from;
    while end < chars.len() && char_in_class(chars[end], digits)
        invariant
            from <= end <= chars.len(),
            run_end(chars@, end as int, digits) == run_end(chars@, from as int, digits),
        decreases chars.len() - end,
    {
        end = end + 1;
    }
    end
}

/// The characters from `from` up to `end`, as a string.
fn text_between(chars: &Vec<char>, from: usize, end: usize) -> (text: String)
    requires
        from <= end <= chars.len(),
    ensures
        text@ == chars@.subrange(from as int, end as int),
{
    let mut text = String::new();
    let mut i: usize = from;
    while i < end
        invariant
            from <= i <= end <= chars.len(),
            text@ == chars@.subrange(from as int, i as int),
        decreases end - i,
    {
        text.push(chars[i]);
        i = i + 1;
        assert(chars@.subrange(from as int, i as int) == chars@.subrange(
            from as int,
            i as int - 1,
        ).push(chars@[i as int - 1]));
    }
    text
}

/// The value of the digits from `from` up to `end`, where it fits.
fn number_between(chars: &Vec<char>, from: usize, end: usize) -> (value: Option<i64>)
    requires
        from <= end <= chars.len(),
        forall|i: int| from <= i < end ==> is_digit(#[trigger] chars@[i]),
    ensures
        match value {
            Some(v) => v == decimal_value(chars@.subrange(from as int, end as int)),
            None => decimal_value(chars@.subrange(from as int, end as int)) > i64::MAX,
        },
{
    let mut value: i64 = 0;
    let mut fits = true;
    let mut i: usize = from;
    assert(chars@.subrange(from as int, from as int).len() == 0);
    while i < end
        invariant
            from <= i <= end <= chars.len(),
            forall|i: int| from <= i < end ==> is_digit(#[trigger] chars@[i]),
            0 <= value,
            fits ==> value == decimal_value(chars@.subrange(from as int, i as int)),
            !fits ==> decimal_value(chars@.subrange(from as int, i as int)) > i64::MAX,
        decreases end - i,
    {
        let c = chars[i];
        let digit: i64 = (c as u32 - '0' as u32) as i64;
        proof {
            let longer = chars@.subrange(from as int, i as int + 1);
            assert(longer.drop_last() == chars@.subrange(from as int, i as int));
            assert(longer.last() == c);
        }
        if fits {
            match value.checked_mul(10) {
                Some(tens) => match tens.checked_add(digit) {
                    Some(sum) => {
                        value = sum;
                    },
                    None => {
                        fits = false;
                    },
                },
                None => {
                    fits = false;
                },
            }
        }
        i = i + 1;
    }
    if fits {
        Some(value)
    } else {
        None
    }
}

/// Splits a source text into its tokens.
///
/// Returns the tokens in the order of the text, or the leftmost lexical
/// fault: a character that belongs to no token, a word and a number that
/// touch, or a number that does not fit 64 bits.
pub fn tokenize(source: &str) -> (r: Result<Vec<Token>, ParseError>)
    ensures
        tokenized_model(r) == lexed(source@),
{
    let chars = characters(source);
    let mut tokens: Vec<Token> = Vec::new();
    let mut pos: usize = 0;
    assert(tokens_model(tokens@) + scan(chars@, 0)->Ok_0 == scan(chars@, 0)->Ok_0);
    while pos < chars.len()
        invariant
            pos <= chars.len(),
            chars@ == source@,
            prepend(tokens_model(tokens@), scan(chars@, pos as int)) == scan(chars@, 0),
        decreases chars.len() - pos,
    {
        let c = chars[pos];
        if char_is_space(c) {
            pos = pos + 1;
        } else if char_in_class(c, false) {
            let end = find_run_end(&chars, pos + 1, false);
            if end < chars.len() && char_in_class(chars[end], true) {
                return Err(ParseError::UnexpectedCharacter);
            }
            let word = Token::Word(text_between(&chars, pos, end));
            proof {
                lemma_tokens_push(tokens@, word, scan(chars@, end as int));
            }
            tokens.push(word);
            pos = end;
        } else if char_in_class(c, true) {
            let end = find_run_end(&chars, pos + 1, true);
            proof {
                lemma_run_all_in_class(chars@, pos as int + 1, true);
            }
            match number_between(&chars, pos, end) {
                None => {
                    return Err(ParseError::NumberTooLarge);
                },
                Some(value) => {
                    if end < chars.len() && char_in_class(chars[end], false) {
                        return Err(ParseError::UnexpectedCharacter);
                    }
                    let number = Token::Number(value);
                    proof {
                        lemma_tokens_push(tokens@, number, scan(chars@, end as int));
                    }
                    tokens.push(number);
                    pos = end;
                },
            }
        } else {
            match char_symbol(c) {
                None => {
                    return Err(ParseError::UnexpectedCharacter);
                },
                Some(token) => {
                    proof {
                        lemma_tokens_push(tokens@, token, scan(chars@, pos as int + 1));
                    }
                    tokens.push(token);
                    pos = pos + 1;
                },
            }
        }
    }
    assert(tokens_model(tokens@) + Seq::<TokenModel>::empty() == tokens_model(tokens@));
    Ok(tokens)
}

/// Every character of a run is of the run's class.
pub proof fn lemma_run_all_in_class(text: Seq<char>, from: int, digits: bool)
    requires
        0 <= from <= text.len(),
    ensures
        forall|i: int| from <= i < run_end(text, from, digits) ==> in_class(#[trigger] text[i], digits),
    decreases text.len() - from,
{
    if from < text.len() && in_class(text[from], digits) {
        lemma_run_all_in_class(text, from + 1, digits);
    }
}

/// Pushing a token onto the scanned tokens is prepending it to what follows.
proof fn lemma_tokens_push(tokens: Seq<Token>, token: Token, rest: Result<Seq<TokenModel>, ParseError>)
    ensures
        prepend(tokens_model(tokens.push(token)), rest) == prepend(
            tokens_model(tokens),
            prepend(seq![token@], rest),
        ),
{
    assert(tokens_model(tokens.push(token)) =~= tokens_model(tokens) + seq![token@]);
    if let Ok(more) = rest {
        assert((tokens_model(tokens) + seq![token@]) + more =~= tokens_model(tokens) + (seq![
            token@,
        ] + more));
    }
}

} // verus!
