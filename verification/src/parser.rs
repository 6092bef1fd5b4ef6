//! The grammar of the language, and the recursive-descent parser for it.
//!
//! ```text
//! program    := statement+
//! statement  := assignment | print | if | loop
//! assignment := word '=' expr
//! print      := "print" expr
//! if         := "if" expr "then" statement+ "end"
//! loop       := "loop" number "times" statement+ "end"
//! expr       := term (operator term)?
//! term       := number | word
//! ```
//!
//! The alternatives of a statement are tried in the order given and the
//! first that matches wins; a block takes as many statements as it can. The
//! grammar is written down below as specification functions over a token
//! sequence and a position, and the parser is proved to compute them.

use vstd::prelude::*;
use crate::ast::{block_model, Expr, ExprModel, Operator, Statement, StatementModel};
use crate::error::ParseError;
use crate::lexer::{lexed, tokenize, tokens_model, Token, TokenModel};

verus! {

pub open spec fn word_print() -> Seq<char> {
    seq!['p', 'r', 'i', 'n', 't']
}

pub open spec fn word_if() -> Seq<char> {
    seq!['i', 'f']
}

pub open spec fn word_then() -> Seq<char> {
    seq!['t', 'h', 'e', 'n']
}

pub open spec fn word_end() -> Seq<char> {
    seq!['e', 'n', 'd']
}

pub open spec fn word_loop() -> Seq<char> {
    seq!['l', 'o', 'o', 'p']
}

pub open spec fn word_times() -> Seq<char> {
    seq!['t', 'i', 'm', 'e', 's']
}

/// The token at position `at` is the word `word`.
pub open spec fn keyword_at(tokens: Seq<TokenModel>, at: int, word: Seq<char>) -> bool {
    0 <= at < tokens.len() && tokens[at] == TokenModel::Word(word)
}

/// `term := number | word`, one token long.
pub open spec fn term_at(tokens: Seq<TokenModel>, at: int) -> Option<ExprModel> {
    if 0 <= at < tokens.len() {
        match tokens[at] {
            TokenModel::Number(value) => Some(ExprModel::Number(value)),
            TokenModel::Word(name) => Some(ExprModel::Variable(name)),
            _ => None,
        }
    } else {
        None
    }
}

/// The operator at position `at`, if there is one.
pub open spec fn operator_at(tokens: Seq<TokenModel>, at: int) -> Option<Operator> {
    if 0 <= at < tokens.len() {
        match tokens[at] {
            TokenModel::Operator(op) => Some(op),
            _ => None,
        }
    } else {
        None
    }
}

/// `expr := term (operator term)?`: the expression that starts at `at` and
/// the position after it. At most one operator is taken.
pub open spec fn expr_at(tokens: Seq<TokenModel>, at: int) -> Option<(ExprModel, int)> {
    match term_at(tokens, at) {
        None => None,
        Some(left) => match (operator_at(tokens, at + 1), term_at(tokens, at + 2)) {
            (Some(op), Some(right)) => Some(
                (ExprModel::BinaryOp(Box::new(left), op, Box::new(right)), at + 3),
            ),
            _ => Some((left, at + 1)),
        },
    }
}

/// `assignment := word '=' expr`.
pub open spec fn assignment_at(tokens: Seq<TokenModel>, at: int) -> Option<(StatementModel, int)> {
    if 0 <= at && at + 1 < tokens.len() && tokens[at] is Word && tokens[at + 1] is Assign {
        match expr_at(tokens, at + 2) {
            Some((value, next)) => Some(
                (StatementModel::Assignment(tokens[at]->Word_0, value), next),
            ),
            None => None,
        }
    } else {
        None
    }
}

/// `print := "print" expr`.
pub open spec fn print_at(tokens: Seq<TokenModel>, at: int) -> Option<(StatementModel, int)> {
    if keyword_at(tokens, at, word_print()) {
        match expr_at(tokens, at + 1) {
            Some((value, next)) => Some((StatementModel::Print(value), next)),
            None => None,
        }
    } else {
        None
    }
}

/// `if := "if" expr "then" statement+ "end"`.
pub open spec fn if_at(tokens: Seq<TokenModel>, at: int) -> Option<(StatementModel, int)>
    decreases tokens.len() - at, 0int,
{
    if keyword_at(tokens, at, word_if()) {
        match expr_at(tokens, at + 1) {
            Some((condition, then)) => if keyword_at(tokens, then, word_then()) {
                let (body, end) = statements_at(tokens, then + 1);
                if body.len() > 0 && keyword_at(tokens, end, word_end()) {
                    Some((StatementModel::If(condition, body), end + 1))
                } else {
                    None
                }
            } else {
                None
            },
            None => None,
        }
    } else {
        None
    }
}

/// `loop := "loop" number "times" statement+ "end"`.
pub open spec fn loop_at(tokens: Seq<TokenModel>, at: int) -> Option<(StatementModel, int)>
    decreases tokens.len() - at, 0int,
{
    if keyword_at(tokens, at, word_loop()) && at + 1 < tokens.len() && tokens[at + 1] is Number
        && keyword_at(tokens, at + 2, word_times()) {
        let (body, end) = statements_at(tokens, at + 3);
        if body.len() > 0 && keyword_at(tokens, end, word_end()) {
            Some((StatementModel::Loop(tokens[at + 1]->Number_0, body), end + 1))
        } else {
            None
        }
    } else {
        None
    }
}

/// `statement := assignment | print | if | loop`, the first that matches.
pub open spec fn statement_at(tokens: Seq<TokenModel>, at: int) -> Option<(StatementModel, int)>
    decreases tokens.len() - at, 1int,
{
    if assignment_at(tokens, at) is Some {
        assignment_at(tokens, at)
    } else if print_at(tokens, at) is Some {
        print_at(tokens, at)
    } else if if_at(tokens, at) is Some {
        if_at(tokens, at)
    } else {
        loop_at(tokens, at)
    }
}

/// `statement*`, as many as match: the statements that start at `at`, and
/// the position after the last of them.
pub open spec fn statements_at(tokens: Seq<TokenModel>, at: int) -> (Seq<StatementModel>, int)
    decreases tokens.len() - at, 2int,
{
    if 0 <= at < tokens.len() {
        match statement_at(tokens, at) {
            Some((first, next)) => if at < next <= tokens.len() {
                let (others, end) = statements_at(tokens, next);
                (seq![first] + others, end)
            } else {
                (Seq::empty(), at)
            },
            None => (Seq::empty(), at),
        }
    } else {
        (Seq::empty(), at)
    }
}

/// `program := statement+`, with nothing left over.
pub open spec fn program_of(tokens: Seq<TokenModel>) -> Option<Seq<StatementModel>> {
    let (program, end) = statements_at(tokens, 0);
    if program.len() > 0 && end == tokens.len() {
        Some(program)
    } else {
        None
    }
}

/// The program that a source text denotes, or why it denotes none.
pub open spec fn parsed(text: Seq<char>) -> Result<Seq<StatementModel>, ParseError> {
    match lexed(text) {
        Err(e) => Err(e),
        Ok(tokens) => match program_of(tokens) {
            Some(program) => Ok(program),
            None => Err(ParseError::Syntax),
        },
    }
}

/// The model of what the parser returns.
pub open spec fn parsed_model(r: Result<Vec<Statement>, ParseError>) -> Result<
    Seq<StatementModel>,
    ParseError,
> {
    match r {
        Ok(program) => Ok(block_model(program@)),
        Err(e) => Err(e),
    }
}

/// The reserved words, spelled out once so that tokens can be compared with
/// them.
struct Keywords {
    print_word: String,
    if_word: String,
    then_word: String,
    end_word: String,
    loop_word: String,
    times_word: String,
}

impl Keywords {
    spec fn wf(&self) -> bool {
        &&& self.print_word@ == word_print()
        &&& self.if_word@ == word_if()
        &&& self.then_word@ == word_then()
        &&& self.end_word@ == word_end()
        &&& self.loop_word@ == word_loop()
        &&& self.times_word@ == word_times()
    }

    fn new() -> (words: Keywords)
        ensures
            words.wf(),
    {
        proof {
            reveal_strlit("print");
            reveal_strlit("if");
            reveal_strlit("then");
            reveal_strlit("end");
            reveal_strlit("loop");
            reveal_strlit("times");
        }
        let words = Keywords {
            print_word: "print".to_owned(),
            if_word: "if".to_owned(),
            then_word: "then".to_owned(),
            end_word: "end".to_owned(),
            loop_word: "loop".to_owned(),
            times_word: "times".to_owned(),
        };
        assert(words.print_word@ =~= word_print());
        assert(words.if_word@ =~= word_if());
        assert(words.then_word@ =~= word_then());
        assert(words.end_word@ =~= word_end());
        assert(words.loop_word@ =~= word_loop());
        assert(words.times_word@ =~= word_times());
        words
    }
}

/// Whether the token at `at` is the word `word`.
fn is_word_at(tokens: &Vec<Token>, at: usize, word: &String) -> (r: bool)
    ensures
        r == keyword_at(tokens_model(tokens@), at as int, word@),
{
    if at < tokens.len() {
        match &tokens[at] {
            Token::Word(text) => *text == *word,
            _ => false,
        }
    } else {
        false
    }
}

fn parse_term(tokens: &Vec<Token>, at: usize) -> (r: Option<Expr>)
    ensures
        match r {
            Some(term) => term_at(tokens_model(tokens@), at as int) == Some(term@),
            None => term_at(tokens_model(tokens@), at as int) is None,
        },
{
    if at < tokens.len() {
        match &tokens[at] {
            Token::Number(value) => Some(Expr::Number(*value)),
            Token::Word(name) => Some(Expr::Variable(name.clone())),
            _ => None,
        }
    } else {
        None
    }
}

fn parse_operator(tokens: &Vec<Token>, at: usize) -> (r: Option<Operator>)
    ensures
        r == operator_at(tokens_model(tokens@), at as int),
{
    if at < tokens.len() {
        match &tokens[at] {
            Token::Operator(op) => Some(*op),
            _ => None,
        }
    } else {
        None
    }
}

fn parse_expr(tokens: &Vec<Token>, at: usize) -> (r: Option<(Expr, usize)>)
    ensures
        match r {
            Some((expr, next)) => expr_at(tokens_model(tokens@), at as int) == Some(
                (expr@, next as int),
            ) && at < next <= tokens.len(),
            None => expr_at(tokens_model(tokens@), at as int) is None,
        },
{
    if at >= tokens.len() {
        return None;
    }
    match parse_term(tokens, at) {
        None => None,
        Some(left) => {
            if at + 1 < tokens.len() {
                match parse_operator(tokens, at + 1) {
                    Some(op) => match parse_term(tokens, at + 2) {
                        Some(right) => {
                            return Some((Expr::BinaryOp(Box::new(left), op, Box::new(right)), at + 3));
                        },
                        None => {},
                    },
                    None => {},
                }
            }
            Some((left, at + 1))
        },
    }
}

fn parse_statement(tokens: &Vec<Token>, at: usize, words: &Keywords) -> (r: Option<
    (Statement, usize),
>)
    requires
        words.wf(),
    ensures
        match r {
            Some((statement, next)) => statement_at(tokens_model(tokens@), at as int) == Some(
                (statement@, next as int),
            ) && at < next <= tokens.len(),
            None => statement_at(tokens_model(tokens@), at as int) is None,
        },
    decreases tokens.len() - at, 1int,
{
    if at >= tokens.len() {
        return None;
    }
    match &tokens[at] {
        Token::Word(name) => {
            if at + 1 < tokens.len() {
                match &tokens[at + 1] {
                    Token::Assign => match parse_expr(tokens, at + 2) {
                        Some((value, next)) => {
                            return Some((Statement::Assignment(name.clone(), value), next));
                        },
                        None => {},
                    },
                    _ => {},
                }
            }
            if *name == words.print_word {
                match parse_expr(tokens, at + 1) {
                    Some((value, next)) => {
                        return Some((Statement::Print(value), next));
                    },
                    None => {},
                }
            }
            if *name == words.if_word {
                match parse_expr(tokens, at + 1) {
                    Some((condition, then)) => {
                        if is_word_at(tokens, then, &words.then_word) {
                            let (body, end) = parse_statements(tokens, then + 1, words);
                            if body.len() > 0 && is_word_at(tokens, end, &words.end_word) {
                                return Some((Statement::If(condition, body), end + 1));
                            }
                        }
                    },
                    None => {},
                }
            }
            if *name == words.loop_word && at + 1 < tokens.len() {
                match &tokens[at + 1] {
                    Token::Number(count) => {
                        if is_word_at(tokens, at + 2, &words.times_word) {
                            let (body, end) = parse_statements(tokens, at + 3, words);
                            if body.len() > 0 && is_word_at(tokens, end, &words.end_word) {
                                return Some((Statement::Loop(*count, body), end + 1));
                            }
                        }
                    },
                    _ => {},
                }
            }
            None
        },
        _ => None,
    }
}

fn parse_statements(tokens: &Vec<Token>, at: usize, words: &Keywords) -> (r: (
    Vec<Statement>,
    usize,
))
    requires
        words.wf(),
        at <= tokens.len(),
    ensures
        statements_at(tokens_model(tokens@), at as int) == (block_model(r.0@), r.1 as int),
        at <= r.1 <= tokens.len(),
    decreases tokens.len() - at, 2int,
{
    let ghost model = tokens_model(tokens@);
    let mut block: Vec<Statement> = Vec::new();
    let mut pos: usize = at;
    assert(block_model(block@) + statements_at(model, at as int).0 == statements_at(
        model,
        at as int,
    ).0);
    while pos < tokens.len()
        invariant
            words.wf(),
            model == tokens_model(tokens@),
            at <= pos <= tokens.len(),
            statements_at(model, at as int) == (
                block_model(block@) + statements_at(model, pos as int).0,
                statements_at(model, pos as int).1,
            ),
        decreases tokens.len() - pos,
    {
        match parse_statement(tokens, pos, words) {
            None => {
                assert(block_model(block@) + Seq::<StatementModel>::empty() == block_model(
                    block@,
                ));
                return (block, pos);
            },
            Some((statement, next)) => {
                proof {
                    let others = statements_at(model, next as int).0;
                    crate::ast::lemma_block_model_push(block@, statement);
                    assert(block_model(block@) + (seq![statement@] + others) == block_model(
                        block@,
                    ).push(statement@) + others);
                }
                block.push(statement);
                pos = next;
            },
        }
    }
    assert(block_model(block@) + Seq::<StatementModel>::empty() == block_model(block@));
    (block, pos)
}

/// Parses a whole token sequence as a program.
///
/// Succeeds exactly when the tokens are one or more statements with nothing
/// left over, and then returns those statements.
pub fn parse_tokens(tokens: &Vec<Token>) -> (r: Result<Vec<Statement>, ParseError>)
    ensures
        parsed_model(r) == match program_of(tokens_model(tokens@)) {
            Some(program) => Ok::<Seq<StatementModel>, ParseError>(program),
            None => Err(ParseError::Syntax),
        },
{
    let words = Keywords::new();
    let (program, end) = parse_statements(tokens, 0, &words);
    if program.len() > 0 && end == tokens.len() {
        Ok(program)
    } else {
        Err(ParseError::Syntax)
    }
}

/// Parses a source text as a program.
///
/// Returns the program that the text denotes; a text with a lexical fault,
/// with an incomplete statement, without any statement, or with anything
/// after its last statement is rejected as a whole.
pub fn parse(source: &str) -> (r: Result<Vec<Statement>, ParseError>)
    ensures
        parsed_model(r) == parsed(source@),
{
    match tokenize(source) {
        Err(e) => Err(e),
        Ok(tokens) => parse_tokens(&tokens),
    }
}

} // verus!
