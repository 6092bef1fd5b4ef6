//! The grammar as a relation between programs and token sequences.
//!
//! Every program that the grammar can express is written down as tokens in
//! exactly one way. The laws at the end of this file say that the parser
//! inverts that writing: it accepts precisely the token sequences that are
//! some program written down, and returns that program.

use vstd::prelude::*;
use crate::ast::{ExprModel, StatementModel};
use crate::lexer::TokenModel;
use crate::parser::{
    assignment_at, expr_at, if_at, keyword_at, loop_at, operator_at, print_at, program_of,
    statement_at, statements_at, term_at, word_end, word_if, word_loop, word_print, word_then,
    word_times,
};

verus! {

/// A term: a number or a variable.
pub open spec fn is_term(expr: ExprModel) -> bool {
    expr is Number || expr is Variable
}

/// An expression that the grammar can express: a term, or one operator
/// between two terms.
pub open spec fn expr_in_grammar(expr: ExprModel) -> bool {
    match expr {
        ExprModel::BinaryOp(left, _, right) => is_term(*left) && is_term(*right),
        _ => true,
    }
}

/// A statement that the grammar can express: its expressions are in the
/// grammar, and its blocks are not empty and hold such statements only.
pub open spec fn statement_in_grammar(statement: StatementModel) -> bool
    decreases statement,
{
    match statement {
        StatementModel::Assignment(_, value) => expr_in_grammar(value),
        StatementModel::Print(value) => expr_in_grammar(value),
        StatementModel::If(condition, body) => expr_in_grammar(condition) && body.len() > 0
            && block_in_grammar(body),
        StatementModel::Loop(_, body) => body.len() > 0 && block_in_grammar(body),
    }
}

/// Every statement of the block is in the grammar.
pub open spec fn block_in_grammar(block: Seq<StatementModel>) -> bool
    decreases block,
{
    block.len() == 0 || (statement_in_grammar(block[0]) && block_in_grammar(block.drop_first()))
}

/// The token of a term.
pub open spec fn term_token(term: ExprModel) -> TokenModel
    recommends
        is_term(term),
{
    match term {
        ExprModel::Number(value) => TokenModel::Number(value),
        ExprModel::Variable(name) => TokenModel::Word(name),
        _ => arbitrary(),
    }
}

/// An expression written down as tokens.
pub open spec fn expr_tokens(expr: ExprModel) -> Seq<TokenModel>
    recommends
        expr_in_grammar(expr),
{
    match expr {
        ExprModel::BinaryOp(left, op, right) => seq![
            term_token(*left),
            TokenModel::Operator(op),
            term_token(*right),
        ],
        _ => seq![term_token(expr)],
    }
}

/// A statement written down as tokens.
pub open spec fn statement_tokens(statement: StatementModel) -> Seq<TokenModel>
    decreases statement,
{
    match statement {
        StatementModel::Assignment(name, value) => seq![TokenModel::Word(name), TokenModel::Assign]
            + expr_tokens(value),
        StatementModel::Print(value) => seq![TokenModel::Word(word_print())] + expr_tokens(value),
        StatementModel::If(condition, body) => seq![TokenModel::Word(word_if())] + expr_tokens(
            condition,
        ) + seq![TokenModel::Word(word_then())] + block_tokens(body) + seq![
            TokenModel::Word(word_end()),
        ],
        StatementModel::Loop(count, body) => seq![
            TokenModel::Word(word_loop()),
            TokenModel::Number(count),
            TokenModel::Word(word_times()),
        ] + block_tokens(body) + seq![TokenModel::Word(word_end())],
    }
}

/// A block written down as tokens: its statements one after the other.
pub open spec fn block_tokens(block: Seq<StatementModel>) -> Seq<TokenModel>
    decreases block,
{
    if block.len() == 0 {
        Seq::empty()
    } else {
        statement_tokens(block[0]) + block_tokens(block.drop_first())
    }
}

/// The items of `tokens` from position `at` on begin with `part`.
pub open spec fn spans<T>(tokens: Seq<T>, at: int, part: Seq<T>) -> bool {
    &&& 0 <= at
    &&& at + part.len() <= tokens.len()
    &&& forall|i: int| 0 <= i < part.len() ==> tokens[at + i] == #[trigger] part[i]
}

/// Nothing that could continue an expression or turn a word into the target
/// of an assignment stands at `at`: the tokens end there, or a word stands
/// there.
pub open spec fn quiet_at(tokens: Seq<TokenModel>, at: int) -> bool {
    at >= tokens.len() || (at >= 0 && tokens[at] is Word)
}

/// A block can end at `at`: the tokens end there, or the word `end` stands
/// there and no assignment sign follows it.
pub open spec fn closes_at(tokens: Seq<TokenModel>, at: int) -> bool {
    at >= tokens.len() || (keyword_at(tokens, at, word_end()) && !(at + 1 < tokens.len()
        && tokens[at + 1] is Assign))
}

/// Items span two parts in a row exactly when they span the two together.
pub proof fn lemma_spans_concat<T>(tokens: Seq<T>, at: int, first: Seq<T>, second: Seq<T>)
    ensures
        spans(tokens, at, first + second) <==> spans(tokens, at, first) && spans(
            tokens,
            at + first.len(),
            second,
        ),
{
    let both = first + second;
    if spans(tokens, at, both) {
        assert forall|i: int| 0 <= i < first.len() implies tokens[at + i] == #[trigger] first[i] by {
            assert(both[i] == first[i]);
        }
        assert forall|i: int| 0 <= i < second.len() implies tokens[at + first.len() + i]
            == #[trigger] second[i] by {
            assert(both[first.len() + i] == second[i]);
        }
    }
    if spans(tokens, at, first) && spans(tokens, at + first.len(), second) {
        assert forall|i: int| 0 <= i < both.len() implies tokens[at + i] == #[trigger] both[i] by {
            if i < first.len() {
                assert(both[i] == first[i]);
            } else {
                assert(both[i] == second[i - first.len()]);
                assert(tokens[at + first.len() + (i - first.len())] == second[i - first.len()]);
            }
        }
    }
}

/// An expression of the grammar, written down, parses as itself, provided
/// that no operator follows it.
pub proof fn lemma_expr_parses(tokens: Seq<TokenModel>, at: int, expr: ExprModel)
    requires
        expr_in_grammar(expr),
        spans(tokens, at, expr_tokens(expr)),
        operator_at(tokens, at + expr_tokens(expr).len()) is None,
    ensures
        expr_at(tokens, at) == Some((expr, at + expr_tokens(expr).len())),
{
    let part = expr_tokens(expr);
    assert(tokens[at + 0] == part[0]);
    match expr {
        ExprModel::BinaryOp(left, op, right) => {
            assert(tokens[at + 1] == part[1]);
            assert(tokens[at + 2] == part[2]);
            assert(term_at(tokens, at) == Some(*left));
            assert(term_at(tokens, at + 2) == Some(*right));
        },
        _ => {
            assert(term_at(tokens, at) == Some(expr));
        },
    }
}

/// An expression that parses is in the grammar and spans its own tokens.
pub proof fn lemma_parsed_expr(tokens: Seq<TokenModel>, at: int)
    requires
        expr_at(tokens, at) is Some,
    ensures
        ({
            let (expr, next) = expr_at(tokens, at)->Some_0;
            &&& expr_in_grammar(expr)
            &&& spans(tokens, at, expr_tokens(expr))
            &&& next == at + expr_tokens(expr).len()
            &&& expr_tokens(expr).len() > 0
            &&& !(expr_tokens(expr)[0] is Assign)
        }),
{
}

/// The reserved words differ from one another.
pub proof fn lemma_reserved_words_differ()
    ensures
        word_print() != word_if(),
        word_print() != word_loop(),
        word_if() != word_loop(),
        word_end() != word_print(),
        word_end() != word_if(),
        word_end() != word_loop(),
{
    assert(word_print().len() == 5);
    assert(word_if().len() == 2);
    assert(word_loop().len() == 4);
    assert(word_end().len() == 3);
}

/// A statement written down begins with a word and is at least two tokens
/// long.
pub proof fn lemma_statement_tokens_start(statement: StatementModel)
    ensures
        statement_tokens(statement).len() >= 2,
        statement_tokens(statement)[0] is Word,
{
    match statement {
        StatementModel::Assignment(name, value) => {
            assert(statement_tokens(statement)[0] == seq![
                TokenModel::Word(name),
                TokenModel::Assign,
            ][0]);
        },
        StatementModel::Print(value) => {
            assert(statement_tokens(statement)[0] == seq![TokenModel::Word(word_print())][0]);
        },
        StatementModel::If(condition, body) => {
            assert(statement_tokens(statement)[0] == seq![TokenModel::Word(word_if())][0]);
        },
        StatementModel::Loop(count, body) => {
            assert(statement_tokens(statement)[0] == seq![
                TokenModel::Word(word_loop()),
                TokenModel::Number(count),
                TokenModel::Word(word_times()),
            ][0]);
        },
    }
}

/// No statement begins where a block can end.
pub proof fn lemma_no_statement_where_block_closes(tokens: Seq<TokenModel>, at: int)
    requires
        closes_at(tokens, at),
    ensures
        statement_at(tokens, at) is None,
{
    lemma_reserved_words_differ();
    assert(assignment_at(tokens, at) is None);
    assert(print_at(tokens, at) is None);
    assert(if_at(tokens, at) is None);
    assert(loop_at(tokens, at) is None);
}

/// A statement of the grammar, written down, parses as itself, provided
/// that the tokens end after it or a word follows.
pub proof fn lemma_statement_parses(tokens: Seq<TokenModel>, at: int, statement: StatementModel)
    requires
        statement_in_grammar(statement),
        spans(tokens, at, statement_tokens(statement)),
        quiet_at(tokens, at + statement_tokens(statement).len()),
    ensures
        statement_at(tokens, at) == Some((statement, at + statement_tokens(statement).len())),
    decreases statement,
{
    lemma_reserved_words_differ();
    let end = at + statement_tokens(statement).len();
    match statement {
        StatementModel::Assignment(name, value) => {
            let head = seq![TokenModel::Word(name), TokenModel::Assign];
            lemma_spans_concat(tokens, at, head, expr_tokens(value));
            assert(tokens[at + 0] == head[0]);
            assert(tokens[at + 1] == head[1]);
            lemma_expr_parses(tokens, at + 2, value);
            assert(assignment_at(tokens, at) == Some((statement, end)));
        },
        StatementModel::Print(value) => {
            let head = seq![TokenModel::Word(word_print())];
            lemma_spans_concat(tokens, at, head, expr_tokens(value));
            assert(tokens[at + 0] == head[0]);
            assert(tokens[at + 1 + 0] == expr_tokens(value)[0]);
            lemma_expr_parses(tokens, at + 1, value);
            assert(assignment_at(tokens, at) is None);
            assert(print_at(tokens, at) == Some((statement, end)));
        },
        StatementModel::If(condition, body) => {
            let head = seq![TokenModel::Word(word_if())];
            let cond = expr_tokens(condition);
            let then = seq![TokenModel::Word(word_then())];
            let inner = block_tokens(body);
            let tail = seq![TokenModel::Word(word_end())];
            lemma_spans_concat(tokens, at, head + cond + then + inner, tail);
            lemma_spans_concat(tokens, at, head + cond + then, inner);
            lemma_spans_concat(tokens, at, head + cond, then);
            lemma_spans_concat(tokens, at, head, cond);
            let then_at = at + 1 + cond.len();
            let end_at = then_at + 1 + inner.len();
            assert(tokens[at + 0] == head[0]);
            assert(tokens[at + 1 + 0] == cond[0]);
            assert(tokens[then_at + 0] == then[0]);
            assert(tokens[end_at + 0] == tail[0]);
            lemma_expr_parses(tokens, at + 1, condition);
            lemma_block_parses(tokens, then_at + 1, body);
            assert(assignment_at(tokens, at) is None);
            assert(print_at(tokens, at) is None);
            assert(if_at(tokens, at) == Some((statement, end)));
        },
        StatementModel::Loop(count, body) => {
            let head = seq![
                TokenModel::Word(word_loop()),
                TokenModel::Number(count),
                TokenModel::Word(word_times()),
            ];
            let inner = block_tokens(body);
            let tail = seq![TokenModel::Word(word_end())];
            lemma_spans_concat(tokens, at, head + inner, tail);
            lemma_spans_concat(tokens, at, head, inner);
            let end_at = at + 3 + inner.len();
            assert(tokens[at + 0] == head[0]);
            assert(tokens[at + 1] == head[1]);
            assert(tokens[at + 2] == head[2]);
            assert(tokens[end_at + 0] == tail[0]);
            lemma_block_parses(tokens, at + 3, body);
            assert(assignment_at(tokens, at) is None);
            assert(print_at(tokens, at) is None);
            assert(if_at(tokens, at) is None);
            assert(loop_at(tokens, at) == Some((statement, end)));
        },
    }
}

/// A block of the grammar, written down, parses as itself, provided that a
/// block can end after it.
pub proof fn lemma_block_parses(tokens: Seq<TokenModel>, at: int, block: Seq<StatementModel>)
    requires
        block_in_grammar(block),
        spans(tokens, at, block_tokens(block)),
        closes_at(tokens, at + block_tokens(block).len()),
    ensures
        statements_at(tokens, at) == (block, at + block_tokens(block).len()),
    decreases block,
{
    if block.len() == 0 {
        lemma_no_statement_where_block_closes(tokens, at);
        assert(block == Seq::<StatementModel>::empty());
    } else {
        let first = block[0];
        let others = block.drop_first();
        let next = at + statement_tokens(first).len();
        lemma_spans_concat(tokens, at, statement_tokens(first), block_tokens(others));
        lemma_statement_tokens_start(first);
        if others.len() > 0 {
            lemma_statement_tokens_start(others[0]);
            assert(block_tokens(others)[0] == statement_tokens(others[0])[0]);
            assert(tokens[next + 0] == block_tokens(others)[0]);
        }
        lemma_statement_parses(tokens, at, first);
        lemma_block_parses(tokens, next, others);
        assert(seq![first] + others == block);
    }
}

/// A statement that parses is in the grammar, spans its own tokens, and
/// ends after its start and within the tokens.
pub proof fn lemma_parsed_statement(tokens: Seq<TokenModel>, at: int)
    requires
        statement_at(tokens, at) is Some,
    ensures
        ({
            let (statement, next) = statement_at(tokens, at)->Some_0;
            &&& statement_in_grammar(statement)
            &&& spans(tokens, at, statement_tokens(statement))
            &&& next == at + statement_tokens(statement).len()
            &&& at < next <= tokens.len()
        }),
    decreases tokens.len() - at, 1int,
{
    let (statement, next) = statement_at(tokens, at)->Some_0;
    if assignment_at(tokens, at) is Some {
        let head = seq![tokens[at], TokenModel::Assign];
        let (value, _) = expr_at(tokens, at + 2)->Some_0;
        lemma_parsed_expr(tokens, at + 2);
        assert(spans(tokens, at, head));
        lemma_spans_concat(tokens, at, head, expr_tokens(value));
    } else if print_at(tokens, at) is Some {
        let head = seq![TokenModel::Word(word_print())];
        let (value, _) = expr_at(tokens, at + 1)->Some_0;
        lemma_parsed_expr(tokens, at + 1);
        assert(spans(tokens, at, head));
        lemma_spans_concat(tokens, at, head, expr_tokens(value));
    } else if if_at(tokens, at) is Some {
        let head = seq![TokenModel::Word(word_if())];
        let (condition, then_at) = expr_at(tokens, at + 1)->Some_0;
        let (body, end_at) = statements_at(tokens, then_at + 1);
        let cond = expr_tokens(condition);
        let then = seq![TokenModel::Word(word_then())];
        let inner = block_tokens(body);
        let tail = seq![TokenModel::Word(word_end())];
        lemma_parsed_expr(tokens, at + 1);
        lemma_parsed_statements(tokens, then_at + 1);
        assert(spans(tokens, at, head));
        assert(spans(tokens, then_at, then));
        assert(spans(tokens, end_at, tail));
        lemma_spans_concat(tokens, at, head, cond);
        lemma_spans_concat(tokens, at, head + cond, then);
        lemma_spans_concat(tokens, at, head + cond + then, inner);
        lemma_spans_concat(tokens, at, head + cond + then + inner, tail);
    } else {
        let head = seq![
            TokenModel::Word(word_loop()),
            tokens[at + 1],
            TokenModel::Word(word_times()),
        ];
        let (body, end_at) = statements_at(tokens, at + 3);
        let inner = block_tokens(body);
        let tail = seq![TokenModel::Word(word_end())];
        lemma_parsed_statements(tokens, at + 3);
        assert(spans(tokens, at, head));
        assert(spans(tokens, end_at, tail));
        lemma_spans_concat(tokens, at, head, inner);
        lemma_spans_concat(tokens, at, head + inner, tail);
    }
}

/// The statements that parse in a row are in the grammar and span their
/// own tokens.
pub proof fn lemma_parsed_statements(tokens: Seq<TokenModel>, at: int)
    requires
        0 <= at <= tokens.len(),
    ensures
        ({
            let (block, end) = statements_at(tokens, at);
            &&& block_in_grammar(block)
            &&& spans(tokens, at, block_tokens(block))
            &&& end == at + block_tokens(block).len()
            &&& end <= tokens.len()
        }),
    decreases tokens.len() - at, 2int,
{
    if at < tokens.len() && statement_at(tokens, at) is Some {
        let (first, next) = statement_at(tokens, at)->Some_0;
        lemma_parsed_statement(tokens, at);
        lemma_parsed_statements(tokens, next);
        let (others, end) = statements_at(tokens, next);
        let block = seq![first] + others;
        assert(block.drop_first() == others);
        assert(block[0] == first);
        lemma_spans_concat(tokens, at, statement_tokens(first), block_tokens(others));
    }
}

/// The parser accepts only what is some program of the grammar written
/// down, and returns that program: whatever it returns is in the grammar,
/// is not empty, and writes down as exactly the tokens that were parsed.
pub proof fn law_parsed_program_is_written(tokens: Seq<TokenModel>)
    requires
        program_of(tokens) is Some,
    ensures
        program_of(tokens)->Some_0.len() > 0,
        block_in_grammar(program_of(tokens)->Some_0),
        block_tokens(program_of(tokens)->Some_0) == tokens,
{
    lemma_parsed_statements(tokens, 0);
    let written = block_tokens(program_of(tokens)->Some_0);
    assert forall|i: int| 0 <= i < written.len() implies written[i] == tokens[i] by {
        assert(tokens[0 + i] == written[i]);
    }
    assert(written =~= tokens);
}

/// The parser accepts every program of the grammar written down, and
/// returns it unchanged: no two programs are written the same way.
pub proof fn law_written_program_parses(program: Seq<StatementModel>)
    requires
        program.len() > 0,
        block_in_grammar(program),
    ensures
        program_of(block_tokens(program)) == Some(program),
{
    let tokens = block_tokens(program);
    lemma_block_parses(tokens, 0, program);
}

} // verus!
