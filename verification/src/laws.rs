//! What holds of every program: the laws of evaluation and execution,
//! proved from the definitions that the evaluator's contracts use.

use vstd::prelude::*;
use crate::ast::{ExprModel, Operator, StatementModel};
use crate::error::{EvalError, RunError};
use crate::eval::{
    after_block, after_repeats, after_statement, apply, lookup, magnitude, truncated_quotient,
    value_of, wrap, Machine,
};
use crate::parser::parsed;
use crate::run_model;

verus! {

/// Running two blocks one after the other is running their concatenation:
/// the second block starts where the first ended, unless the first failed.
pub proof fn lemma_after_block_concat(
    first: Seq<StatementModel>,
    second: Seq<StatementModel>,
    machine: Machine,
)
    requires
        machine.failure is None,
    ensures
        after_block(first + second, machine) == if after_block(first, machine).failure is Some {
            after_block(first, machine)
        } else {
            after_block(second, after_block(first, machine))
        },
    decreases first.len(),
{
    if first.len() == 0 {
        assert(first + second == second);
    } else {
        let next = after_statement(first[0], machine);
        assert((first + second)[0] == first[0]);
        assert((first + second).drop_first() == first.drop_first() + second);
        if next.failure is None {
            lemma_after_block_concat(first.drop_first(), second, next);
        }
    }
}

/// Running a block of one statement is running the statement.
pub proof fn lemma_single_statement(statement: StatementModel, machine: Machine)
    ensures
        after_block(seq![statement], machine) == after_statement(statement, machine),
{
    reveal_with_fuel(after_block, 2);
    assert(seq![statement].drop_first().len() == 0);
}

/// Every statement of the block is a print, or an assignment to a variable
/// other than `name`.
pub open spec fn prints_and_assigns_others(block: Seq<StatementModel>, name: Seq<char>) -> bool {
    forall|i: int|
        0 <= i < block.len() ==> match #[trigger] block[i] {
            StatementModel::Assignment(target, _) => target != name,
            StatementModel::Print(_) => true,
            _ => false,
        }
}

/// A block of prints and of assignments to other variables leaves the value
/// of `name` as it was, whether or not the block fails.
pub proof fn lemma_other_assignments_keep_value(
    block: Seq<StatementModel>,
    name: Seq<char>,
    machine: Machine,
)
    requires
        prints_and_assigns_others(block, name),
    ensures
        lookup(after_block(block, machine).env, name) == lookup(machine.env, name),
    decreases block.len(),
{
    if block.len() > 0 {
        let next = after_statement(block[0], machine);
        assert(lookup(next.env, name) == lookup(machine.env, name));
        if next.failure is None {
            let rest = block.drop_first();
            assert forall|i: int| 0 <= i < rest.len() implies match #[trigger] rest[i] {
                StatementModel::Assignment(target, _) => target != name,
                StatementModel::Print(_) => true,
                _ => false,
            } by {
                assert(rest[i] == block[i + 1]);
            }
            lemma_other_assignments_keep_value(rest, name, next);
        }
    }
}

/// In a program of assignments and prints, `print x` after `x = N` prints
/// `N`: whatever ran before, and whatever prints and assignments to other
/// variables stand between the two, the print appends `N` to the output if
/// the run gets that far, and nothing else changes.
pub proof fn law_print_after_assignment(
    machine: Machine,
    name: Seq<char>,
    value: i64,
    between: Seq<StatementModel>,
)
    requires
        machine.failure is None,
        prints_and_assigns_others(between, name),
    ensures
        ({
            let assignment = StatementModel::Assignment(name, ExprModel::Number(value));
            let print = StatementModel::Print(ExprModel::Variable(name));
            let before = after_block(seq![assignment] + between, machine);
            let end = after_block(seq![assignment] + between + seq![print], machine);
            end == if before.failure is Some {
                before
            } else {
                before.printed(value)
            }
        }),
{
    let assignment = StatementModel::Assignment(name, ExprModel::Number(value));
    let print = StatementModel::Print(ExprModel::Variable(name));
    let assigned = machine.assigned(name, value);
    let before = after_block(seq![assignment] + between, machine);
    lemma_after_block_concat(seq![assignment], between, machine);
    lemma_single_statement(assignment, machine);
    assert(before == after_block(between, assigned));
    lemma_other_assignments_keep_value(between, name, assigned);
    assert(lookup(before.env, name) == value);
    lemma_after_block_concat(seq![assignment] + between, seq![print], machine);
    lemma_single_statement(print, before);
}

/// Where the sum, difference or product of two values is itself a 64-bit
/// value, the operation yields exactly that integer.
pub proof fn law_arithmetic_matches_integers(left: i64, right: i64)
    ensures
        i64::MIN <= left + right <= i64::MAX ==> apply(Operator::Add, left, right) == Ok::<
            i64,
            EvalError,
        >((left + right) as i64),
        i64::MIN <= left - right <= i64::MAX ==> apply(Operator::Sub, left, right) == Ok::<
            i64,
            EvalError,
        >((left - right) as i64),
        i64::MIN <= left * right <= i64::MAX ==> apply(Operator::Mul, left, right) == Ok::<
            i64,
            EvalError,
        >((left * right) as i64),
{
    lemma_wrap_keeps(left + right);
    lemma_wrap_keeps(left - right);
    lemma_wrap_keeps(left * right);
}

/// Wrapping leaves a value that fits 64 bits as it is.
pub proof fn lemma_wrap_keeps(value: int)
    ensures
        i64::MIN <= value <= i64::MAX ==> wrap(value) == value,
{
}

/// A division by a value other than zero never fails and rounds toward
/// zero: the quotient times the divisor differs from the dividend by a
/// remainder that is smaller in magnitude than the divisor and is zero or
/// has the dividend's sign. The quotient is the result itself, but for the
/// one quotient that does not fit 64 bits (the least value divided by minus
/// one), which wraps around.
pub proof fn law_division_rounds_toward_zero(left: i64, right: i64)
    requires
        right != 0,
    ensures
        ({
            let quotient = truncated_quotient(left as int, right as int);
            let remainder = left - quotient * right;
            &&& magnitude(remainder) < magnitude(right as int)
            &&& remainder == 0 || (remainder < 0) == (left < 0)
            &&& apply(Operator::Div, left, right) == Ok::<i64, EvalError>(wrap(quotient))
            &&& !(left == i64::MIN && right == -1) ==> i64::MIN <= quotient <= i64::MAX && apply(
                Operator::Div,
                left,
                right,
            ) == Ok::<i64, EvalError>(quotient as i64)
        }),
{
    let a = magnitude(left as int);
    let b = magnitude(right as int);
    let q = a / b;
    vstd::arithmetic::div_mod::lemma_fundamental_div_mod(a, b);
    vstd::arithmetic::div_mod::lemma_mod_bound(a, b);
    vstd::arithmetic::div_mod::lemma_div_pos_is_pos(a, b);
    vstd::arithmetic::div_mod::lemma_div_nonincreasing(a, b);
    let quotient = truncated_quotient(left as int, right as int);
    assert(a == b * q + a % b);
    assert(quotient * right == if left < 0 {
        -(b * q)
    } else {
        b * q
    }) by (nonlinear_arith)
        requires
            b == magnitude(right as int),
            quotient == if (left < 0) == (right < 0) {
                q
            } else {
                -q
            },
    ;
    if !(left == i64::MIN && right == -1) {
        if b == 1 {
            vstd::arithmetic::div_mod::lemma_div_basics(a);
        } else if a > 0 {
            vstd::arithmetic::div_mod::lemma_div_is_strictly_smaller(a, b);
        }
        assert(i64::MIN <= quotient <= i64::MAX);
    }
}

/// A division by zero is a failure, never a value.
pub proof fn law_division_by_zero_fails(left: i64, machine: Machine)
    ensures
        apply(Operator::Div, left, 0) == Err::<i64, EvalError>(EvalError::DivisionByZero),
        after_statement(
            StatementModel::Print(
                ExprModel::BinaryOp(
                    Box::new(ExprModel::Number(left)),
                    Operator::Div,
                    Box::new(ExprModel::Number(0)),
                ),
            ),
            machine,
        ) == machine.failed(EvalError::DivisionByZero),
{
    reveal_with_fuel(value_of, 2);
}

/// A variable that was never assigned evaluates to zero, and an expression
/// that mentions it evaluates as if it had been assigned zero.
pub proof fn law_unassigned_variable_is_zero(
    expr: ExprModel,
    env: Map<Seq<char>, i64>,
    name: Seq<char>,
)
    requires
        !env.contains_key(name),
    ensures
        value_of(ExprModel::Variable(name), env) == Ok::<i64, EvalError>(0),
        value_of(expr, env) == value_of(expr, env.insert(name, 0)),
    decreases expr,
{
    match expr {
        ExprModel::Number(_) => {},
        ExprModel::Variable(other) => {},
        ExprModel::BinaryOp(left, _, right) => {
            law_unassigned_variable_is_zero(*left, env, name);
            law_unassigned_variable_is_zero(*right, env, name);
        },
    }
}

/// An expression without a division never fails, whatever is assigned.
pub open spec fn division_free(expr: ExprModel) -> bool
    decreases expr,
{
    match expr {
        ExprModel::BinaryOp(left, op, right) => op != Operator::Div && division_free(*left)
            && division_free(*right),
        _ => true,
    }
}

/// Referencing variables never fails: an expression can fail only through
/// a division.
pub proof fn law_only_division_fails(expr: ExprModel, env: Map<Seq<char>, i64>)
    requires
        division_free(expr),
    ensures
        value_of(expr, env) is Ok,
    decreases expr,
{
    match expr {
        ExprModel::BinaryOp(left, _, right) => {
            law_only_division_fails(*left, env);
            law_only_division_fails(*right, env);
        },
        _ => {},
    }
}

/// An `if` whose condition is zero does nothing at all; one whose condition
/// is another value runs its body on the same machine, so that what the
/// body assigns stays assigned after it.
pub proof fn law_if_runs_body_on_nonzero(
    condition: ExprModel,
    body: Seq<StatementModel>,
    machine: Machine,
)
    ensures
        value_of(condition, machine.env) == Ok::<i64, EvalError>(0) ==> after_statement(
            StatementModel::If(condition, body),
            machine,
        ) == machine,
        value_of(condition, machine.env) matches Ok(v) && v != 0 ==> after_statement(
            StatementModel::If(condition, body),
            machine,
        ) == after_block(body, machine),
        after_statement(
            StatementModel::If(
                ExprModel::Number(1),
                seq![StatementModel::Print(ExprModel::Number(1))],
            ),
            machine,
        ) == machine.printed(1),
{
    let print = StatementModel::Print(ExprModel::Number(1));
    lemma_single_statement(print, machine);
}

/// A loop of zero or fewer rounds does nothing; a loop of more rounds runs
/// its body once on the same machine and then, unless that failed, is the
/// loop of one round fewer.
pub proof fn law_loop_unrolls(count: i64, body: Seq<StatementModel>, machine: Machine)
    ensures
        count <= 0 ==> after_statement(StatementModel::Loop(count, body), machine) == machine,
        count > 0 ==> after_statement(StatementModel::Loop(count, body), machine) == ({
            let next = after_block(body, machine);
            if next.failure is Some {
                next
            } else {
                after_statement(StatementModel::Loop((count - 1) as i64, body), next)
            }
        }),
{
}

/// `count` copies of `value`; none where `count` is zero or less.
pub open spec fn copies(count: int, value: i64) -> Seq<i64> {
    Seq::new(
        if count > 0 {
            count as nat
        } else {
            0
        },
        |i: int| value,
    )
}

/// A loop around one print of a number prints it once for each round, and
/// changes nothing else.
pub proof fn law_loop_prints_each_round(count: i64, value: i64, machine: Machine)
    requires
        machine.failure is None,
    ensures
        after_statement(
            StatementModel::Loop(count, seq![StatementModel::Print(ExprModel::Number(value))]),
            machine,
        ) == (Machine { output: machine.output + copies(count as int, value), ..machine }),
{
    lemma_repeated_print(count as int, value, machine);
}

proof fn lemma_repeated_print(count: int, value: i64, machine: Machine)
    requires
        machine.failure is None,
    ensures
        after_repeats(seq![StatementModel::Print(ExprModel::Number(value))], count, machine) == (
            Machine { output: machine.output + copies(count, value), ..machine }
        ),
    decreases count,
{
    let print = StatementModel::Print(ExprModel::Number(value));
    if count <= 0 {
        assert(machine.output + copies(count, value) == machine.output);
    } else {
        lemma_single_statement(print, machine);
        lemma_repeated_print(count - 1, value, machine.printed(value));
        assert(machine.output.push(value) + copies(count - 1, value) == machine.output + copies(
            count,
            value,
        ));
    }
}

/// A text that does not parse is never executed, not even in part: the
/// output stays as it was and the failure is the parser's.
pub proof fn law_rejected_text_runs_nothing(source: Seq<char>, output: Seq<i64>)
    ensures
        parsed(source) matches Err(e) ==> run_model(source, output) == (
            output,
            Some(RunError::Parse(e)),
        ),
        parsed(source) is Ok ==> !(run_model(source, output).1 matches Some(RunError::Parse(_))),
{
}

} // verus!
