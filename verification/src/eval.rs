//! The meaning of expressions and statements, and the evaluator.
//!
//! A program runs on a machine: a flat environment from names to 64-bit
//! integers, the values printed so far, and the failure that stopped it, if
//! any. Arithmetic wraps around in two's complement; a division rounds toward
//! zero; a division by zero stops the machine.

use vstd::prelude::*;
use vstd::hash_map::StringHashMap;
use vstd::arithmetic::div_mod::{lemma_div_basics, lemma_div_nonincreasing, lemma_div_pos_is_pos};
use crate::ast::{block_model, Expr, ExprModel, Operator, Statement, StatementModel};
use crate::error::{failure_of, EvalError};

verus! {

/// The 64-bit two's-complement integer that is congruent to `value` modulo
/// 2^64.
pub open spec fn wrap(value: int) -> i64 {
    let low = value % 0x1_0000_0000_0000_0000;
    if low > i64::MAX {
        (low - 0x1_0000_0000_0000_0000) as i64
    } else {
        low as i64
    }
}

pub open spec fn magnitude(value: int) -> int {
    if value < 0 {
        -value
    } else {
        value
    }
}

/// The quotient of `dividend` by `divisor`, rounded toward zero.
pub open spec fn truncated_quotient(dividend: int, divisor: int) -> int
    recommends
        divisor != 0,
{
    let quotient = magnitude(dividend) / magnitude(divisor);
    if (dividend < 0) == (divisor < 0) {
        quotient
    } else {
        -quotient
    }
}

/// The result of a binary operation on two values.
pub open spec fn apply(op: Operator, left: i64, right: i64) -> Result<i64, EvalError> {
    match op {
        Operator::Add => Ok(wrap(left + right)),
        Operator::Sub => Ok(wrap(left - right)),
        Operator::Mul => Ok(wrap(left * right)),
        Operator::Div => if right == 0 {
            Err(EvalError::DivisionByZero)
        } else {
            Ok(wrap(truncated_quotient(left as int, right as int)))
        },
    }
}

/// The value bound to `name`, or zero where nothing is bound to it.
pub open spec fn lookup(env: Map<Seq<char>, i64>, name: Seq<char>) -> i64 {
    if env.contains_key(name) {
        env[name]
    } else {
        0
    }
}

/// The value of an expression in an environment. The left operand of an
/// operation is evaluated first, and its failure is the operation's.
pub open spec fn value_of(expr: ExprModel, env: Map<Seq<char>, i64>) -> Result<i64, EvalError>
    decreases expr,
{
    match expr {
        ExprModel::Number(value) => Ok(value),
        ExprModel::Variable(name) => Ok(lookup(env, name)),
        ExprModel::BinaryOp(left, op, right) => match value_of(*left, env) {
            Err(e) => Err(e),
            Ok(a) => match value_of(*right, env) {
                Err(e) => Err(e),
                Ok(b) => apply(op, a, b),
            },
        },
    }
}

/// The state of a run.
pub ghost struct Machine {
    /// The variables that have been assigned, with their current values.
    pub env: Map<Seq<char>, i64>,
    /// The values printed so far, oldest first.
    pub output: Seq<i64>,
    /// The failure that stopped the run, if it has stopped.
    pub failure: Option<EvalError>,
}

impl Machine {
    /// A machine that has not failed.
    pub open spec fn running(env: Map<Seq<char>, i64>, output: Seq<i64>) -> Machine {
        Machine { env, output, failure: None }
    }

    /// The machine that an executable step leaves behind: `result` tells
    /// whether it failed.
    pub open spec fn left_by(
        env: Map<Seq<char>, i64>,
        output: Seq<i64>,
        result: Result<(), EvalError>,
    ) -> Machine {
        Machine { env, output, failure: failure_of(result) }
    }

    /// This machine, stopped by `e`.
    pub open spec fn failed(self, e: EvalError) -> Machine {
        Machine { failure: Some(e), ..self }
    }

    /// This machine after `name` was assigned `value`.
    pub open spec fn assigned(self, name: Seq<char>, value: i64) -> Machine {
        Machine { env: self.env.insert(name, value), ..self }
    }

    /// This machine after `value` was printed.
    pub open spec fn printed(self, value: i64) -> Machine {
        Machine { output: self.output.push(value), ..self }
    }
}

/// The machine after one statement was executed on a running machine.
pub open spec fn after_statement(statement: StatementModel, machine: Machine) -> Machine
    decreases statement, 0int, 0int,
{
    match statement {
        StatementModel::Assignment(name, value) => match value_of(value, machine.env) {
            Ok(v) => machine.assigned(name, v),
            Err(e) => machine.failed(e),
        },
        StatementModel::Print(value) => match value_of(value, machine.env) {
            Ok(v) => machine.printed(v),
            Err(e) => machine.failed(e),
        },
        StatementModel::If(condition, body) => match value_of(condition, machine.env) {
            Ok(v) => if v != 0 {
                after_block(body, machine)
            } else {
                machine
            },
            Err(e) => machine.failed(e),
        },
        StatementModel::Loop(count, body) => after_repeats(body, count as int, machine),
    }
}

/// The machine after the statements of a block were executed in order, up
/// to and including the first that fails.
pub open spec fn after_block(block: Seq<StatementModel>, machine: Machine) -> Machine
    decreases block, 0int, 0int,
{
    if block.len() == 0 {
        machine
    } else {
        let next = after_statement(block[0], machine);
        if next.failure is Some {
            next
        } else {
            after_block(block.drop_first(), next)
        }
    }
}

/// The machine after a block was executed `count` times in a row, up to and
/// including the first round that fails. A count of zero or less is no round.
pub open spec fn after_repeats(body: Seq<StatementModel>, count: int, machine: Machine) -> Machine
    decreases body, 1int, count,
{
    if count <= 0 {
        machine
    } else {
        let next = after_block(body, machine);
        if next.failure is Some {
            next
        } else {
            after_repeats(body, count - 1, next)
        }
    }
}

/// The variables of one run: a flat map from names to values.
pub struct Environment {
    variables: StringHashMap<i64>,
}

impl View for Environment {
    type V = Map<Seq<char>, i64>;

    closed spec fn view(&self) -> Map<Seq<char>, i64> {
        self.variables@
    }
}

impl Environment {
    /// An environment in which nothing is assigned.
    pub fn new() -> (env: Environment)
        ensures
            env@ == Map::<Seq<char>, i64>::empty(),
    {
        Environment { variables: StringHashMap::new() }
    }

    /// The current value of a variable; zero if it was never assigned.
    pub fn get(&self, name: &str) -> (value: i64)
        ensures
            value == lookup(self@, name@),
    {
        match self.variables.get(name) {
            Some(value) => *value,
            None => 0,
        }
    }

    /// Whether a variable was ever assigned.
    pub fn contains(&self, name: &str) -> (known: bool)
        ensures
            known == self@.contains_key(name@),
    {
        self.variables.contains_key(name)
    }

    /// Binds a variable to a value, replacing the value it had.
    pub fn set(&mut self, name: &str, value: i64)
        ensures
            final(self)@ == old(self)@.insert(name@, value),
    {
        self.variables.insert(name.to_owned(), value);
    }
}

/// A quotient of magnitudes is at least zero and at most the dividend's
/// magnitude.
proof fn lemma_quotient_bounds(dividend: int, divisor: int)
    requires
        divisor != 0,
    ensures
        0 <= magnitude(dividend) / magnitude(divisor) <= magnitude(dividend),
        dividend == 0 ==> magnitude(dividend) / magnitude(divisor) == 0,
{
    lemma_div_pos_is_pos(magnitude(dividend), magnitude(divisor));
    lemma_div_nonincreasing(magnitude(dividend), magnitude(divisor));
    lemma_div_basics(magnitude(divisor));
}

/// Applies a binary operator to two values.
///
/// Sums, differences and products wrap around; a quotient is rounded toward
/// zero; dividing by zero is the one failure.
pub fn apply_operator(op: Operator, left: i64, right: i64) -> (r: Result<i64, EvalError>)
    ensures
        r == apply(op, left, right),
{
    match op {
        Operator::Add => Ok(left.wrapping_add(right)),
        Operator::Sub => Ok(left.wrapping_sub(right)),
        Operator::Mul => Ok(left.wrapping_mul(right)),
        Operator::Div => {
            if right == 0 {
                Err(EvalError::DivisionByZero)
            } else {
                proof {
                    lemma_quotient_bounds(left as int, right as int);
                }
                match left.checked_div(right) {
                    Some(quotient) => Ok(quotient),
                    None => Ok(i64::MIN),
                }
            }
        },
    }
}

/// Evaluates an expression in an environment.
///
/// A variable that was never assigned evaluates to zero. The only failure is
/// a division by zero.
pub fn evaluate(expr: &Expr, env: &Environment) -> (r: Result<i64, EvalError>)
    ensures
        r == value_of(expr@, env@),
    decreases expr,
{
    match expr {
        Expr::Number(value) => Ok(*value),
        Expr::Variable(name) => Ok(env.get(name.as_str())),
        Expr::BinaryOp(left, op, right) => match evaluate(left, env) {
            Err(e) => Err(e),
            Ok(a) => match evaluate(right, env) {
                Err(e) => Err(e),
                Ok(b) => apply_operator(*op, a, b),
            },
        },
    }
}

/// Executes one statement: it may assign to `env` and append the values it
/// prints to `output`.
///
/// On a failure the environment and the output are as the statement left
/// them when it stopped.
#[verifier::loop_isolation(false)]
pub fn execute(statement: &Statement, env: &mut Environment, output: &mut Vec<i64>) -> (r: Result<
    (),
    EvalError,
>)
    ensures
        Machine::left_by(final(env)@, final(output)@, r) == after_statement(
            statement@,
            Machine::running(old(env)@, old(output)@),
        ),
    decreases statement,
{
    match statement {
        Statement::Assignment(name, value) => match evaluate(value, env) {
            Ok(v) => {
                env.set(name.as_str(), v);
                Ok(())
            },
            Err(e) => Err(e),
        },
        Statement::Print(value) => match evaluate(value, env) {
            Ok(v) => {
                output.push(v);
                Ok(())
            },
            Err(e) => Err(e),
        },
        Statement::If(condition, body) => match evaluate(condition, env) {
            Ok(v) => if v != 0 {
                execute_block(body, env, output)
            } else {
                Ok(())
            },
            Err(e) => Err(e),
        },
        Statement::Loop(count, body) => {
            let ghost start = Machine::running(env@, output@);
            let ghost model = block_model(body@);
            let mut round: i64 = 0;
            while round < *count
                invariant
                    0 <= round,
                    round <= *count || *count < 0,
                    model == block_model(body@),
                    after_repeats(model, *count - round, Machine::running(env@, output@))
                        == after_repeats(model, *count as int, start),
                decreases *count - round,
            {
                match execute_block(body, env, output) {
                    Ok(_) => {},
                    Err(e) => {
                        return Err(e);
                    },
                }
                round = round + 1;
            }
            Ok(())
        },
    }
}

/// Executes the statements of a block in order, stopping at the first that
/// fails.
#[verifier::loop_isolation(false)]
pub fn execute_block(block: &Vec<Statement>, env: &mut Environment, output: &mut Vec<i64>) -> (r:
    Result<(), EvalError>)
    ensures
        Machine::left_by(final(env)@, final(output)@, r) == after_block(
            block_model(block@),
            Machine::running(old(env)@, old(output)@),
        ),
    decreases block,
{
    let ghost start = Machine::running(env@, output@);
    let ghost model = block_model(block@);
    let mut i: usize = 0;
    assert(model.skip(0) == model);
    while i < block.len()
        invariant
            i <= block.len(),
            model == block_model(block@),
            after_block(model.skip(i as int), Machine::running(env@, output@)) == after_block(
                model,
                start,
            ),
        decreases block.len() - i,
    {
        assert(model.skip(i as int)[0] == block@[i as int]@);
        assert(model.skip(i as int).drop_first() == model.skip(i as int + 1));
        match execute(&block[i], env, output) {
            Ok(_) => {},
            Err(e) => {
                return Err(e);
            },
        }
        i = i + 1;
    }
    Ok(())
}

/// The machine after a whole program ran from an empty environment, with
/// `output` already printed before it.
pub open spec fn after_program(program: Seq<StatementModel>, output: Seq<i64>) -> Machine {
    after_block(program, Machine::running(Map::empty(), output))
}

/// Runs a program from an empty environment and appends the values it
/// prints to `output`.
///
/// A failure stops the run; what was printed before it stays in `output`.
pub fn run_program(program: &Vec<Statement>, output: &mut Vec<i64>) -> (r: Result<(), EvalError>)
    ensures
        final(output)@ == after_program(block_model(program@), old(output)@).output,
        failure_of(r) == after_program(block_model(program@), old(output)@).failure,
{
    let mut env = Environment::new();
    execute_block(program, &mut env, output)
}

} // verus!
