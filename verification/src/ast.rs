//! The syntax tree, and the mathematical model of it that contracts speak of.

use vstd::prelude::*;

verus! {

/// The four arithmetic operators.
#[derive(Clone, Copy, Debug, PartialEq, Eq)]
pub enum Operator {
    Add,
    Sub,
    Mul,
    Div,
}

/// A computable value.
#[derive(Debug, PartialEq, Eq)]
pub enum Expr {
    Number(i64),
    Variable(String),
    BinaryOp(Box<Expr>, Operator, Box<Expr>),
}

/// A unit of execution. Blocks are ordered; their order is execution order.
#[derive(Debug, PartialEq, Eq)]
pub enum Statement {
    Assignment(String, Expr),
    Print(Expr),
    If(Expr, Vec<Statement>),
    Loop(i64, Vec<Statement>),
}

/// An expression as a mathematical value: names are character sequences.
pub ghost enum ExprModel {
    Number(i64),
    Variable(Seq<char>),
    BinaryOp(Box<ExprModel>, Operator, Box<ExprModel>),
}

/// A statement as a mathematical value: blocks are sequences.
pub ghost enum StatementModel {
    Assignment(Seq<char>, ExprModel),
    Print(ExprModel),
    If(ExprModel, Seq<StatementModel>),
    Loop(i64, Seq<StatementModel>),
}

impl Expr {
    /// The model of an expression, node for node.
    pub open spec fn model(self) -> ExprModel
        decreases self,
    {
        match self {
            Expr::Number(n) => ExprModel::Number(n),
            Expr::Variable(name) => ExprModel::Variable(name@),
            Expr::BinaryOp(left, op, right) => ExprModel::BinaryOp(
                Box::new(left.model()),
                op,
                Box::new(right.model()),
            ),
        }
    }
}

impl View for Expr {
    type V = ExprModel;

    open spec fn view(&self) -> ExprModel {
        self.model()
    }
}

impl Statement {
    /// The model of a statement, node for node.
    pub open spec fn model(self) -> StatementModel
        decreases self,
    {
        match self {
            Statement::Assignment(name, value) => StatementModel::Assignment(name@, value@),
            Statement::Print(value) => StatementModel::Print(value@),
            Statement::If(condition, body) => StatementModel::If(condition@, block_model(body@)),
            Statement::Loop(count, body) => StatementModel::Loop(count, block_model(body@)),
        }
    }
}

/// The model of a block: the models of its statements, in order.
pub open spec fn block_model(block: Seq<Statement>) -> Seq<StatementModel>
    decreases block,
{
    Seq::new(
        block.len(),
        |i: int|
            if 0 <= i < block.len() {
                block[i].model()
            } else {
                arbitrary()
            },
    )
}

impl View for Statement {
    type V = StatementModel;

    open spec fn view(&self) -> StatementModel {
        self.model()
    }
}

/// Appending a statement to a block appends its model to the block's model.
pub proof fn lemma_block_model_push(block: Seq<Statement>, statement: Statement)
    ensures
        block_model(block.push(statement)) == block_model(block).push(statement@),
{
    assert(block_model(block.push(statement)) =~= block_model(block).push(statement@));
}

} // verus!
