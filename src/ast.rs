//! The abstract syntax tree and its model.
use vstd::prelude::*;
use crate::operator::Operator;
use crate::token::{Identifier, Literal, LiteralModel};

verus! {

/// An expression.
#[derive(Debug, PartialEq)]
pub enum Expression {
    /// A literal value
    Literal(Literal),
    /// A name that refers to a binding
    Reference(Identifier),
    /// An operator between two operands
    BinaryOp {
        /// The operator
        operator: Operator,
        /// The operand on the left
        left: Box<Expression>,
        /// The operand on the right
        right: Box<Expression>,
    },
    /// An operator with one operand
    UnaryOp {
        /// The operator
        operator: Operator,
        /// The operand
        operand: Box<Expression>,
    },
    /// A call of a named function
    Call {
        /// The function called
        callee: Identifier,
        /// The arguments, in order
        arguments: Vec<Expression>,
    },
    /// No value
    Unit,
}

/// A sequence of statements with the value of the whole.
#[derive(Debug, PartialEq)]
pub struct Block {
    /// The statements, in source order
    pub statements: Vec<Statement>,
    /// The value of the block; `Unit` when it gives none
    pub trailing_value: Expression,
}

/// A statement.
#[derive(Debug, PartialEq)]
pub enum Statement {
    /// An expression evaluated for its effect
    Expression(Expression),
    /// `let [mut] name = value`
    Binding {
        /// The name bound
        identifier: Identifier,
        /// The value bound
        value: Expression,
        /// Whether `mut` was given
        mutable: bool,
    },
    /// `name = value`
    Reassignment {
        /// The name assigned
        identifier: Identifier,
        /// The value assigned
        value: Expression,
    },
    /// `{ ... }`
    NestedBlock(Block),
    /// `if condition { ... } [else ...]`
    If {
        /// The condition
        condition: Expression,
        /// The block run when the condition holds
        then_block: Block,
        /// The block run otherwise
        else_block: Option<Block>,
    },
    /// `while condition { ... }`
    While {
        /// The condition
        condition: Expression,
        /// The block repeated
        body: Block,
    },
}

/// The model of an [Expression].
pub enum ExprModel {
    Literal(LiteralModel),
    Reference(Seq<char>),
    BinaryOp { operator: Operator, left: Box<ExprModel>, right: Box<ExprModel> },
    UnaryOp { operator: Operator, operand: Box<ExprModel> },
    Call { callee: Seq<char>, arguments: Seq<ExprModel> },
    Unit,
}

/// The model of a [Block].
pub struct BlockModel {
    pub statements: Seq<StmtModel>,
    pub trailing_value: ExprModel,
}

/// The model of a [Statement].
pub enum StmtModel {
    Expression(ExprModel),
    Binding { identifier: Seq<char>, value: ExprModel, mutable: bool },
    Reassignment { identifier: Seq<char>, value: ExprModel },
    NestedBlock(BlockModel),
    If { condition: ExprModel, then_block: BlockModel, else_block: Option<BlockModel> },
    While { condition: ExprModel, body: BlockModel },
}

/// The model of an expression.
pub open spec fn expr_view(e: Expression) -> ExprModel
    decreases e,
{
    match e {
        Expression::Literal(l) => ExprModel::Literal(l@),
        Expression::Reference(id) => ExprModel::Reference(id.name@),
        Expression::BinaryOp { operator, left, right } => ExprModel::BinaryOp {
            operator,
            left: Box::new(expr_view(*left)),
            right: Box::new(expr_view(*right)),
        },
        Expression::UnaryOp { operator, operand } => ExprModel::UnaryOp {
            operator,
            operand: Box::new(expr_view(*operand)),
        },
        Expression::Call { callee, arguments } => ExprModel::Call {
            callee: callee.name@,
            arguments: Seq::new(
                arguments@.len(),
                |i: int|
                    if 0 <= i < arguments@.len() {
                        expr_view(arguments@[i])
                    } else {
                        ExprModel::Unit
                    },
            ),
        },
        Expression::Unit => ExprModel::Unit,
    }
}

/// The models of a sequence of expressions.
pub open spec fn exprs_view(v: Seq<Expression>) -> Seq<ExprModel> {
    Seq::new(v.len(), |i: int| expr_view(v[i]))
}

/// The model of a statement.
pub open spec fn stmt_view(s: Statement) -> StmtModel
    decreases s,
{
    match s {
        Statement::Expression(e) => StmtModel::Expression(expr_view(e)),
        Statement::Binding { identifier, value, mutable } => StmtModel::Binding {
            identifier: identifier.name@,
            value: expr_view(value),
            mutable,
        },
        Statement::Reassignment { identifier, value } => StmtModel::Reassignment {
            identifier: identifier.name@,
            value: expr_view(value),
        },
        Statement::NestedBlock(b) => StmtModel::NestedBlock(block_view(b)),
        Statement::If { condition, then_block, else_block } => StmtModel::If {
            condition: expr_view(condition),
            then_block: block_view(then_block),
            else_block: match else_block {
                Some(b) => Some(block_view(b)),
                None => None,
            },
        },
        Statement::While { condition, body } => StmtModel::While {
            condition: expr_view(condition),
            body: block_view(body),
        },
    }
}

/// The model of a block.
pub open spec fn block_view(b: Block) -> BlockModel
    decreases b,
{
    BlockModel {
        statements: Seq::new(
            b.statements@.len(),
            |i: int|
                if 0 <= i < b.statements@.len() {
                    stmt_view(b.statements@[i])
                } else {
                    StmtModel::Expression(ExprModel::Unit)
                },
        ),
        trailing_value: expr_view(b.trailing_value),
    }
}

impl View for Expression {
    type V = ExprModel;

    open spec fn view(&self) -> ExprModel {
        expr_view(*self)
    }
}

impl View for Statement {
    type V = StmtModel;

    open spec fn view(&self) -> StmtModel {
        stmt_view(*self)
    }
}

impl View for Block {
    type V = BlockModel;

    open spec fn view(&self) -> BlockModel {
        block_view(*self)
    }
}

} // verus!
