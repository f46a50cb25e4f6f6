//! Abstract syntax produced by the parser and consumed by the checker.
//!
//! Nothing here is checked yet: type annotations are plain names, variable
//! and function references are plain identifiers. Leaf constructs carry a
//! [`stream::Position`] so that checking errors can point at their origin.

use vstd::prelude::*;

use crate::stream::Position;

verus! {

/// An unchecked type annotation: a primitive type name, or an array of an
/// inner annotation. The checker resolves these to semantic types.
#[derive(Debug, PartialEq, Eq)]
pub enum Type {
    Identifier(String),
    Array(Box<Type>),
}

/// One function parameter: its annotated type and its name.
#[derive(Debug, PartialEq, Eq)]
pub struct Parameter {
    pub pos: Position,
    pub identifier: String,
    pub param_type: Type,
}

/// An expression tree. Number literals carry the IEEE-754 bit pattern of
/// their value; the checker never computes with it, it only passes the bits
/// through to the emitted instruction.
#[derive(Debug, PartialEq, Eq)]
pub enum Expression {
    Equal(Box<Expression>, Box<Expression>),
    GreaterThan(Box<Expression>, Box<Expression>),
    LessThan(Box<Expression>, Box<Expression>),
    Add(Box<Expression>, Box<Expression>),
    Subtract(Box<Expression>, Box<Expression>),
    Multiply(Box<Expression>, Box<Expression>),
    Divide(Box<Expression>, Box<Expression>),
    BooleanNot(Box<Expression>),
    UnaryMinus(Box<Expression>),
    NumberLiteral { pos: Position, value: u64 },
    BooleanLiteral { pos: Position, value: bool },
    CharLiteral { pos: Position, value: char },
    StringLiteral { pos: Position, value: String },
    Array { pos: Position, elements: Vec<Expression> },
    Variable { pos: Position, identifier: String },
    FunctionCall { pos: Position, identifier: String, args: Vec<Expression> },
}

/// A statement. Blocks are plain vectors of statements; function
/// definitions may only appear at the top level of the input stream.
#[derive(Debug, PartialEq, Eq)]
pub enum Statement {
    If { condition: Expression, block: Vec<Statement> },
    While { condition: Expression, block: Vec<Statement> },
    Return(Option<Expression>),
    FunctionDefinition {
        pos: Position,
        identifier: String,
        parameters: Vec<Parameter>,
        return_type: Option<Type>,
        body: Vec<Statement>,
    },
    VariableDeclaration { identifier: String, var_type: Type, value: Option<Expression> },
    VariableAssignment { identifier: String, assign_to: Expression },
}

} // verus!
