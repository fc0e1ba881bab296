//! The statement/expression tree the code generator walks. The tree is
//! handed in fully formed; each node exclusively owns its children.

use vstd::prelude::*;

verus! {

/// A statement of the source language.
#[derive(Debug)]
pub enum Statement {
    Function(FunctionDef),
    VariableDeclaration(VariableDeclaration),
    If(IfStatement),
    While(WhileStatement),
    For(ForStatement),
    Expression(Expression),
}

/// A function definition: label, fixed prologue, body, fixed epilogue.
/// Parameters and return type are carried but take no part in lowering.
#[derive(Debug)]
pub struct FunctionDef {
    pub name: String,
    pub params: Vec<Parameter>,
    pub return_type: Option<String>,
    pub body: Vec<Statement>,
}

/// A variable declaration. The type tag decides the storage class
/// once, at declaration time: a tag whose first character is the
/// register sigil binds the variable to that named register; any other
/// tag binds it to a memory slot named after the variable.
#[derive(Debug)]
pub struct VariableDeclaration {
    pub name: String,
    pub var_type: String,
    pub value: Box<Expression>,
}

/// A conditional with an optional alternate branch.
#[derive(Debug)]
pub struct IfStatement {
    pub condition: Box<Expression>,
    pub then_branch: Vec<Statement>,
    pub else_branch: Option<Vec<Statement>>,
}

/// A loop guarded by a condition expression.
#[derive(Debug)]
pub struct WhileStatement {
    pub condition: Box<Expression>,
    pub body: Vec<Statement>,
}

/// A loop over a range, labelled by its iterator name. The iterator is
/// not implicitly incremented: the body must do so itself if wanted.
#[derive(Debug)]
pub struct ForStatement {
    pub iterator: String,
    pub range: Box<Expression>,
    pub increment: Option<i64>,
    pub body: Vec<Statement>,
}

/// A declared parameter of a function definition.
#[derive(Debug)]
pub struct Parameter {
    pub name: String,
    pub var_type: String,
}

/// An expression: a literal, a variable use, or a binary operation
/// over two owned sub-expressions.
#[derive(Debug)]
pub enum Expression {
    Identifier(String),
    Number(i64),
    BinaryOperation { left: Box<Expression>, operator: String, right: Box<Expression> },
}

/// The unit handed to the code generator: a whole program, or a single
/// construct (only programs are lowered).
#[derive(Debug)]
pub enum AstNode {
    Program(Vec<Statement>),
    FunctionDef(FunctionDef),
    VariableDeclaration(VariableDeclaration),
    IfStatement(IfStatement),
    WhileStatement(WhileStatement),
    ForStatement(ForStatement),
}

} // verus!
