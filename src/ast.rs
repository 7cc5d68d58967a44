//! The abstract syntax tree.
use vstd::prelude::*;
use crate::types::Type;

verus! {

/// An expression.
#[derive(Debug, PartialEq)]
pub enum Expr {
    Number(i64),
    /// A float literal, carried as its decimal text.
    Float(String),
    Bool(bool),
    String(String),
    Identifier(String),
    /// `name(args)`.
    Call(String, Vec<Expr>),
    /// `module.name(args)`.
    ModuleCall(String, String, Vec<Expr>),
    Add(Box<Expr>, Box<Expr>),
    Sub(Box<Expr>, Box<Expr>),
    Mul(Box<Expr>, Box<Expr>),
    Div(Box<Expr>, Box<Expr>),
    Mod(Box<Expr>, Box<Expr>),
    Eq(Box<Expr>, Box<Expr>),
    Ne(Box<Expr>, Box<Expr>),
    Lt(Box<Expr>, Box<Expr>),
    Le(Box<Expr>, Box<Expr>),
    Gt(Box<Expr>, Box<Expr>),
    Ge(Box<Expr>, Box<Expr>),
}

/// A statement. Functions appear at the top level only.
#[derive(Debug, PartialEq)]
pub enum Stmt {
    Import(String),
    Function { name: String, params: Vec<String>, return_type: Type, body: Vec<Stmt>, exported: bool },
    Expression(Expr),
    Let { name: String, value: Expr },
    Assign { name: String, value: Expr },
    If { condition: Expr, then_body: Vec<Stmt>, else_body: Option<Vec<Stmt>> },
    While { condition: Expr, body: Vec<Stmt> },
    Return(Expr),
    Panic(Expr),
}

/// A parsed source file: its name, the modules it imports, and its
/// statements.
#[derive(Debug)]
pub struct Module {
    pub name: String,
    pub imports: Vec<String>,
    pub statements: Vec<Stmt>,
}

} // verus!
