//! The abstract syntax tree that the evaluator walks.
//!
//! The tree is produced elsewhere and is read-only while a program runs;
//! every node owns its children.

use vstd::prelude::*;

verus! {

/// An operator of a binary or unary expression.
///
/// `Mul`, `Div`, `Add`, `Sub` and `Pow` are the arithmetic operators. The
/// comparison operators `Eq`, `Ne`, `Lt`, `Le`, `Gt` and `Ge` complete the set
/// so that conditions of `if` and `while` can be written; each of them yields
/// a boolean.
#[derive(Copy, Clone, Debug, PartialEq, Eq, Structural)]
pub enum Opcode {
    Mul,
    Div,
    Add,
    Sub,
    Pow,
    Eq,
    Ne,
    Lt,
    Le,
    Gt,
    Ge,
}

/// One name of an import statement.
#[derive(Clone, Debug)]
pub enum Name {
    /// The module is bound under its own name.
    Name(String),
    /// The module (first field) is bound under another name (second field).
    Alias(String, String),
}

/// An expression.
#[derive(Debug)]
pub enum Expr {
    Boolean(bool),
    Integer(i32),
    /// A 32-bit floating-point literal, held as its IEEE-754 bit pattern.
    Float(u32),
    BinaryOp(Box<Expr>, Opcode, Box<Expr>),
    UnaryOp(Opcode, Box<Expr>),
    /// What a failed parse leaves in the tree; evaluating it is a defect.
    Error,
    Str(String),
    List(Vec<Box<Expr>>),
    Variable(String),
    FunctionCall(Box<Expr>, Vec<Box<Expr>>),
    ItemSubscription(Box<Expr>, Box<Expr>),
    AttrAccess(Box<Expr>, String),
    /// A function literal: name, parameter names, body.
    Function(String, Box<Vec<String>>, Vec<Box<Statement>>),
    /// The null literal.
    Null,
}

/// A statement.
#[derive(Debug)]
pub enum Statement {
    Expression(Box<Expr>),
    If(Box<Expr>, Vec<Box<Statement>>, Option<Vec<Box<Statement>>>),
    /// A named function declaration: name, parameter names, body.
    Function(String, Box<Vec<String>>, Vec<Box<Statement>>),
    Assignment(String, Box<Expr>),
    Return(Box<Expr>),
    While(Box<Expr>, Vec<Box<Statement>>),
    For(String, Box<Expr>, Vec<Box<Statement>>),
    Import(Vec<Box<Name>>),
    Try(Vec<Box<Statement>>, Vec<Box<Catch>>),
}

/// A handler of a `try` statement: the name the error is bound to, the
/// filter that selects the errors it handles, and its body.
#[derive(Debug)]
pub enum Catch {
    Catch(Option<String>, Option<Box<Expr>>, Vec<Box<Statement>>),
}

/// A whole program.
#[derive(Debug)]
pub struct Module {
    pub body: Vec<Box<Statement>>,
}

impl Name {
    /// The name of the module that the import asks for.
    pub open spec fn source(self) -> Seq<char> {
        match self {
            Name::Name(n) => n@,
            Name::Alias(n, _) => n@,
        }
    }

    /// The name under which the imported value is bound.
    pub open spec fn target(self) -> Seq<char> {
        match self {
            Name::Name(n) => n@,
            Name::Alias(_, a) => a@,
        }
    }

    /// The name of the module that the import asks for.
    pub fn source_name(&self) -> (r: &String)
        ensures
            r@ == self.source(),
    {
        match self {
            Name::Name(n) => n,
            Name::Alias(n, _) => n,
        }
    }

    /// The name under which the imported value is bound.
    pub fn target_name(&self) -> (r: &String)
        ensures
            r@ == self.target(),
    {
        match self {
            Name::Name(n) => n,
            Name::Alias(_, a) => a,
        }
    }
}

} // verus!
