//! Syntax tree handed over by the parser: every expression carries a
//! stable identifier that correlates the resolver's output with the node.
use std::rc::Rc;
use vstd::prelude::*;

verus! {

/// A token as the parser hands it over: the source text and its line.
#[derive(Clone)]
pub struct Token {
    pub lexeme: String,
    pub line: usize,
}

/// A literal value written in the program text.
#[derive(Clone)]
pub enum Literal {
    Nil,
    True,
    False,
    Number(i64),
    Text(String),
}

#[allow(inconsistent_fields)]
pub enum Expr {
    Array { id: usize, elements: Vec<Expr> },
    Binary { id: usize, left: Box<Expr>, operator: Token, right: Box<Expr> },
    Call { id: usize, callee: Box<Expr>, paren: Token, arguments: Vec<Expr> },
    Get { id: usize, object: Box<Expr>, name: Token },
    Grouping { id: usize, expression: Box<Expr> },
    Literal { id: usize, value: Literal },
    Logical { id: usize, left: Box<Expr>, operator: Token, right: Box<Expr> },
    SetField { id: usize, object: Box<Expr>, name: Token, value: Box<Expr> },
    Unary { id: usize, operator: Token, right: Box<Expr> },
    Variable { id: usize, name: Token },
    Assign { id: usize, name: Token, value: Box<Expr> },
    AnonFunction { id: usize, paren: Token, arguments: Vec<Token>, body: Rc<Vec<Stmt>> },
}

/// An `elif` arm of an `if` statement.
pub struct ElifBranch {
    pub predicate: Expr,
    pub body: Box<Stmt>,
}

/// The optional `before` part of a `wait` statement.
pub struct BeforeBlock {
    pub time: Expr,
    pub body: Box<Stmt>,
}

#[allow(inconsistent_fields)]
pub enum Stmt {
    Expression { expression: Expr },
    Print { expression: Expr },
    Input { expression: Expr },
    Errors { expression: Expr },
    Import { expression: Expr },
    Var { name: Token, initializer: Expr },
    Block { statements: Vec<Stmt> },
    Class { name: Token, methods: Vec<Stmt>, superclass: Option<Expr> },
    IfStmt {
        predicate: Expr,
        then: Box<Stmt>,
        elif_branches: Vec<ElifBranch>,
        els: Option<Box<Stmt>>,
    },
    IfShortStmt { predicate: Expr, then: Box<Stmt>, els: Option<Box<Stmt>> },
    WhileStmt { condition: Expr, body: Box<Stmt> },
    Function { name: Token, params: Vec<Token>, body: Rc<Vec<Stmt>> },
    CmdFunction { name: Token, cmd: String },
    ReturnStmt { keyword: Token, value: Option<Expr> },
    BreakStmt { keyword: Token },
    WaitStmt { time: Expr, body: Box<Stmt>, before: Option<Box<BeforeBlock>> },
    BenchStmt { body: Box<Stmt> },
    Exits,
}

impl Expr {
    /// The node's identifier.
    pub open spec fn spec_id(&self) -> usize {
        match self {
            Expr::Array { id, .. } => *id,
            Expr::Binary { id, .. } => *id,
            Expr::Call { id, .. } => *id,
            Expr::Get { id, .. } => *id,
            Expr::Grouping { id, .. } => *id,
            Expr::Literal { id, .. } => *id,
            Expr::Logical { id, .. } => *id,
            Expr::SetField { id, .. } => *id,
            Expr::Unary { id, .. } => *id,
            Expr::Variable { id, .. } => *id,
            Expr::Assign { id, .. } => *id,
            Expr::AnonFunction { id, .. } => *id,
        }
    }

    pub fn get_id(&self) -> (r: usize)
        ensures
            r == self.spec_id(),
    {
        match self {
            Expr::Array { id, .. } => *id,
            Expr::Binary { id, .. } => *id,
            Expr::Call { id, .. } => *id,
            Expr::Get { id, .. } => *id,
            Expr::Grouping { id, .. } => *id,
            Expr::Literal { id, .. } => *id,
            Expr::Logical { id, .. } => *id,
            Expr::SetField { id, .. } => *id,
            Expr::Unary { id, .. } => *id,
            Expr::Variable { id, .. } => *id,
            Expr::Assign { id, .. } => *id,
            Expr::AnonFunction { id, .. } => *id,
        }
    }
}

} // verus!
