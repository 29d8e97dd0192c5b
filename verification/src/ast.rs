//! The abstract syntax of the scripting language: expressions, statements,
//! and the command trees built by the command parser.

use vstd::prelude::*;
use std::rc::Rc;

verus! {

#[derive(Copy, Clone, PartialEq, Eq, Structural, Debug)]
pub enum UnaryOp {
    Neg,
    Not,
    PreDec,
    PreInc,
    PostDec,
    PostInc,
}

#[derive(Copy, Clone, PartialEq, Eq, Structural, Debug)]
pub enum BinaryOp {
    Sum,
    Sub,
    Mul,
    Div,
    Mod,
    Pow,
    Great,
    Less,
    Equal,
    And,
    Or,
}

/// A literal as it appears in source text: only scalar shapes can be written
/// directly; vectors and dictionaries are built by their own expression forms.
pub enum Lit {
    Nil,
    Num(i64),
    String(String),
    Bool(bool),
}

/// A function literal: the shared pieces of a user function value. The
/// parameter list and body sit behind `Rc` so that turning the literal into a
/// value, and copying that value between bindings, shares them.
pub struct FuncDef {
    pub name: Option<String>,
    pub params: Rc<Vec<String>>,
    pub body: Rc<Stmt>,
}

pub enum Expr {
    Literal(Lit),
    Unary(UnaryOp, Box<Expr>),
    Binary(Box<Expr>, BinaryOp, Box<Expr>),
    /// String interpolation: `strings` always holds exactly one more fragment
    /// than `exprs`; fragments and evaluated expressions alternate.
    Interp { strings: Vec<String>, exprs: Vec<Expr> },
    Get(String),
    /// Assignment to a plain name (the surface `name = expr`).
    Assign(String, Box<Expr>),
    GetField { base: Box<Expr>, index: Box<Expr> },
    SetField { base: Box<Expr>, index: Box<Expr>, value: Box<Expr> },
    /// A vector literal `[e1, e2, ...]`.
    VecLit(Vec<Expr>),
    /// A dictionary literal `{k: e, ...}`.
    DictLit(Vec<(String, Expr)>),
    /// A command in expression position: its captured output is the value.
    Cmd(Cmd),
    Range { l: Box<Expr>, r: Box<Expr>, inclusive: bool },
    Call { func: Box<Expr>, args: Vec<Expr> },
    Lambda(FuncDef),
}

pub enum Stmt {
    Cmd(Cmd),
    Let { name: String, init: Option<Expr>, is_exp: bool },
    Expr(Expr),
    Block(Vec<Stmt>),
    For { lvar: String, rvar: Option<String>, iterated: Expr, each_do: Box<Stmt> },
    While { cond: Expr, then_do: Box<Stmt> },
    If { cond: Expr, then_do: Box<Stmt>, else_do: Option<Box<Stmt>> },
    Continue,
    Break,
    Return(Option<Expr>),
}

pub type Prog = Vec<Stmt>;

#[derive(Copy, Clone, PartialEq, Eq, Structural, Debug)]
pub enum CmdOp {
    Or,
    And,
    OutPipe,
    ErrPipe,
    AllPipe,
    OutWrite,
    ErrWrite,
    AllWrite,
    OutRead,
    ErrRead,
    AllRead,
}

/// A command tree. An atom is a list of word segments; each segment is a list
/// of fragment expressions whose evaluated texts are concatenated, with no
/// separator, into one shell word. Fragments sit behind `Rc` so that the
/// command parser can share expressions already parsed inside tokens.
pub enum Cmd {
    Atom(Vec<Vec<Rc<Expr>>>),
    Op(Box<Cmd>, CmdOp, Box<Cmd>),
}

} // verus!
