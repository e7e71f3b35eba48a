//! The abstract syntax: expression and statement nodes as the parser
//! builds them, together with their mathematical shadows (`ExprV`,
//! `StmtV`), which the specification-level parser and evaluator speak of.

use std::rc::Rc;
use vstd::prelude::*;

verus! {

/// The two unary operators.
#[derive(Clone, Copy, Debug, PartialEq, Eq, Structural)]
pub enum UnaryOp {
    /// Arithmetic negation, `-`.
    Negative,
    /// Logical complement, `!`.
    Not,
}

/// The binary operators that evaluate both operands.
#[derive(Clone, Copy, Debug, PartialEq, Eq, Structural)]
pub enum BinOp {
    Add,
    Sub,
    Mul,
    Div,
    Equal,
    NotEqual,
    Greater,
    GreaterEqual,
    Less,
    LessEqual,
}

/// The two short-circuiting operators.
#[derive(Clone, Copy, Debug, PartialEq, Eq, Structural)]
pub enum LogicalOp {
    And,
    Or,
}

/// A literal, already carrying its value: numbers are stored scaled as
/// `number::SCALE` millionths.
#[derive(Debug)]
pub enum Lit {
    Number(i64),
    Text(Vec<u8>),
    True,
    False,
    Nil,
}

/// An expression node. Every node owns its sub-expressions.
#[derive(Debug)]
pub enum Expr {
    Literal(Lit),
    /// A bare variable reference.
    Variable(Vec<u8>),
    /// `name = value`.
    Assign(Vec<u8>, Box<Expr>),
    /// `left and right` / `left or right`, short-circuiting.
    Logical(Box<Expr>, LogicalOp, Box<Expr>),
    Binary(Box<Expr>, BinOp, Box<Expr>),
    Unary(UnaryOp, Box<Expr>),
    Grouping(Box<Expr>),
    /// `callee(arguments...)`.
    Call(Box<Expr>, Vec<Expr>),
}

/// A statement node. A function body is shared behind `Rc`, exactly so
/// that a function value can hold it without copying the tree.
#[derive(Debug)]
pub enum Stmt {
    Expression(Expr),
    /// `var name = initializer;`.
    VarDecl(Vec<u8>, Expr),
    /// `{ ... }`: a scope boundary.
    Block(Vec<Stmt>),
    If(Expr, Box<Stmt>, Option<Box<Stmt>>),
    While(Expr, Box<Stmt>),
    /// `fun name(params) { body }`.
    Function(Vec<u8>, Vec<Vec<u8>>, Rc<Vec<Stmt>>),
    Return(Expr),
}

/// The shadow of a literal.
pub enum LitV {
    Number(int),
    Text(Seq<u8>),
    True,
    False,
    Nil,
}

/// The shadow of an expression.
pub enum ExprV {
    Literal(LitV),
    Variable(Seq<u8>),
    Assign(Seq<u8>, Box<ExprV>),
    Logical(Box<ExprV>, LogicalOp, Box<ExprV>),
    Binary(Box<ExprV>, BinOp, Box<ExprV>),
    Unary(UnaryOp, Box<ExprV>),
    Grouping(Box<ExprV>),
    Call(Box<ExprV>, Seq<ExprV>),
}

/// The shadow of a statement.
pub enum StmtV {
    Expression(ExprV),
    VarDecl(Seq<u8>, ExprV),
    Block(Seq<StmtV>),
    If(ExprV, Box<StmtV>, Option<Box<StmtV>>),
    While(ExprV, Box<StmtV>),
    Function(Seq<u8>, Seq<Seq<u8>>, Seq<StmtV>),
    Return(ExprV),
}

impl Lit {
    pub open spec fn view(&self) -> LitV {
        match self {
            Lit::Number(n) => LitV::Number(*n as int),
            Lit::Text(t) => LitV::Text(t@),
            Lit::True => LitV::True,
            Lit::False => LitV::False,
            Lit::Nil => LitV::Nil,
        }
    }
}

impl Expr {
    pub open spec fn view(&self) -> ExprV
        decreases self,
    {
        match self {
            Expr::Literal(l) => ExprV::Literal(l.view()),
            Expr::Variable(n) => ExprV::Variable(n@),
            Expr::Assign(n, e) => ExprV::Assign(n@, Box::new(e.view())),
            Expr::Logical(l, op, r) => ExprV::Logical(Box::new(l.view()), *op, Box::new(r.view())),
            Expr::Binary(l, op, r) => ExprV::Binary(Box::new(l.view()), *op, Box::new(r.view())),
            Expr::Unary(op, e) => ExprV::Unary(*op, Box::new(e.view())),
            Expr::Grouping(e) => ExprV::Grouping(Box::new(e.view())),
            Expr::Call(c, args) => ExprV::Call(Box::new(c.view()), view_exprs(args@)),
        }
    }
}

impl Stmt {
    pub open spec fn view(&self) -> StmtV
        decreases self,
    {
        match self {
            Stmt::Expression(e) => StmtV::Expression(e.view()),
            Stmt::VarDecl(n, e) => StmtV::VarDecl(n@, e.view()),
            Stmt::Block(body) => StmtV::Block(view_stmts(body@)),
            Stmt::If(c, t, e) => StmtV::If(
                c.view(),
                Box::new(t.view()),
                match e {
                    Some(s) => Some(Box::new(s.view())),
                    None => None,
                },
            ),
            Stmt::While(c, b) => StmtV::While(c.view(), Box::new(b.view())),
            Stmt::Function(n, params, body) => StmtV::Function(
                n@,
                view_names(params@),
                view_stmts(body@),
            ),
            Stmt::Return(e) => StmtV::Return(e.view()),
        }
    }
}

/// The shadows of a list of statements.
pub open spec fn view_stmts(stmts: Seq<Stmt>) -> Seq<StmtV>
    decreases stmts,
{
    if stmts.len() == 0 {
        Seq::empty()
    } else {
        seq![stmts[0].view()] + view_stmts(stmts.subrange(1, stmts.len() as int))
    }
}

/// The shadows of a list of expressions.
pub open spec fn view_exprs(exprs: Seq<Expr>) -> Seq<ExprV>
    decreases exprs,
{
    if exprs.len() == 0 {
        Seq::empty()
    } else {
        seq![exprs[0].view()] + view_exprs(exprs.subrange(1, exprs.len() as int))
    }
}

/// The shadows of a list of names.
pub open spec fn view_names(names: Seq<Vec<u8>>) -> Seq<Seq<u8>> {
    names.map_values(|p: Vec<u8>| p@)
}

/// `view_stmts`, element by element.
pub proof fn lemma_view_stmts(stmts: Seq<Stmt>)
    ensures
        view_stmts(stmts).len() == stmts.len(),
        forall|i: int| 0 <= i < stmts.len() ==> view_stmts(stmts)[i] == #[trigger] stmts[i].view(),
    decreases stmts,
{
    if stmts.len() > 0 {
        let rest = stmts.subrange(1, stmts.len() as int);
        lemma_view_stmts(rest);
        assert forall|i: int| 0 <= i < stmts.len() implies view_stmts(stmts)[i] == #[trigger] stmts[i].view() by {
            if i > 0 {
                assert(rest[i - 1] == stmts[i]);
                assert(view_stmts(stmts)[i] == view_stmts(rest)[i - 1]);
            }
        }
    }
}

/// `view_exprs`, element by element.
pub proof fn lemma_view_exprs(exprs: Seq<Expr>)
    ensures
        view_exprs(exprs).len() == exprs.len(),
        forall|i: int| 0 <= i < exprs.len() ==> view_exprs(exprs)[i] == #[trigger] exprs[i].view(),
    decreases exprs,
{
    if exprs.len() > 0 {
        let rest = exprs.subrange(1, exprs.len() as int);
        lemma_view_exprs(rest);
        assert forall|i: int| 0 <= i < exprs.len() implies view_exprs(exprs)[i] == #[trigger] exprs[i].view() by {
            if i > 0 {
                assert(rest[i - 1] == exprs[i]);
                assert(view_exprs(exprs)[i] == view_exprs(rest)[i - 1]);
            }
        }
    }
}

} // verus!
