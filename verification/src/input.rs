//! The surface intermediate language: the program as originally constructed,
//! with arbitrarily nested expressions anywhere a sub-expression is expected.
//! This language is pure data; it has no well-formedness constraints beyond
//! being a finite tree, and no operations beyond construction and structural
//! equality. Arbitrary nesting is exactly what value simplification removes.

use vstd::prelude::*;

use crate::shared::ast::{Op, Value, Var};

verus! {

/// A surface expression.
#[derive(Debug, PartialEq, Eq)]
pub enum Exp {
    Call(Box<Exp>, Vec<Exp>),
    Block(Vec<Stmt>, Box<Exp>),
    Binop(Box<Exp>, Op, Box<Exp>),
    If(Box<Exp>, Box<Exp>, Box<Exp>),
    Value(Value),
    Var(Var),
}

/// A surface statement: evaluate for effect, or bind a name.
#[derive(Debug, PartialEq, Eq)]
pub enum Stmt {
    Exp(Box<Exp>),
    Let(Var, Box<Exp>),
}

/// Mathematical model of [`Exp`].
pub enum SpecExp {
    Call(Box<SpecExp>, Seq<SpecExp>),
    Block(Seq<SpecStmt>, Box<SpecExp>),
    Binop(Box<SpecExp>, Op, Box<SpecExp>),
    If(Box<SpecExp>, Box<SpecExp>, Box<SpecExp>),
    Value(Value),
    Var(Seq<char>),
}

/// Mathematical model of [`Stmt`].
pub enum SpecStmt {
    Exp(Box<SpecExp>),
    Let(Seq<char>, Box<SpecExp>),
}

pub open spec fn view_exp(e: Exp) -> SpecExp
    decreases e,
{
    match e {
        Exp::Call(subject, args) => SpecExp::Call(
            Box::new(view_exp(*subject)),
            view_exps(args@),
        ),
        Exp::Block(stmts, body) => SpecExp::Block(view_stmts(stmts@), Box::new(view_exp(*body))),
        Exp::Binop(lhs, op, rhs) => SpecExp::Binop(
            Box::new(view_exp(*lhs)),
            op,
            Box::new(view_exp(*rhs)),
        ),
        Exp::If(test, conseq, alt) => SpecExp::If(
            Box::new(view_exp(*test)),
            Box::new(view_exp(*conseq)),
            Box::new(view_exp(*alt)),
        ),
        Exp::Value(v) => SpecExp::Value(v),
        Exp::Var(x) => SpecExp::Var(x@),
    }
}

pub open spec fn view_exps(s: Seq<Exp>) -> Seq<SpecExp>
    decreases s,
{
    if s.len() == 0 {
        Seq::empty()
    } else {
        seq![view_exp(s[0])] + view_exps(s.subrange(1, s.len() as int))
    }
}

pub open spec fn view_stmt(s: Stmt) -> SpecStmt
    decreases s,
{
    match s {
        Stmt::Exp(e) => SpecStmt::Exp(Box::new(view_exp(*e))),
        Stmt::Let(x, e) => SpecStmt::Let(x@, Box::new(view_exp(*e))),
    }
}

pub open spec fn view_stmts(s: Seq<Stmt>) -> Seq<SpecStmt>
    decreases s,
{
    if s.len() == 0 {
        Seq::empty()
    } else {
        seq![view_stmt(s[0])] + view_stmts(s.subrange(1, s.len() as int))
    }
}

pub broadcast proof fn lemma_view_exps(s: Seq<Exp>)
    ensures
        (#[trigger] view_exps(s)).len() == s.len(),
        forall|i: int| 0 <= i < s.len() ==> #[trigger] view_exps(s)[i] == view_exp(s[i]),
    decreases s,
{
    if s.len() > 0 {
        lemma_view_exps(s.subrange(1, s.len() as int));
    }
}

pub broadcast proof fn lemma_view_stmts(s: Seq<Stmt>)
    ensures
        (#[trigger] view_stmts(s)).len() == s.len(),
        forall|i: int| 0 <= i < s.len() ==> #[trigger] view_stmts(s)[i] == view_stmt(s[i]),
    decreases s,
{
    if s.len() > 0 {
        lemma_view_stmts(s.subrange(1, s.len() as int));
    }
}

/// A literal constant expression.
pub fn value(n: u8) -> (r: Box<Exp>)
    ensures
        view_exp(*r) == SpecExp::Value(Value::Int(n)),
{
    Box::new(Exp::Value(Value::Int(n)))
}

/// A variable reference.
pub fn var(x: &str) -> (r: Box<Exp>)
    ensures
        view_exp(*r) == SpecExp::Var(x@),
{
    Box::new(Exp::Var(x.to_owned()))
}

/// An addition.
pub fn add(lhs: Box<Exp>, rhs: Box<Exp>) -> (r: Box<Exp>)
    ensures
        view_exp(*r) == SpecExp::Binop(
            Box::new(view_exp(*lhs)),
            Op::Add,
            Box::new(view_exp(*rhs)),
        ),
{
    Box::new(Exp::Binop(lhs, Op::Add, rhs))
}

/// A subtraction.
pub fn sub(lhs: Box<Exp>, rhs: Box<Exp>) -> (r: Box<Exp>)
    ensures
        view_exp(*r) == SpecExp::Binop(
            Box::new(view_exp(*lhs)),
            Op::Sub,
            Box::new(view_exp(*rhs)),
        ),
{
    Box::new(Exp::Binop(lhs, Op::Sub, rhs))
}

/// An equality comparison.
pub fn eq(lhs: Box<Exp>, rhs: Box<Exp>) -> (r: Box<Exp>)
    ensures
        view_exp(*r) == SpecExp::Binop(
            Box::new(view_exp(*lhs)),
            Op::Eq,
            Box::new(view_exp(*rhs)),
        ),
{
    Box::new(Exp::Binop(lhs, Op::Eq, rhs))
}

/// A call of `subject` on `args`.
pub fn call(subject: Box<Exp>, args: Vec<Exp>) -> (r: Box<Exp>)
    ensures
        view_exp(*r) == SpecExp::Call(Box::new(view_exp(*subject)), view_exps(args@)),
{
    Box::new(Exp::Call(subject, args))
}

/// A single binding followed by a body.
pub fn let_(name: &str, rhs: Box<Exp>, body: Box<Exp>) -> (r: Box<Exp>)
    ensures
        view_exp(*r) == SpecExp::Block(
            seq![SpecStmt::Let(name@, Box::new(view_exp(*rhs)))],
            Box::new(view_exp(*body)),
        ),
{
    let stmts = vec![Stmt::Let(name.to_owned(), rhs)];
    proof {
        lemma_view_stmts(stmts@);
        assert(view_stmts(stmts@) =~= seq![view_stmt(stmts@[0])]);
    }
    Box::new(Exp::Block(stmts, body))
}

/// A conditional expression.
pub fn if_(test: Box<Exp>, conseq: Box<Exp>, alt: Box<Exp>) -> (r: Box<Exp>)
    ensures
        view_exp(*r) == SpecExp::If(
            Box::new(view_exp(*test)),
            Box::new(view_exp(*conseq)),
            Box::new(view_exp(*alt)),
        ),
{
    Box::new(Exp::If(test, conseq, alt))
}

} // verus!
