//! The calling-convention intermediate language, the pipeline's final form.
//!
//! A call no longer "produces a value here": arguments travel through an
//! explicit argument stack ([`Stmt::Push`]), a call's result lives in the one
//! distinguished return slot ([`crate::shared::ast::Triv::Return`]), and a
//! function body is a tail expression — a tree whose every leaf is either a
//! tail [`Exp::Call`] (no frame growth, no return bookkeeping) or an
//! [`Exp::Return`] preceded by [`Stmt::ReturnSet`]. The grammar itself
//! guarantees the tail-position invariant: a block's statements stand before
//! its trailing expression, so no control path can continue past a terminal
//! call or return ([`tail_exp`], [`lemma_tail_exp`]).

use vstd::prelude::*;

use crate::shared::ast::{
    Op, SpecTriv, Triv, Var, render_op, render_triv, view_triv,
};
use vstd::string::StringExecFns;

verus! {

/// A tail expression: what remains of a function body.
#[derive(Debug, PartialEq, Eq)]
pub enum Exp {
    Call(Triv),
    Block(Vec<Stmt>, Box<Exp>),
    If(Triv, Box<Exp>, Box<Exp>),
    Return,
}

/// A straight-line statement.
#[derive(Debug, PartialEq, Eq)]
pub enum Stmt {
    LetBinop(Var, Triv, Op, Triv),
    Let(Var, Triv),
    If(Triv, Vec<Stmt>, Vec<Stmt>),
    Call(Triv),
    Push(Triv),
    ReturnSet(Triv),
}

/// Mathematical model of [`Exp`].
pub enum SpecExp {
    Call(SpecTriv),
    Block(Seq<SpecStmt>, Box<SpecExp>),
    If(SpecTriv, Box<SpecExp>, Box<SpecExp>),
    Return,
}

/// Mathematical model of [`Stmt`].
pub enum SpecStmt {
    LetBinop(Seq<char>, SpecTriv, Op, SpecTriv),
    Let(Seq<char>, SpecTriv),
    If(SpecTriv, Seq<SpecStmt>, Seq<SpecStmt>),
    Call(SpecTriv),
    Push(SpecTriv),
    ReturnSet(SpecTriv),
}

pub open spec fn view_exp(e: Exp) -> SpecExp
    decreases e,
{
    match e {
        Exp::Call(subject) => SpecExp::Call(view_triv(subject)),
        Exp::Block(stmts, body) => SpecExp::Block(view_stmts(stmts@), Box::new(view_exp(*body))),
        Exp::If(test, conseq, alt) => SpecExp::If(
            view_triv(test),
            Box::new(view_exp(*conseq)),
            Box::new(view_exp(*alt)),
        ),
        Exp::Return => SpecExp::Return,
    }
}

pub open spec fn view_stmt(s: Stmt) -> SpecStmt
    decreases s,
{
    match s {
        Stmt::LetBinop(x, lhs, op, rhs) => SpecStmt::LetBinop(
            x@,
            view_triv(lhs),
            op,
            view_triv(rhs),
        ),
        Stmt::Let(x, t) => SpecStmt::Let(x@, view_triv(t)),
        Stmt::If(test, conseq, alt) => SpecStmt::If(
            view_triv(test),
            view_stmts(conseq@),
            view_stmts(alt@),
        ),
        Stmt::Call(subject) => SpecStmt::Call(view_triv(subject)),
        Stmt::Push(t) => SpecStmt::Push(view_triv(t)),
        Stmt::ReturnSet(t) => SpecStmt::ReturnSet(view_triv(t)),
    }
}

pub open spec fn view_stmts(s: Seq<Stmt>) -> Seq<SpecStmt>
    decreases s,
{
    if s.len() == 0 {
        Seq::empty()
    } else {
        seq![view_stmt(s[0])] + view_stmts(s.subrange(1, s.len() as int))
    }
}

pub broadcast proof fn lemma_view_stmts(s: Seq<Stmt>)
    ensures
        (#[trigger] view_stmts(s)).len() == s.len(),
        forall|i: int| 0 <= i < s.len() ==> #[trigger] view_stmts(s)[i] == view_stmt(s[i]),
    decreases s,
{
    if s.len() > 0 {
        lemma_view_stmts(s.subrange(1, s.len() as int));
    }
}

pub broadcast proof fn lemma_view_stmts_push(s: Seq<Stmt>, x: Stmt)
    ensures
        #[trigger] view_stmts(s.push(x)) == view_stmts(s).push(view_stmt(x)),
{
    lemma_view_stmts(s);
    lemma_view_stmts(s.push(x));
    assert forall|i: int| 0 <= i < s.push(x).len() implies view_stmts(s.push(x))[i] == view_stmts(
        s,
    ).push(view_stmt(x))[i] by {
        if i < s.len() {
            assert(s.push(x)[i] == s[i]);
        } else {
            assert(s.push(x)[i] == x);
        }
    }
    assert(view_stmts(s.push(x)) =~= view_stmts(s).push(view_stmt(x)));
}

/// The tail-position invariant: every control path through a tail expression
/// that does not cross a non-tail call ends in a terminal — a tail call or a
/// return — and no statement follows the terminal (a block's statements
/// stand strictly before its trailing expression).
pub open spec fn tail_exp(e: SpecExp) -> bool
    decreases e,
{
    match e {
        SpecExp::Call(_) => true,
        SpecExp::Block(_, body) => tail_exp(*body),
        SpecExp::If(_, conseq, alt) => tail_exp(*conseq) && tail_exp(*alt),
        SpecExp::Return => true,
    }
}

/// The grammar of the calling-convention language admits no expression that
/// breaks the tail-position invariant: every leaf of a tail expression is a
/// tail call or a return.
pub broadcast proof fn lemma_tail_exp(e: SpecExp)
    ensures
        #[trigger] tail_exp(e),
    decreases e,
{
    match e {
        SpecExp::Block(_, body) => {
            lemma_tail_exp(*body);
        },
        SpecExp::If(_, conseq, alt) => {
            lemma_tail_exp(*conseq);
            lemma_tail_exp(*alt);
        },
        _ => {},
    }
}

/// Flatness: every block holds a nonempty statement list whose trailing
/// expression is not itself a block.
pub open spec fn flat_exp(e: SpecExp) -> bool
    decreases e,
{
    match e {
        SpecExp::Call(_) => true,
        SpecExp::Block(stmts, body) => stmts.len() > 0 && !(*body is Block) && flat_stmts(stmts)
            && flat_exp(*body),
        SpecExp::If(_, conseq, alt) => flat_exp(*conseq) && flat_exp(*alt),
        SpecExp::Return => true,
    }
}

pub open spec fn flat_stmt(s: SpecStmt) -> bool
    decreases s,
{
    match s {
        SpecStmt::If(_, conseq, alt) => flat_stmts(conseq) && flat_stmts(alt),
        _ => true,
    }
}

pub open spec fn flat_stmts(ss: Seq<SpecStmt>) -> bool
    decreases ss,
{
    if ss.len() == 0 {
        true
    } else {
        flat_stmt(ss[0]) && flat_stmts(ss.subrange(1, ss.len() as int))
    }
}

pub broadcast proof fn lemma_flat_stmts(ss: Seq<SpecStmt>)
    ensures
        #[trigger] flat_stmts(ss) <==> (forall|i: int| 0 <= i < ss.len() ==> flat_stmt(ss[i])),
    decreases ss,
{
    if ss.len() > 0 {
        let rest = ss.subrange(1, ss.len() as int);
        lemma_flat_stmts(rest);
        if flat_stmts(ss) {
            assert forall|i: int| 0 <= i < ss.len() implies flat_stmt(ss[i]) by {
                if i > 0 {
                    assert(rest[i - 1] == ss[i]);
                }
            }
        }
        if forall|i: int| 0 <= i < ss.len() ==> flat_stmt(ss[i]) {
            assert forall|i: int| 0 <= i < rest.len() implies flat_stmt(rest[i]) by {
                assert(rest[i] == ss[i + 1]);
            }
            assert(flat_stmts(rest));
        }
    }
}

/// The canonical parenthesized prefix text of a tail expression.
pub open spec fn render_exp(e: SpecExp) -> Seq<char>
    decreases e, 0int,
{
    match e {
        SpecExp::Call(t) => "("@ + render_triv(t) + ")"@,
        SpecExp::Block(stmts, last) => "(begin "@ + render_stmts_spaced(stmts) + render_exp(
            *last,
        ) + ")"@,
        SpecExp::If(t, conseq, alt) => "(if "@ + render_triv(t) + " "@ + render_exp(*conseq)
            + " "@ + render_exp(*alt) + ")"@,
        SpecExp::Return => "(return)"@,
    }
}

/// The canonical parenthesized prefix text of a statement.
pub open spec fn render_stmt(s: SpecStmt) -> Seq<char>
    decreases s, 0int,
{
    match s {
        SpecStmt::LetBinop(x, lhs, op, rhs) => "(set! "@ + x + " ("@ + render_op(op) + " "@
            + render_triv(lhs) + " "@ + render_triv(rhs) + "))"@,
        SpecStmt::Let(x, t) => "(set! "@ + x + " "@ + render_triv(t) + ")"@,
        SpecStmt::If(t, conseq, alt) => "(if "@ + render_triv(t) + " "@ + render_stmts_spaced(
            conseq,
        ) + render_stmts_spaced(alt) + ")"@,
        SpecStmt::Call(t) => "("@ + render_triv(t) + ")"@,
        SpecStmt::Push(t) => "(push! "@ + render_triv(t) + ")"@,
        SpecStmt::ReturnSet(t) => "(return-set! "@ + render_triv(t) + ")"@,
    }
}

/// The texts of a statement list, each statement followed by one space.
pub open spec fn render_stmts_spaced(ss: Seq<SpecStmt>) -> Seq<char>
    decreases ss, 1int,
{
    if ss.len() == 0 {
        Seq::empty()
    } else {
        render_stmt(ss[0]) + " "@ + render_stmts_spaced(ss.subrange(1, ss.len() as int))
    }
}

impl Exp {
    /// The canonical parenthesized prefix text of this tail expression.
    pub fn render(&self) -> (r: String)
        ensures
            r@ == render_exp(view_exp(*self)),
        decreases self, 0int,
    {
        match self {
            Exp::Call(t) => {
                let mut s = String::from_str("(");
                s.append(t.render().as_str());
                s.append(")");
                s
            },
            Exp::Block(stmts, last) => {
                let mut s = String::from_str("(begin ");
                s.append(render_stmts_spaced_from(stmts, 0).as_str());
                s.append(last.render().as_str());
                s.append(")");
                proof {
                    lemma_view_stmts(stmts@);
                    assert(view_stmts(stmts@).subrange(0, stmts@.len() as int) =~= view_stmts(
                        stmts@,
                    ));
                }
                s
            },
            Exp::If(t, conseq, alt) => {
                let mut s = String::from_str("(if ");
                s.append(t.render().as_str());
                s.append(" ");
                s.append(conseq.render().as_str());
                s.append(" ");
                s.append(alt.render().as_str());
                s.append(")");
                s
            },
            Exp::Return => String::from_str("(return)"),
        }
    }
}

impl Stmt {
    /// The canonical parenthesized prefix text of this statement.
    pub fn render(&self) -> (r: String)
        ensures
            r@ == render_stmt(view_stmt(*self)),
        decreases self, 0int,
    {
        match self {
            Stmt::LetBinop(x, lhs, op, rhs) => {
                let mut s = String::from_str("(set! ");
                s.append(x.as_str());
                s.append(" (");
                s.append(op.render());
                s.append(" ");
                s.append(lhs.render().as_str());
                s.append(" ");
                s.append(rhs.render().as_str());
                s.append("))");
                s
            },
            Stmt::Let(x, t) => {
                let mut s = String::from_str("(set! ");
                s.append(x.as_str());
                s.append(" ");
                s.append(t.render().as_str());
                s.append(")");
                s
            },
            Stmt::If(t, conseq, alt) => {
                let mut s = String::from_str("(if ");
                s.append(t.render().as_str());
                s.append(" ");
                s.append(render_stmts_spaced_from(conseq, 0).as_str());
                s.append(render_stmts_spaced_from(alt, 0).as_str());
                s.append(")");
                proof {
                    lemma_view_stmts(conseq@);
                    lemma_view_stmts(alt@);
                    assert(view_stmts(conseq@).subrange(0, conseq@.len() as int) =~= view_stmts(
                        conseq@,
                    ));
                    assert(view_stmts(alt@).subrange(0, alt@.len() as int) =~= view_stmts(alt@));
                }
                s
            },
            Stmt::Call(t) => {
                let mut s = String::from_str("(");
                s.append(t.render().as_str());
                s.append(")");
                s
            },
            Stmt::Push(t) => {
                let mut s = String::from_str("(push! ");
                s.append(t.render().as_str());
                s.append(")");
                s
            },
            Stmt::ReturnSet(t) => {
                let mut s = String::from_str("(return-set! ");
                s.append(t.render().as_str());
                s.append(")");
                s
            },
        }
    }
}

/// Render the statements of `ss` from position `from` on, each followed by
/// one space.
fn render_stmts_spaced_from(ss: &Vec<Stmt>, from: usize) -> (r: String)
    requires
        from <= ss@.len(),
    ensures
        r@ == render_stmts_spaced(view_stmts(ss@).subrange(from as int, ss@.len() as int)),
    decreases ss@, ss@.len() - from,
{
    proof {
        lemma_view_stmts(ss@);
    }
    if from == ss.len() {
        proof {
            assert(view_stmts(ss@).subrange(from as int, ss@.len() as int)
                =~= Seq::<SpecStmt>::empty());
        }
        String::new()
    } else {
        let stmt = &ss[from];
        proof {
            assert(decreases_to!(ss@ => ss@[from as int]));
        }
        let mut s = stmt.render();
        s.append(" ");
        s.append(render_stmts_spaced_from(ss, from + 1).as_str());
        proof {
            let suffix = view_stmts(ss@).subrange(from as int, ss@.len() as int);
            assert(suffix[0] == view_stmt(ss@[from as int]));
            assert(suffix.subrange(1, suffix.len() as int) =~= view_stmts(ss@).subrange(
                from + 1,
                ss@.len() as int,
            ));
        }
        s
    }
}

} // verus!
