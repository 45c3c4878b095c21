//! The context-normalized intermediate language. The grammar splits into
//! three disjoint syntactic roles, so every expression occurs only in the
//! role its use requires:
//!
//! - [`Exp`]: value expressions, which produce a usable result; their binary
//!   operations are meant to be arithmetic only,
//! - [`Pred`]: predicate expressions, used only to steer control flow; their
//!   comparisons ([`Pred::Relop`]) are meant to be relational only,
//! - [`Stmt`]: effect statements, executed and discarded.
//!
//! A value expression can never stand directly in predicate position: the
//! grammar has no embedding of [`Exp`] into [`Pred`] other than through a
//! relational test on trivial terms. The operator restrictions are stated by
//! [`sep_exp`] and companions and proved of everything the normalization
//! pass emits.

use vstd::prelude::*;

use crate::ast::{SpecTriv, Triv, render_triv, view_triv, view_trivs};
use crate::shared::ast::{Op, Var, render_op};
use vstd::string::StringExecFns;

verus! {

/// A value expression.
#[derive(Debug, PartialEq, Eq)]
pub enum Exp {
    Call(Triv, Vec<Triv>),
    Block(Vec<Stmt>, Box<Exp>),
    Binop(Triv, Op, Triv),
    If(Box<Pred>, Box<Exp>, Box<Exp>),
    Triv(Triv),
}

/// A predicate expression: steers control flow, never produces a value.
#[derive(Debug, PartialEq, Eq)]
pub enum Pred {
    Call(Triv, Vec<Triv>),
    Relop(Triv, Op, Triv),
    If(Box<Pred>, Box<Pred>, Box<Pred>),
    Block(Vec<Stmt>, Box<Pred>),
    True,
    False,
}

/// An effect statement.
#[derive(Debug, PartialEq, Eq)]
pub enum Stmt {
    Exp(Box<Exp>),
    Let(Var, Box<Exp>),
    If(Box<Pred>, Vec<Stmt>, Vec<Stmt>),
}

/// Mathematical model of [`Exp`].
pub enum SpecExp {
    Call(SpecTriv, Seq<SpecTriv>),
    Block(Seq<SpecStmt>, Box<SpecExp>),
    Binop(SpecTriv, Op, SpecTriv),
    If(Box<SpecPred>, Box<SpecExp>, Box<SpecExp>),
    Triv(SpecTriv),
}

/// Mathematical model of [`Pred`].
pub enum SpecPred {
    Call(SpecTriv, Seq<SpecTriv>),
    Relop(SpecTriv, Op, SpecTriv),
    If(Box<SpecPred>, Box<SpecPred>, Box<SpecPred>),
    Block(Seq<SpecStmt>, Box<SpecPred>),
    True,
    False,
}

/// Mathematical model of [`Stmt`].
pub enum SpecStmt {
    Exp(Box<SpecExp>),
    Let(Seq<char>, Box<SpecExp>),
    If(Box<SpecPred>, Seq<SpecStmt>, Seq<SpecStmt>),
}

pub open spec fn view_exp(e: Exp) -> SpecExp
    decreases e,
{
    match e {
        Exp::Call(subject, args) => SpecExp::Call(view_triv(subject), view_trivs(args@)),
        Exp::Block(stmts, body) => SpecExp::Block(view_stmts(stmts@), Box::new(view_exp(*body))),
        Exp::Binop(lhs, op, rhs) => SpecExp::Binop(view_triv(lhs), op, view_triv(rhs)),
        Exp::If(test, conseq, alt) => SpecExp::If(
            Box::new(view_pred(*test)),
            Box::new(view_exp(*conseq)),
            Box::new(view_exp(*alt)),
        ),
        Exp::Triv(t) => SpecExp::Triv(view_triv(t)),
    }
}

pub open spec fn view_pred(p: Pred) -> SpecPred
    decreases p,
{
    match p {
        Pred::Call(subject, args) => SpecPred::Call(view_triv(subject), view_trivs(args@)),
        Pred::Relop(lhs, op, rhs) => SpecPred::Relop(view_triv(lhs), op, view_triv(rhs)),
        Pred::If(test, conseq, alt) => SpecPred::If(
            Box::new(view_pred(*test)),
            Box::new(view_pred(*conseq)),
            Box::new(view_pred(*alt)),
        ),
        Pred::Block(stmts, body) => SpecPred::Block(
            view_stmts(stmts@),
            Box::new(view_pred(*body)),
        ),
        Pred::True => SpecPred::True,
        Pred::False => SpecPred::False,
    }
}

pub open spec fn view_stmt(s: Stmt) -> SpecStmt
    decreases s,
{
    match s {
        Stmt::Exp(e) => SpecStmt::Exp(Box::new(view_exp(*e))),
        Stmt::Let(x, e) => SpecStmt::Let(x@, Box::new(view_exp(*e))),
        Stmt::If(test, conseq, alt) => SpecStmt::If(
            Box::new(view_pred(*test)),
            view_stmts(conseq@),
            view_stmts(alt@),
        ),
    }
}

pub open spec fn view_stmts(s: Seq<Stmt>) -> Seq<SpecStmt>
    decreases s,
{
    if s.len() == 0 {
        Seq::empty()
    } else {
        seq![view_stmt(s[0])] + view_stmts(s.subrange(1, s.len() as int))
    }
}

pub broadcast proof fn lemma_view_stmts(s: Seq<Stmt>)
    ensures
        (#[trigger] view_stmts(s)).len() == s.len(),
        forall|i: int| 0 <= i < s.len() ==> #[trigger] view_stmts(s)[i] == view_stmt(s[i]),
    decreases s,
{
    if s.len() > 0 {
        lemma_view_stmts(s.subrange(1, s.len() as int));
    }
}

pub broadcast proof fn lemma_view_stmts_push(s: Seq<Stmt>, x: Stmt)
    ensures
        #[trigger] view_stmts(s.push(x)) == view_stmts(s).push(view_stmt(x)),
{
    lemma_view_stmts(s);
    lemma_view_stmts(s.push(x));
    assert forall|i: int| 0 <= i < s.push(x).len() implies view_stmts(s.push(x))[i] == view_stmts(
        s,
    ).push(view_stmt(x))[i] by {
        if i < s.len() {
            assert(s.push(x)[i] == s[i]);
        } else {
            assert(s.push(x)[i] == x);
        }
    }
    assert(view_stmts(s.push(x)) =~= view_stmts(s).push(view_stmt(x)));
}

/// Context separation of a value expression: every binary operation in value
/// position is arithmetic, and every relational test anywhere below is
/// relational.
pub open spec fn sep_exp(e: SpecExp) -> bool
    decreases e,
{
    match e {
        SpecExp::Call(_, _) => true,
        SpecExp::Block(stmts, body) => sep_stmts(stmts) && sep_exp(*body),
        SpecExp::Binop(_, op, _) => op.is_arith(),
        SpecExp::If(test, conseq, alt) => sep_pred(*test) && sep_exp(*conseq) && sep_exp(*alt),
        SpecExp::Triv(_) => true,
    }
}

/// Context separation of a predicate: every comparison is relational, and
/// every value expression below it is separated.
pub open spec fn sep_pred(p: SpecPred) -> bool
    decreases p,
{
    match p {
        SpecPred::Call(_, _) => true,
        SpecPred::Relop(_, op, _) => op.is_relational(),
        SpecPred::If(test, conseq, alt) => sep_pred(*test) && sep_pred(*conseq) && sep_pred(*alt),
        SpecPred::Block(stmts, body) => sep_stmts(stmts) && sep_pred(*body),
        SpecPred::True => true,
        SpecPred::False => true,
    }
}

pub open spec fn sep_stmt(s: SpecStmt) -> bool
    decreases s,
{
    match s {
        SpecStmt::Exp(e) => sep_exp(*e),
        SpecStmt::Let(_, e) => sep_exp(*e),
        SpecStmt::If(test, conseq, alt) => sep_pred(*test) && sep_stmts(conseq) && sep_stmts(alt),
    }
}

pub open spec fn sep_stmts(ss: Seq<SpecStmt>) -> bool
    decreases ss,
{
    if ss.len() == 0 {
        true
    } else {
        sep_stmt(ss[0]) && sep_stmts(ss.subrange(1, ss.len() as int))
    }
}

/// Flatness: every block holds a nonempty statement list whose trailing form
/// is not itself a block, and no statement holds a bare block.
pub open spec fn flat_exp(e: SpecExp) -> bool
    decreases e,
{
    match e {
        SpecExp::Call(_, _) => true,
        SpecExp::Block(stmts, body) => stmts.len() > 0 && !(*body is Block) && flat_stmts(stmts)
            && flat_exp(*body),
        SpecExp::Binop(_, _, _) => true,
        SpecExp::If(test, conseq, alt) => flat_pred(*test) && flat_exp(*conseq) && flat_exp(*alt),
        SpecExp::Triv(_) => true,
    }
}

pub open spec fn flat_pred(p: SpecPred) -> bool
    decreases p,
{
    match p {
        SpecPred::Call(_, _) => true,
        SpecPred::Relop(_, _, _) => true,
        SpecPred::If(test, conseq, alt) => flat_pred(*test) && flat_pred(*conseq) && flat_pred(
            *alt,
        ),
        SpecPred::Block(stmts, body) => stmts.len() > 0 && !(*body is Block) && flat_stmts(stmts)
            && flat_pred(*body),
        SpecPred::True => true,
        SpecPred::False => true,
    }
}

pub open spec fn flat_stmt(s: SpecStmt) -> bool
    decreases s,
{
    match s {
        SpecStmt::Exp(e) => !(*e is Block) && flat_exp(*e),
        SpecStmt::Let(_, e) => !(*e is Block) && flat_exp(*e),
        SpecStmt::If(test, conseq, alt) => flat_pred(*test) && flat_stmts(conseq) && flat_stmts(
            alt,
        ),
    }
}

pub open spec fn flat_stmts(ss: Seq<SpecStmt>) -> bool
    decreases ss,
{
    if ss.len() == 0 {
        true
    } else {
        flat_stmt(ss[0]) && flat_stmts(ss.subrange(1, ss.len() as int))
    }
}

pub broadcast proof fn lemma_sep_stmts(ss: Seq<SpecStmt>)
    ensures
        #[trigger] sep_stmts(ss) <==> (forall|i: int| 0 <= i < ss.len() ==> sep_stmt(ss[i])),
    decreases ss,
{
    if ss.len() > 0 {
        let rest = ss.subrange(1, ss.len() as int);
        lemma_sep_stmts(rest);
        if sep_stmts(ss) {
            assert forall|i: int| 0 <= i < ss.len() implies sep_stmt(ss[i]) by {
                if i > 0 {
                    assert(rest[i - 1] == ss[i]);
                }
            }
        }
        if forall|i: int| 0 <= i < ss.len() ==> sep_stmt(ss[i]) {
            assert forall|i: int| 0 <= i < rest.len() implies sep_stmt(rest[i]) by {
                assert(rest[i] == ss[i + 1]);
            }
            assert(sep_stmts(rest));
        }
    }
}

pub broadcast proof fn lemma_flat_stmts(ss: Seq<SpecStmt>)
    ensures
        #[trigger] flat_stmts(ss) <==> (forall|i: int| 0 <= i < ss.len() ==> flat_stmt(ss[i])),
    decreases ss,
{
    if ss.len() > 0 {
        let rest = ss.subrange(1, ss.len() as int);
        lemma_flat_stmts(rest);
        if flat_stmts(ss) {
            assert forall|i: int| 0 <= i < ss.len() implies flat_stmt(ss[i]) by {
                if i > 0 {
                    assert(rest[i - 1] == ss[i]);
                }
            }
        }
        if forall|i: int| 0 <= i < ss.len() ==> flat_stmt(ss[i]) {
            assert forall|i: int| 0 <= i < rest.len() implies flat_stmt(rest[i]) by {
                assert(rest[i] == ss[i + 1]);
            }
            assert(flat_stmts(rest));
        }
    }
}

/// The texts of a list of trivial terms, each preceded by one space.
pub open spec fn render_trivs_prefixed(ts: Seq<SpecTriv>) -> Seq<char>
    decreases ts,
{
    if ts.len() == 0 {
        Seq::empty()
    } else {
        " "@ + render_triv(ts[0]) + render_trivs_prefixed(ts.subrange(1, ts.len() as int))
    }
}

/// The canonical parenthesized prefix text of a value expression.
pub open spec fn render_exp(e: SpecExp) -> Seq<char>
    decreases e, 0int,
{
    match e {
        SpecExp::Call(subject, args) => "("@ + render_triv(subject) + render_trivs_prefixed(args)
            + ")"@,
        SpecExp::Block(stmts, last) => "(begin "@ + render_stmts_spaced(stmts) + render_exp(
            *last,
        ) + ")"@,
        SpecExp::Binop(lhs, op, rhs) => "("@ + render_op(op) + " "@ + render_triv(lhs) + " "@
            + render_triv(rhs) + ")"@,
        SpecExp::If(test, conseq, alt) => "(if "@ + render_pred(*test) + " "@ + render_exp(
            *conseq,
        ) + " "@ + render_exp(*alt) + ")"@,
        SpecExp::Triv(t) => render_triv(t),
    }
}

/// The canonical parenthesized prefix text of a predicate.
pub open spec fn render_pred(p: SpecPred) -> Seq<char>
    decreases p, 0int,
{
    match p {
        SpecPred::Call(subject, args) => "("@ + render_triv(subject) + render_trivs_prefixed(
            args,
        ) + ")"@,
        SpecPred::Relop(lhs, op, rhs) => "("@ + render_op(op) + " "@ + render_triv(lhs) + " "@
            + render_triv(rhs) + ")"@,
        SpecPred::If(test, conseq, alt) => "(if "@ + render_pred(*test) + " "@ + render_pred(
            *conseq,
        ) + " "@ + render_pred(*alt) + ")"@,
        SpecPred::Block(stmts, last) => "(begin "@ + render_stmts_spaced(stmts) + render_pred(
            *last,
        ) + ")"@,
        SpecPred::True => "TRUE"@,
        SpecPred::False => "FALSE"@,
    }
}

/// The canonical parenthesized prefix text of an effect statement.
pub open spec fn render_stmt(s: SpecStmt) -> Seq<char>
    decreases s, 1int,
{
    match s {
        SpecStmt::Exp(e) => render_exp(*e),
        SpecStmt::Let(x, e) => "(set! "@ + x + " "@ + render_exp(*e) + ")"@,
        SpecStmt::If(test, conseq, alt) => "(if "@ + render_pred(*test) + " "@
            + render_stmts_spaced(conseq) + render_stmts_spaced(alt) + ")"@,
    }
}

/// The texts of a statement list, each statement followed by one space.
pub open spec fn render_stmts_spaced(ss: Seq<SpecStmt>) -> Seq<char>
    decreases ss, 2int,
{
    if ss.len() == 0 {
        Seq::empty()
    } else {
        render_stmt(ss[0]) + " "@ + render_stmts_spaced(ss.subrange(1, ss.len() as int))
    }
}

impl Exp {
    /// The canonical parenthesized prefix text of this value expression.
    pub fn render(&self) -> (r: String)
        ensures
            r@ == render_exp(view_exp(*self)),
        decreases self, 0int,
    {
        match self {
            Exp::Call(subject, args) => {
                let mut s = String::from_str("(");
                s.append(subject.render().as_str());
                s.append(render_trivs_prefixed_from(args, 0).as_str());
                s.append(")");
                proof {
                    crate::ast::lemma_view_trivs(args@);
                    assert(view_trivs(args@).subrange(0, args@.len() as int) =~= view_trivs(
                        args@,
                    ));
                }
                s
            },
            Exp::Block(stmts, last) => {
                let mut s = String::from_str("(begin ");
                s.append(render_stmts_spaced_from(stmts, 0).as_str());
                s.append(last.render().as_str());
                s.append(")");
                proof {
                    lemma_view_stmts(stmts@);
                    assert(view_stmts(stmts@).subrange(0, stmts@.len() as int) =~= view_stmts(
                        stmts@,
                    ));
                }
                s
            },
            Exp::Binop(lhs, op, rhs) => {
                let mut s = String::from_str("(");
                s.append(op.render());
                s.append(" ");
                s.append(lhs.render().as_str());
                s.append(" ");
                s.append(rhs.render().as_str());
                s.append(")");
                s
            },
            Exp::If(test, conseq, alt) => {
                let mut s = String::from_str("(if ");
                s.append(test.render().as_str());
                s.append(" ");
                s.append(conseq.render().as_str());
                s.append(" ");
                s.append(alt.render().as_str());
                s.append(")");
                s
            },
            Exp::Triv(t) => t.render(),
        }
    }
}

impl Pred {
    /// The canonical parenthesized prefix text of this predicate.
    pub fn render(&self) -> (r: String)
        ensures
            r@ == render_pred(view_pred(*self)),
        decreases self, 0int,
    {
        match self {
            Pred::Call(subject, args) => {
                let mut s = String::from_str("(");
                s.append(subject.render().as_str());
                s.append(render_trivs_prefixed_from(args, 0).as_str());
                s.append(")");
                proof {
                    crate::ast::lemma_view_trivs(args@);
                    assert(view_trivs(args@).subrange(0, args@.len() as int) =~= view_trivs(
                        args@,
                    ));
                }
                s
            },
            Pred::Relop(lhs, op, rhs) => {
                let mut s = String::from_str("(");
                s.append(op.render());
                s.append(" ");
                s.append(lhs.render().as_str());
                s.append(" ");
                s.append(rhs.render().as_str());
                s.append(")");
                s
            },
            Pred::If(test, conseq, alt) => {
                let mut s = String::from_str("(if ");
                s.append(test.render().as_str());
                s.append(" ");
                s.append(conseq.render().as_str());
                s.append(" ");
                s.append(alt.render().as_str());
                s.append(")");
                s
            },
            Pred::Block(stmts, last) => {
                let mut s = String::from_str("(begin ");
                s.append(render_stmts_spaced_from(stmts, 0).as_str());
                s.append(last.render().as_str());
                s.append(")");
                proof {
                    lemma_view_stmts(stmts@);
                    assert(view_stmts(stmts@).subrange(0, stmts@.len() as int) =~= view_stmts(
                        stmts@,
                    ));
                }
                s
            },
            Pred::True => String::from_str("TRUE"),
            Pred::False => String::from_str("FALSE"),
        }
    }
}

impl Stmt {
    /// The canonical parenthesized prefix text of this effect statement.
    pub fn render(&self) -> (r: String)
        ensures
            r@ == render_stmt(view_stmt(*self)),
        decreases self, 1int,
    {
        match self {
            Stmt::Exp(e) => e.render(),
            Stmt::Let(x, e) => {
                let mut s = String::from_str("(set! ");
                s.append(x.as_str());
                s.append(" ");
                s.append(e.render().as_str());
                s.append(")");
                s
            },
            Stmt::If(test, conseq, alt) => {
                let mut s = String::from_str("(if ");
                s.append(test.render().as_str());
                s.append(" ");
                s.append(render_stmts_spaced_from(conseq, 0).as_str());
                s.append(render_stmts_spaced_from(alt, 0).as_str());
                s.append(")");
                proof {
                    lemma_view_stmts(conseq@);
                    lemma_view_stmts(alt@);
                    assert(view_stmts(conseq@).subrange(0, conseq@.len() as int) =~= view_stmts(
                        conseq@,
                    ));
                    assert(view_stmts(alt@).subrange(0, alt@.len() as int) =~= view_stmts(alt@));
                }
                s
            },
        }
    }
}

fn render_trivs_prefixed_from(ts: &Vec<Triv>, from: usize) -> (r: String)
    requires
        from <= ts@.len(),
    ensures
        r@ == render_trivs_prefixed(view_trivs(ts@).subrange(from as int, ts@.len() as int)),
    decreases ts@.len() - from,
{
    proof {
        crate::ast::lemma_view_trivs(ts@);
    }
    if from == ts.len() {
        proof {
            assert(view_trivs(ts@).subrange(from as int, ts@.len() as int)
                =~= Seq::<SpecTriv>::empty());
        }
        String::new()
    } else {
        let mut s = String::from_str(" ");
        s.append(ts[from].render().as_str());
        s.append(render_trivs_prefixed_from(ts, from + 1).as_str());
        proof {
            let suffix = view_trivs(ts@).subrange(from as int, ts@.len() as int);
            assert(suffix[0] == view_triv(ts@[from as int]));
            assert(suffix.subrange(1, suffix.len() as int) =~= view_trivs(ts@).subrange(
                from + 1,
                ts@.len() as int,
            ));
        }
        s
    }
}

fn render_stmts_spaced_from(ss: &Vec<Stmt>, from: usize) -> (r: String)
    requires
        from <= ss@.len(),
    ensures
        r@ == render_stmts_spaced(view_stmts(ss@).subrange(from as int, ss@.len() as int)),
    decreases ss@, ss@.len() - from,
{
    proof {
        lemma_view_stmts(ss@);
    }
    if from == ss.len() {
        proof {
            assert(view_stmts(ss@).subrange(from as int, ss@.len() as int)
                =~= Seq::<SpecStmt>::empty());
        }
        String::new()
    } else {
        let stmt = &ss[from];
        proof {
            assert(decreases_to!(ss@ => ss@[from as int]));
        }
        let mut s = stmt.render();
        s.append(" ");
        s.append(render_stmts_spaced_from(ss, from + 1).as_str());
        proof {
            let suffix = view_stmts(ss@).subrange(from as int, ss@.len() as int);
            assert(suffix[0] == view_stmt(ss@[from as int]));
            assert(suffix.subrange(1, suffix.len() as int) =~= view_stmts(ss@).subrange(
                from + 1,
                ss@.len() as int,
            ));
        }
        s
    }
}

} // verus!
