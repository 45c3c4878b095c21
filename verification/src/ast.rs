//! The administrative-normal-form (ANF) intermediate language, the output of
//! value simplification. Every operand of a call or a binary operation and
//! every conditional test has type [`Triv`], so the trivialization invariant
//! — no compound expression in any operand position — holds by construction
//! of the grammar. What remains to be stated separately is flatness: blocks
//! are never redundantly wrapped (see [`flat_exp`]).

use vstd::prelude::*;

use crate::shared::ast::{Op, Value, Var, render_op, render_value};
use vstd::string::StringExecFns;

verus! {

/// A trivial term of the middle languages: a literal or a variable
/// reference. It performs no computation and has no side effect when
/// evaluated. (The return-slot case exists only from calling-convention
/// introduction onward and is therefore absent here.)
#[derive(Debug, PartialEq, Eq)]
pub enum Triv {
    Value(Value),
    Var(Var),
}

/// An ANF expression.
#[derive(Debug, PartialEq, Eq)]
pub enum Exp {
    Call(Triv, Vec<Triv>),
    Block(Vec<Stmt>, Box<Exp>),
    Binop(Triv, Op, Triv),
    If(Triv, Box<Exp>, Box<Exp>),
    Triv(Triv),
}

/// An ANF statement: evaluate for effect, or bind a name.
#[derive(Debug, PartialEq, Eq)]
pub enum Stmt {
    Exp(Box<Exp>),
    Let(Var, Box<Exp>),
}

/// Mathematical model of [`Triv`].
pub enum SpecTriv {
    Value(Value),
    Var(Seq<char>),
}

/// Mathematical model of [`Exp`].
pub enum SpecExp {
    Call(SpecTriv, Seq<SpecTriv>),
    Block(Seq<SpecStmt>, Box<SpecExp>),
    Binop(SpecTriv, Op, SpecTriv),
    If(SpecTriv, Box<SpecExp>, Box<SpecExp>),
    Triv(SpecTriv),
}

/// Mathematical model of [`Stmt`].
pub enum SpecStmt {
    Exp(Box<SpecExp>),
    Let(Seq<char>, Box<SpecExp>),
}

pub open spec fn view_triv(t: Triv) -> SpecTriv {
    match t {
        Triv::Value(v) => SpecTriv::Value(v),
        Triv::Var(x) => SpecTriv::Var(x@),
    }
}

pub open spec fn view_trivs(s: Seq<Triv>) -> Seq<SpecTriv>
    decreases s,
{
    if s.len() == 0 {
        Seq::empty()
    } else {
        seq![view_triv(s[0])] + view_trivs(s.subrange(1, s.len() as int))
    }
}

pub open spec fn view_exp(e: Exp) -> SpecExp
    decreases e,
{
    match e {
        Exp::Call(subject, args) => SpecExp::Call(view_triv(subject), view_trivs(args@)),
        Exp::Block(stmts, body) => SpecExp::Block(view_stmts(stmts@), Box::new(view_exp(*body))),
        Exp::Binop(lhs, op, rhs) => SpecExp::Binop(view_triv(lhs), op, view_triv(rhs)),
        Exp::If(test, conseq, alt) => SpecExp::If(
            view_triv(test),
            Box::new(view_exp(*conseq)),
            Box::new(view_exp(*alt)),
        ),
        Exp::Triv(t) => SpecExp::Triv(view_triv(t)),
    }
}

pub open spec fn view_stmt(s: Stmt) -> SpecStmt
    decreases s,
{
    match s {
        Stmt::Exp(e) => SpecStmt::Exp(Box::new(view_exp(*e))),
        Stmt::Let(x, e) => SpecStmt::Let(x@, Box::new(view_exp(*e))),
    }
}

pub open spec fn view_stmts(s: Seq<Stmt>) -> Seq<SpecStmt>
    decreases s,
{
    if s.len() == 0 {
        Seq::empty()
    } else {
        seq![view_stmt(s[0])] + view_stmts(s.subrange(1, s.len() as int))
    }
}

pub broadcast proof fn lemma_view_trivs(s: Seq<Triv>)
    ensures
        (#[trigger] view_trivs(s)).len() == s.len(),
        forall|i: int| 0 <= i < s.len() ==> #[trigger] view_trivs(s)[i] == view_triv(s[i]),
    decreases s,
{
    if s.len() > 0 {
        lemma_view_trivs(s.subrange(1, s.len() as int));
    }
}

pub broadcast proof fn lemma_view_stmts(s: Seq<Stmt>)
    ensures
        (#[trigger] view_stmts(s)).len() == s.len(),
        forall|i: int| 0 <= i < s.len() ==> #[trigger] view_stmts(s)[i] == view_stmt(s[i]),
    decreases s,
{
    if s.len() > 0 {
        lemma_view_stmts(s.subrange(1, s.len() as int));
    }
}

pub broadcast proof fn lemma_view_stmts_push(s: Seq<Stmt>, x: Stmt)
    ensures
        #[trigger] view_stmts(s.push(x)) == view_stmts(s).push(view_stmt(x)),
{
    lemma_view_stmts(s);
    lemma_view_stmts(s.push(x));
    assert forall|i: int| 0 <= i < s.push(x).len() implies view_stmts(s.push(x))[i] == view_stmts(
        s,
    ).push(view_stmt(x))[i] by {
        if i < s.len() {
            assert(s.push(x)[i] == s[i]);
        } else {
            assert(s.push(x)[i] == x);
        }
    }
    assert(view_stmts(s.push(x)) =~= view_stmts(s).push(view_stmt(x)));
}

pub broadcast proof fn lemma_view_trivs_push(s: Seq<Triv>, x: Triv)
    ensures
        #[trigger] view_trivs(s.push(x)) == view_trivs(s).push(view_triv(x)),
{
    lemma_view_trivs(s);
    lemma_view_trivs(s.push(x));
    assert forall|i: int| 0 <= i < s.push(x).len() implies view_trivs(s.push(x))[i] == view_trivs(
        s,
    ).push(view_triv(x))[i] by {
        if i < s.len() {
            assert(s.push(x)[i] == s[i]);
        } else {
            assert(s.push(x)[i] == x);
        }
    }
    assert(view_trivs(s.push(x)) =~= view_trivs(s).push(view_triv(x)));
}

/// Flatness of an ANF expression: every block in the tree has a nonempty
/// statement list and a trailing expression that is not itself a block —
/// block fusion leaves no redundant wrapping and no nested statement lists.
pub open spec fn flat_exp(e: SpecExp) -> bool
    decreases e,
{
    match e {
        SpecExp::Call(_, _) => true,
        SpecExp::Block(stmts, body) => stmts.len() > 0 && !(*body is Block) && flat_stmts(stmts)
            && flat_exp(*body),
        SpecExp::Binop(_, _, _) => true,
        SpecExp::If(_, conseq, alt) => flat_exp(*conseq) && flat_exp(*alt),
        SpecExp::Triv(_) => true,
    }
}

/// Flatness of an ANF statement: its expression is flat and is not a bare
/// block (a block as a direct element of a statement list would be a nested
/// statement list).
pub open spec fn flat_stmt(s: SpecStmt) -> bool
    decreases s,
{
    match s {
        SpecStmt::Exp(e) => !(*e is Block) && flat_exp(*e),
        SpecStmt::Let(_, e) => !(*e is Block) && flat_exp(*e),
    }
}

pub open spec fn flat_stmts(ss: Seq<SpecStmt>) -> bool
    decreases ss,
{
    if ss.len() == 0 {
        true
    } else {
        flat_stmt(ss[0]) && flat_stmts(ss.subrange(1, ss.len() as int))
    }
}

pub broadcast proof fn lemma_flat_stmts(ss: Seq<SpecStmt>)
    ensures
        #[trigger] flat_stmts(ss) <==> (forall|i: int| 0 <= i < ss.len() ==> flat_stmt(ss[i])),
    decreases ss,
{
    if ss.len() > 0 {
        let rest = ss.subrange(1, ss.len() as int);
        lemma_flat_stmts(rest);
        if flat_stmts(ss) {
            assert forall|i: int| 0 <= i < ss.len() implies flat_stmt(ss[i]) by {
                if i > 0 {
                    assert(rest[i - 1] == ss[i]);
                }
            }
        }
        if forall|i: int| 0 <= i < ss.len() ==> flat_stmt(ss[i]) {
            assert forall|i: int| 0 <= i < rest.len() implies flat_stmt(rest[i]) by {
                assert(rest[i] == ss[i + 1]);
            }
            assert(flat_stmts(rest));
        }
    }
}

/// The canonical text of a trivial term of the middle languages.
pub open spec fn render_triv(t: SpecTriv) -> Seq<char> {
    match t {
        SpecTriv::Value(v) => render_value(v),
        SpecTriv::Var(x) => x,
    }
}

impl Triv {
    /// The canonical text of this trivial term.
    pub fn render(&self) -> (r: String)
        ensures
            r@ == render_triv(view_triv(*self)),
    {
        match self {
            Triv::Value(v) => v.render(),
            Triv::Var(x) => x.clone(),
        }
    }
}

/// The texts of a list of trivial terms, each preceded by one space.
pub open spec fn render_trivs_prefixed(ts: Seq<SpecTriv>) -> Seq<char>
    decreases ts,
{
    if ts.len() == 0 {
        Seq::empty()
    } else {
        " "@ + render_triv(ts[0]) + render_trivs_prefixed(ts.subrange(1, ts.len() as int))
    }
}

/// The canonical parenthesized prefix text of an ANF expression.
pub open spec fn render_exp(e: SpecExp) -> Seq<char>
    decreases e, 0int,
{
    match e {
        SpecExp::Call(subject, args) => "("@ + render_triv(subject) + render_trivs_prefixed(args)
            + ")"@,
        SpecExp::Block(stmts, last) => "(begin "@ + render_stmts_spaced(stmts) + render_exp(
            *last,
        ) + ")"@,
        SpecExp::Binop(lhs, op, rhs) => "("@ + render_op(op) + " "@ + render_triv(lhs) + " "@
            + render_triv(rhs) + ")"@,
        SpecExp::If(t, conseq, alt) => "(if "@ + render_triv(t) + " "@ + render_exp(*conseq)
            + " "@ + render_exp(*alt) + ")"@,
        SpecExp::Triv(t) => render_triv(t),
    }
}

/// The canonical parenthesized prefix text of an ANF statement.
pub open spec fn render_stmt(s: SpecStmt) -> Seq<char>
    decreases s, 1int,
{
    match s {
        SpecStmt::Exp(e) => render_exp(*e),
        SpecStmt::Let(x, e) => "(set! "@ + x + " "@ + render_exp(*e) + ")"@,
    }
}

/// The texts of a statement list, each statement followed by one space.
pub open spec fn render_stmts_spaced(ss: Seq<SpecStmt>) -> Seq<char>
    decreases ss, 2int,
{
    if ss.len() == 0 {
        Seq::empty()
    } else {
        render_stmt(ss[0]) + " "@ + render_stmts_spaced(ss.subrange(1, ss.len() as int))
    }
}

impl Exp {
    /// The canonical parenthesized prefix text of this expression.
    pub fn render(&self) -> (r: String)
        ensures
            r@ == render_exp(view_exp(*self)),
        decreases self, 0int,
    {
        match self {
            Exp::Call(subject, args) => {
                let mut s = String::from_str("(");
                s.append(subject.render().as_str());
                s.append(render_trivs_prefixed_from(args, 0).as_str());
                s.append(")");
                proof {
                    lemma_view_trivs(args@);
                    assert(view_trivs(args@).subrange(0, args@.len() as int) =~= view_trivs(
                        args@,
                    ));
                }
                s
            },
            Exp::Block(stmts, last) => {
                let mut s = String::from_str("(begin ");
                s.append(render_stmts_spaced_from(stmts, 0).as_str());
                s.append(last.render().as_str());
                s.append(")");
                proof {
                    lemma_view_stmts(stmts@);
                    assert(view_stmts(stmts@).subrange(0, stmts@.len() as int) =~= view_stmts(
                        stmts@,
                    ));
                }
                s
            },
            Exp::Binop(lhs, op, rhs) => {
                let mut s = String::from_str("(");
                s.append(op.render());
                s.append(" ");
                s.append(lhs.render().as_str());
                s.append(" ");
                s.append(rhs.render().as_str());
                s.append(")");
                s
            },
            Exp::If(t, conseq, alt) => {
                let mut s = String::from_str("(if ");
                s.append(t.render().as_str());
                s.append(" ");
                s.append(conseq.render().as_str());
                s.append(" ");
                s.append(alt.render().as_str());
                s.append(")");
                s
            },
            Exp::Triv(t) => t.render(),
        }
    }
}

impl Stmt {
    /// The canonical parenthesized prefix text of this statement.
    pub fn render(&self) -> (r: String)
        ensures
            r@ == render_stmt(view_stmt(*self)),
        decreases self, 1int,
    {
        match self {
            Stmt::Exp(e) => e.render(),
            Stmt::Let(x, e) => {
                let mut s = String::from_str("(set! ");
                s.append(x.as_str());
                s.append(" ");
                s.append(e.render().as_str());
                s.append(")");
                s
            },
        }
    }
}

fn render_trivs_prefixed_from(ts: &Vec<Triv>, from: usize) -> (r: String)
    requires
        from <= ts@.len(),
    ensures
        r@ == render_trivs_prefixed(view_trivs(ts@).subrange(from as int, ts@.len() as int)),
    decreases ts@.len() - from,
{
    proof {
        lemma_view_trivs(ts@);
    }
    if from == ts.len() {
        proof {
            assert(view_trivs(ts@).subrange(from as int, ts@.len() as int)
                =~= Seq::<SpecTriv>::empty());
        }
        String::new()
    } else {
        let mut s = String::from_str(" ");
        s.append(ts[from].render().as_str());
        s.append(render_trivs_prefixed_from(ts, from + 1).as_str());
        proof {
            let suffix = view_trivs(ts@).subrange(from as int, ts@.len() as int);
            assert(suffix[0] == view_triv(ts@[from as int]));
            assert(suffix.subrange(1, suffix.len() as int) =~= view_trivs(ts@).subrange(
                from + 1,
                ts@.len() as int,
            ));
        }
        s
    }
}

fn render_stmts_spaced_from(ss: &Vec<Stmt>, from: usize) -> (r: String)
    requires
        from <= ss@.len(),
    ensures
        r@ == render_stmts_spaced(view_stmts(ss@).subrange(from as int, ss@.len() as int)),
    decreases ss@, ss@.len() - from,
{
    proof {
        lemma_view_stmts(ss@);
    }
    if from == ss.len() {
        proof {
            assert(view_stmts(ss@).subrange(from as int, ss@.len() as int)
                =~= Seq::<SpecStmt>::empty());
        }
        String::new()
    } else {
        let stmt = &ss[from];
        proof {
            assert(decreases_to!(ss@ => ss@[from as int]));
        }
        let mut s = stmt.render();
        s.append(" ");
        s.append(render_stmts_spaced_from(ss, from + 1).as_str());
        proof {
            let suffix = view_stmts(ss@).subrange(from as int, ss@.len() as int);
            assert(suffix[0] == view_stmt(ss@[from as int]));
            assert(suffix.subrange(1, suffix.len() as int) =~= view_stmts(ss@).subrange(
                from + 1,
                ss@.len() as int,
            ));
        }
        s
    }
}

} // verus!
