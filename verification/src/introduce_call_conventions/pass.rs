//! Calling-convention introduction: the pass from the context-normalized
//! language to the final form.
//!
//! A function body is processed in tail position. A call in tail position
//! becomes its argument pushes followed by a bare tail call — no return
//! bookkeeping, no frame growth. A trivial term in tail position is stored
//! into the return slot and followed by a return. A non-tail call pushes its
//! arguments, emits the call as a statement, and reads the return slot as
//! its result; the slot is consumed immediately, never held across another
//! call. Arguments are pushed in reverse order, so a consumer popping them
//! forward sees them in source order; their evaluation happened back in
//! value simplification, so emission order cannot reorder effects.
//!
//! Predicates are lowered to a trivial term that carries their truth value:
//! a comparison becomes a [`ast::Stmt::LetBinop`] on a fresh temporary, and
//! a predicate conditional binds the chosen branch's value to a fresh
//! temporary through both branches. A conditional used as a value — the one
//! shape the language would otherwise leave open — is completed the same
//! way: each branch ends by binding its result to one common fresh
//! destination, so every consumer reads a plain variable.

use vstd::prelude::*;

use crate::introduce_call_conventions::ast::{
    Exp, SpecExp, SpecStmt, Stmt, view_exp, view_stmt, view_stmts,
};
use crate::normalize_context::ast as input;
use crate::shared::ast::{Program, SpecTriv, Triv, Value, Var, spec_tmp_name, tmp_name_of};

verus! {

broadcast use {
    crate::ast::lemma_view_trivs,
    crate::introduce_call_conventions::ast::lemma_view_stmts,
    crate::introduce_call_conventions::ast::lemma_view_stmts_push,
    crate::normalize_context::ast::lemma_view_stmts,
};

/// A trivial term of the middle languages, carried into the final language;
/// the return-slot case cannot arise from it.
pub open spec fn conv_triv(t: crate::ast::SpecTriv) -> SpecTriv {
    match t {
        crate::ast::SpecTriv::Value(v) => SpecTriv::Value(v),
        crate::ast::SpecTriv::Var(x) => SpecTriv::Var(x),
    }
}

/// The node count of a value expression; bounds the temporaries its
/// lowering can mint.
pub open spec fn size_exp(e: input::SpecExp) -> nat
    decreases e,
{
    match e {
        input::SpecExp::Call(_, _) => 1,
        input::SpecExp::Block(stmts, body) => 1 + size_stmts(stmts) + size_exp(*body),
        input::SpecExp::Binop(_, _, _) => 1,
        input::SpecExp::If(test, conseq, alt) => 1 + size_pred(*test) + size_exp(*conseq)
            + size_exp(*alt),
        input::SpecExp::Triv(_) => 1,
    }
}

pub open spec fn size_pred(p: input::SpecPred) -> nat
    decreases p,
{
    match p {
        input::SpecPred::Call(_, _) => 1,
        input::SpecPred::Relop(_, _, _) => 1,
        input::SpecPred::If(test, conseq, alt) => 1 + size_pred(*test) + size_pred(*conseq)
            + size_pred(*alt),
        input::SpecPred::Block(stmts, body) => 1 + size_stmts(stmts) + size_pred(*body),
        input::SpecPred::True => 1,
        input::SpecPred::False => 1,
    }
}

pub open spec fn size_stmt(s: input::SpecStmt) -> nat
    decreases s,
{
    match s {
        input::SpecStmt::Exp(e) => size_exp(*e),
        input::SpecStmt::Let(_, e) => size_exp(*e),
        input::SpecStmt::If(test, conseq, alt) => 1 + size_pred(*test) + size_stmts(conseq)
            + size_stmts(alt),
    }
}

pub open spec fn size_stmts(ss: Seq<input::SpecStmt>) -> nat
    decreases ss,
{
    if ss.len() == 0 {
        0
    } else {
        size_stmt(ss[0]) + size_stmts(ss.subrange(1, ss.len() as int))
    }
}

/// The argument pushes for a call: one push per argument, in reverse order.
pub open spec fn cc_push_args(args: Seq<crate::ast::SpecTriv>) -> Seq<SpecStmt>
    decreases args,
{
    if args.len() == 0 {
        Seq::empty()
    } else {
        cc_push_args(args.subrange(1, args.len() as int)) + seq![
            SpecStmt::Push(conv_triv(args[0])),
        ]
    }
}

/// Block fusion for tail expressions.
pub open spec fn cc_make_block(block: Seq<SpecStmt>, exp: SpecExp) -> SpecExp
    decreases exp,
{
    if block.len() == 0 {
        exp
    } else {
        match exp {
            SpecExp::Block(stmts, base) => cc_make_block(block + stmts, *base),
            _ => SpecExp::Block(block, Box::new(exp)),
        }
    }
}

/// Lower an expression in tail position.
pub open spec fn cc_tail(c: nat, e: input::SpecExp) -> (nat, SpecExp)
    decreases e, 1int,
{
    match e {
        input::SpecExp::Call(subject, args) => (
            c,
            cc_make_block(cc_push_args(args), SpecExp::Call(conv_triv(subject))),
        ),
        input::SpecExp::Block(stmts, body) => {
            let s1 = cc_stmts(c, stmts);
            let s2 = cc_tail(s1.0, *body);
            (s2.0, cc_make_block(s1.1, s2.1))
        },
        input::SpecExp::Binop(lhs, op, rhs) => {
            let name = spec_tmp_name(c + 1);
            (
                c + 1,
                SpecExp::Block(
                    seq![
                        SpecStmt::LetBinop(name, conv_triv(lhs), op, conv_triv(rhs)),
                        SpecStmt::ReturnSet(SpecTriv::Var(name)),
                    ],
                    Box::new(SpecExp::Return),
                ),
            )
        },
        input::SpecExp::If(test, conseq, alt) => {
            let s1 = cc_pred(c, *test);
            let s2 = cc_tail(s1.0, *conseq);
            let s3 = cc_tail(s2.0, *alt);
            (s3.0, cc_make_block(s1.1, SpecExp::If(s1.2, Box::new(s2.1), Box::new(s3.1))))
        },
        input::SpecExp::Triv(t) => (
            c,
            SpecExp::Block(
                seq![SpecStmt::ReturnSet(conv_triv(t))],
                Box::new(SpecExp::Return),
            ),
        ),
    }
}

/// Lower a predicate to statements plus a trivial term carrying its truth
/// value.
pub open spec fn cc_pred(c: nat, p: input::SpecPred) -> (nat, Seq<SpecStmt>, SpecTriv)
    decreases p, 1int,
{
    match p {
        input::SpecPred::Call(subject, args) => (
            c,
            cc_push_args(args) + seq![SpecStmt::Call(conv_triv(subject))],
            SpecTriv::Return,
        ),
        input::SpecPred::Relop(lhs, op, rhs) => {
            let name = spec_tmp_name(c + 1);
            (
                c + 1,
                seq![SpecStmt::LetBinop(name, conv_triv(lhs), op, conv_triv(rhs))],
                SpecTriv::Var(name),
            )
        },
        input::SpecPred::If(test, conseq, alt) => {
            let s1 = cc_pred(c, *test);
            let s2 = cc_pred(s1.0, *conseq);
            let s3 = cc_pred(s2.0, *alt);
            let name = spec_tmp_name(s3.0 + 1);
            (
                s3.0 + 1,
                s1.1 + seq![
                    SpecStmt::If(
                        s1.2,
                        s2.1 + seq![SpecStmt::Let(name, s2.2)],
                        s3.1 + seq![SpecStmt::Let(name, s3.2)],
                    ),
                ],
                SpecTriv::Var(name),
            )
        },
        input::SpecPred::Block(stmts, body) => {
            let s1 = cc_stmts(c, stmts);
            let s2 = cc_pred(s1.0, *body);
            (s2.0, s1.1 + s2.1, s2.2)
        },
        input::SpecPred::True => (c, Seq::empty(), SpecTriv::Value(Value::True)),
        input::SpecPred::False => (c, Seq::empty(), SpecTriv::Value(Value::False)),
    }
}

/// Lower an expression evaluated for its value: the statements that compute
/// it and the trivial term that then holds it. A call's value is the return
/// slot, read immediately; a conditional's value is bound to one common
/// fresh destination in both branches.
pub open spec fn cc_value(c: nat, e: input::SpecExp) -> (nat, Seq<SpecStmt>, SpecTriv)
    decreases e, 1int,
{
    match e {
        input::SpecExp::Call(subject, args) => (
            c,
            cc_push_args(args) + seq![SpecStmt::Call(conv_triv(subject))],
            SpecTriv::Return,
        ),
        input::SpecExp::Block(stmts, body) => {
            let s1 = cc_stmts(c, stmts);
            let s2 = cc_value(s1.0, *body);
            (s2.0, s1.1 + s2.1, s2.2)
        },
        input::SpecExp::Binop(lhs, op, rhs) => {
            let name = spec_tmp_name(c + 1);
            (
                c + 1,
                seq![SpecStmt::LetBinop(name, conv_triv(lhs), op, conv_triv(rhs))],
                SpecTriv::Var(name),
            )
        },
        input::SpecExp::If(test, conseq, alt) => {
            let s1 = cc_pred(c, *test);
            let s2 = cc_value(s1.0, *conseq);
            let s3 = cc_value(s2.0, *alt);
            let name = spec_tmp_name(s3.0 + 1);
            (
                s3.0 + 1,
                s1.1 + seq![
                    SpecStmt::If(
                        s1.2,
                        s2.1 + seq![SpecStmt::Let(name, s2.2)],
                        s3.1 + seq![SpecStmt::Let(name, s3.2)],
                    ),
                ],
                SpecTriv::Var(name),
            )
        },
        input::SpecExp::Triv(t) => (c, Seq::empty(), conv_triv(t)),
    }
}

/// Lower an expression executed purely for effect.
pub open spec fn cc_effect(c: nat, e: input::SpecExp) -> (nat, Seq<SpecStmt>)
    decreases e, 2int,
{
    match e {
        input::SpecExp::Call(subject, args) => (
            c,
            cc_push_args(args) + seq![SpecStmt::Call(conv_triv(subject))],
        ),
        input::SpecExp::Block(stmts, body) => {
            let s1 = cc_stmts(c, stmts);
            let s2 = cc_effect(s1.0, *body);
            (s2.0, s1.1 + s2.1)
        },
        input::SpecExp::Binop(_, _, _) => (c, Seq::empty()),
        input::SpecExp::If(test, conseq, alt) => {
            let s1 = cc_pred(c, *test);
            let s2 = cc_effect(s1.0, *conseq);
            let s3 = cc_effect(s2.0, *alt);
            (s3.0, s1.1 + seq![SpecStmt::If(s1.2, s2.1, s3.1)])
        },
        input::SpecExp::Triv(_) => (c, Seq::empty()),
    }
}

/// Lower one statement. A binding whose right-hand side is a call becomes
/// pushes, the call, and a read of the return slot; one whose right-hand
/// side is arithmetic computes straight into the bound name.
pub open spec fn cc_stmt(c: nat, s: input::SpecStmt) -> (nat, Seq<SpecStmt>)
    decreases s, 3int,
{
    match s {
        input::SpecStmt::Exp(e) => cc_effect(c, *e),
        input::SpecStmt::Let(x, e) => match *e {
            input::SpecExp::Binop(lhs, op, rhs) => (
                c,
                seq![SpecStmt::LetBinop(x, conv_triv(lhs), op, conv_triv(rhs))],
            ),
            _ => {
                let s1 = cc_value(c, *e);
                (s1.0, s1.1 + seq![SpecStmt::Let(x, s1.2)])
            },
        },
        input::SpecStmt::If(test, conseq, alt) => {
            let s1 = cc_pred(c, *test);
            let s2 = cc_stmts(s1.0, conseq);
            let s3 = cc_stmts(s2.0, alt);
            (s3.0, s1.1 + seq![SpecStmt::If(s1.2, s2.1, s3.1)])
        },
    }
}

pub open spec fn cc_stmts(c: nat, ss: Seq<input::SpecStmt>) -> (nat, Seq<SpecStmt>)
    decreases ss, 0int,
{
    if ss.len() == 0 {
        (c, Seq::empty())
    } else {
        let s1 = cc_stmt(c, ss[0]);
        let s2 = cc_stmts(s1.0, ss.subrange(1, ss.len() as int));
        (s2.0, s1.1 + s2.1)
    }
}

/// One whole function body, lowered in tail position with a fresh counter.
pub open spec fn cc_fn(body: input::SpecExp) -> SpecExp {
    cc_tail(0, body).1
}

pub broadcast proof fn lemma_cc_tail_count(c: nat, e: input::SpecExp)
    ensures
        c <= (#[trigger] cc_tail(c, e)).0,
        cc_tail(c, e).0 <= c + size_exp(e),
    decreases e, 1int,
{
    match e {
        input::SpecExp::Block(stmts, body) => {
            lemma_cc_stmts_count(c, stmts);
            lemma_cc_tail_count(cc_stmts(c, stmts).0, *body);
        },
        input::SpecExp::If(test, conseq, alt) => {
            lemma_cc_pred_count(c, *test);
            lemma_cc_tail_count(cc_pred(c, *test).0, *conseq);
            lemma_cc_tail_count(cc_tail(cc_pred(c, *test).0, *conseq).0, *alt);
        },
        _ => {},
    }
}

pub broadcast proof fn lemma_cc_pred_count(c: nat, p: input::SpecPred)
    ensures
        c <= (#[trigger] cc_pred(c, p)).0,
        cc_pred(c, p).0 <= c + size_pred(p),
    decreases p, 1int,
{
    match p {
        input::SpecPred::If(test, conseq, alt) => {
            lemma_cc_pred_count(c, *test);
            lemma_cc_pred_count(cc_pred(c, *test).0, *conseq);
            lemma_cc_pred_count(cc_pred(cc_pred(c, *test).0, *conseq).0, *alt);
        },
        input::SpecPred::Block(stmts, body) => {
            lemma_cc_stmts_count(c, stmts);
            lemma_cc_pred_count(cc_stmts(c, stmts).0, *body);
        },
        _ => {},
    }
}

pub broadcast proof fn lemma_cc_value_count(c: nat, e: input::SpecExp)
    ensures
        c <= (#[trigger] cc_value(c, e)).0,
        cc_value(c, e).0 <= c + size_exp(e),
    decreases e, 1int,
{
    match e {
        input::SpecExp::Block(stmts, body) => {
            lemma_cc_stmts_count(c, stmts);
            lemma_cc_value_count(cc_stmts(c, stmts).0, *body);
        },
        input::SpecExp::If(test, conseq, alt) => {
            lemma_cc_pred_count(c, *test);
            lemma_cc_value_count(cc_pred(c, *test).0, *conseq);
            lemma_cc_value_count(cc_value(cc_pred(c, *test).0, *conseq).0, *alt);
        },
        _ => {},
    }
}

pub broadcast proof fn lemma_cc_effect_count(c: nat, e: input::SpecExp)
    ensures
        c <= (#[trigger] cc_effect(c, e)).0,
        cc_effect(c, e).0 <= c + size_exp(e),
    decreases e, 2int,
{
    match e {
        input::SpecExp::Block(stmts, body) => {
            lemma_cc_stmts_count(c, stmts);
            lemma_cc_effect_count(cc_stmts(c, stmts).0, *body);
        },
        input::SpecExp::If(test, conseq, alt) => {
            lemma_cc_pred_count(c, *test);
            lemma_cc_effect_count(cc_pred(c, *test).0, *conseq);
            lemma_cc_effect_count(cc_effect(cc_pred(c, *test).0, *conseq).0, *alt);
        },
        _ => {},
    }
}

pub broadcast proof fn lemma_cc_stmt_count(c: nat, s: input::SpecStmt)
    ensures
        c <= (#[trigger] cc_stmt(c, s)).0,
        cc_stmt(c, s).0 <= c + size_stmt(s),
    decreases s, 3int,
{
    match s {
        input::SpecStmt::Exp(e) => {
            lemma_cc_effect_count(c, *e);
        },
        input::SpecStmt::Let(_, e) => {
            if !(*e is Binop) {
                lemma_cc_value_count(c, *e);
            }
        },
        input::SpecStmt::If(test, conseq, alt) => {
            lemma_cc_pred_count(c, *test);
            lemma_cc_stmts_count(cc_pred(c, *test).0, conseq);
            lemma_cc_stmts_count(cc_stmts(cc_pred(c, *test).0, conseq).0, alt);
        },
    }
}

pub broadcast proof fn lemma_cc_stmts_count(c: nat, ss: Seq<input::SpecStmt>)
    ensures
        c <= (#[trigger] cc_stmts(c, ss)).0,
        cc_stmts(c, ss).0 <= c + size_stmts(ss),
    decreases ss, 0int,
{
    if ss.len() > 0 {
        lemma_cc_stmt_count(c, ss[0]);
        lemma_cc_stmts_count(cc_stmt(c, ss[0]).0, ss.subrange(1, ss.len() as int));
    }
}

/// The calling-convention pass. The counter numbers the temporaries minted
/// while one function body is lowered; it restarts at zero for each body.
pub struct Pass {
    counter: u64,
}

impl Pass {
    /// Translate a whole program, each function body independently with its
    /// own fresh counter.
    pub fn run(program: Program<input::Exp>) -> (r: Program<Exp>)
        requires
            forall|i: int|
                0 <= i < program.funcs@.len() ==> size_exp(
                    input::view_exp(#[trigger] program.funcs@[i].1),
                ) <= u64::MAX,
        ensures
            r.funcs@.len() == program.funcs@.len(),
            forall|i: int|
                0 <= i < r.funcs@.len() ==> (#[trigger] r.funcs@[i]).0@ == program.funcs@[i].0@
                    && view_exp(r.funcs@[i].1) == cc_fn(input::view_exp(program.funcs@[i].1)),
    {
        let Program { mut funcs } = program;
        let ghost orig = funcs@;
        let mut output_funcs: Vec<(Var, Exp)> = Vec::new();
        while funcs.len() > 0
            invariant
                funcs@ == orig.subrange(output_funcs@.len() as int, orig.len() as int),
                output_funcs@.len() <= orig.len(),
                forall|i: int|
                    0 <= i < orig.len() ==> size_exp(input::view_exp(#[trigger] orig[i].1))
                        <= u64::MAX,
                forall|i: int|
                    0 <= i < output_funcs@.len() ==> (#[trigger] output_funcs@[i]).0@
                        == orig[i].0@ && view_exp(output_funcs@[i].1) == cc_fn(
                        input::view_exp(orig[i].1),
                    ),
            decreases funcs@.len(),
        {
            let ghost done = output_funcs@.len() as int;
            let (name, body) = funcs.remove(0);
            proof {
                assert(orig.subrange(done, orig.len() as int)[0] == orig[done]);
            }
            let mut pass = Pass { counter: 0 };
            let new_body = pass.tail(body);
            output_funcs.push((name, new_body));
            proof {
                assert(funcs@ =~= orig.subrange(
                    output_funcs@.len() as int,
                    orig.len() as int,
                ));
            }
        }
        Program { funcs: output_funcs }
    }

    /// Mint the next temporary name.
    fn make_tmp(&mut self) -> (r: Var)
        requires
            old(self).counter < u64::MAX,
        ensures
            final(self).counter == old(self).counter + 1,
            r@ == spec_tmp_name(final(self).counter as nat),
    {
        self.counter = self.counter + 1;
        tmp_name_of(self.counter)
    }

    fn tail(&mut self, e: input::Exp) -> (r: Exp)
        requires
            old(self).counter + size_exp(input::view_exp(e)) <= u64::MAX,
        ensures
            ({
                let s = cc_tail(old(self).counter as nat, input::view_exp(e));
                &&& final(self).counter as nat == s.0
                &&& view_exp(r) == s.1
            }),
        decreases e, 1int,
    {
        broadcast use {
            lemma_cc_tail_count,
            lemma_cc_pred_count,
            lemma_cc_value_count,
            lemma_cc_effect_count,
            lemma_cc_stmt_count,
            lemma_cc_stmts_count,
        };

        let ghost c0 = self.counter as nat;
        match e {
            input::Exp::Call(subject, args) => {
                let mut block: Vec<Stmt> = Vec::new();
                proof {
                    assert(view_stmts(block@) =~= Seq::<SpecStmt>::empty());
                }
                push_args(&mut block, args);
                proof {
                    assert(Seq::<SpecStmt>::empty() + cc_push_args(
                        crate::ast::view_trivs(args@),
                    ) =~= cc_push_args(crate::ast::view_trivs(args@)));
                }
                make_block(block, Exp::Call(conv(subject)))
            },
            input::Exp::Block(stmts, body) => {
                let block = self.stmt_block(stmts);
                let base = self.tail(*body);
                make_block(block, base)
            },
            input::Exp::Binop(lhs, op, rhs) => {
                let tmp = self.make_tmp();
                let name = tmp.clone();
                let first = Stmt::LetBinop(tmp, conv(lhs), op, conv(rhs));
                let second = Stmt::ReturnSet(Triv::Var(name));
                let ghost vfirst = view_stmt(first);
                let ghost vsecond = view_stmt(second);
                let mut block: Vec<Stmt> = Vec::new();
                block.push(first);
                block.push(second);
                proof {
                    assert(view_stmts(block@) =~= seq![vfirst, vsecond]);
                    assert(view_exp(Exp::Return) == SpecExp::Return);
                }
                Exp::Block(block, Box::new(Exp::Return))
            },
            input::Exp::If(test, conseq, alt) => {
                let ghost vtest = input::view_pred(*test);
                let mut block: Vec<Stmt> = Vec::new();
                proof {
                    assert(view_stmts(block@) =~= Seq::<SpecStmt>::empty());
                }
                let t = self.pred(&mut block, *test);
                let c = self.btail(conseq);
                let a = self.btail(alt);
                proof {
                    let s1 = cc_pred(c0, vtest);
                    assert(view_stmts(block@) =~= s1.1);
                }
                make_block(block, Exp::If(t, c, a))
            },
            input::Exp::Triv(t) => {
                let only = Stmt::ReturnSet(conv(t));
                let ghost vonly = view_stmt(only);
                let mut block: Vec<Stmt> = Vec::new();
                block.push(only);
                proof {
                    assert(view_stmts(block@) =~= seq![vonly]);
                    assert(view_exp(Exp::Return) == SpecExp::Return);
                }
                Exp::Block(block, Box::new(Exp::Return))
            },
        }
    }

    fn btail(&mut self, e: Box<input::Exp>) -> (r: Box<Exp>)
        requires
            old(self).counter + size_exp(input::view_exp(*e)) <= u64::MAX,
        ensures
            ({
                let s = cc_tail(old(self).counter as nat, input::view_exp(*e));
                &&& final(self).counter as nat == s.0
                &&& view_exp(*r) == s.1
            }),
        decreases *e, 2int,
    {
        Box::new(self.tail(*e))
    }

    fn pred(&mut self, block: &mut Vec<Stmt>, p: input::Pred) -> (r: Triv)
        requires
            old(self).counter + size_pred(input::view_pred(p)) <= u64::MAX,
        ensures
            ({
                let s = cc_pred(old(self).counter as nat, input::view_pred(p));
                &&& final(self).counter as nat == s.0
                &&& view_stmts(final(block)@) == view_stmts(old(block)@) + s.1
                &&& crate::shared::ast::view_triv(r) == s.2
            }),
        decreases p, 1int,
    {
        broadcast use {
            lemma_cc_pred_count,
            lemma_cc_stmt_count,
            lemma_cc_stmts_count,
        };

        let ghost c0 = self.counter as nat;
        let ghost b0 = view_stmts(block@);
        match p {
            input::Pred::Call(subject, args) => {
                let ghost va = crate::ast::view_trivs(args@);
                push_args(block, args);
                let called = Stmt::Call(conv(subject));
                let ghost vcalled = view_stmt(called);
                block.push(called);
                proof {
                    assert(view_stmts(block@) =~= b0 + (cc_push_args(va) + seq![vcalled]));
                }
                Triv::Return
            },
            input::Pred::Relop(lhs, op, rhs) => {
                let tmp = self.make_tmp();
                let name = tmp.clone();
                let only = Stmt::LetBinop(tmp, conv(lhs), op, conv(rhs));
                let ghost vonly = view_stmt(only);
                block.push(only);
                proof {
                    assert(view_stmts(block@) =~= b0 + seq![vonly]);
                }
                Triv::Var(name)
            },
            input::Pred::If(test, conseq, alt) => {
                let ghost vtest = input::view_pred(*test);
                let ghost vconseq = input::view_pred(*conseq);
                let ghost valt = input::view_pred(*alt);
                let t = self.pred(block, *test);
                let mut conseq_block: Vec<Stmt> = Vec::new();
                proof {
                    assert(view_stmts(conseq_block@) =~= Seq::<SpecStmt>::empty());
                }
                let ct = self.pred(&mut conseq_block, *conseq);
                let mut alt_block: Vec<Stmt> = Vec::new();
                proof {
                    assert(view_stmts(alt_block@) =~= Seq::<SpecStmt>::empty());
                }
                let at = self.pred(&mut alt_block, *alt);
                let tmp = self.make_tmp();
                let name = tmp.clone();
                let cbind = Stmt::Let(tmp.clone(), ct);
                let abind = Stmt::Let(tmp, at);
                let ghost vcbind = view_stmt(cbind);
                conseq_block.push(cbind);
                alt_block.push(abind);
                let ghost vcb = view_stmts(conseq_block@);
                let ghost vab = view_stmts(alt_block@);
                let joined = Stmt::If(t, conseq_block, alt_block);
                let ghost vjoined = view_stmt(joined);
                block.push(joined);
                proof {
                    let s1 = cc_pred(c0, vtest);
                    let s2 = cc_pred(s1.0, vconseq);
                    let s3 = cc_pred(s2.0, valt);
                    assert(vcb =~= (Seq::<SpecStmt>::empty() + s2.1).push(vcbind));
                    assert(vcb =~= s2.1 + seq![SpecStmt::Let(spec_tmp_name(s3.0 + 1), s2.2)]);
                    assert(vab =~= s3.1 + seq![SpecStmt::Let(spec_tmp_name(s3.0 + 1), s3.2)]);
                    assert(view_stmts(block@) =~= b0 + (s1.1 + seq![vjoined]));
                }
                Triv::Var(name)
            },
            input::Pred::Block(stmts, body) => {
                let ghost vss = input::view_stmts(stmts@);
                let ghost vbody = input::view_pred(*body);
                self.stmts_into(block, stmts);
                let r = self.pred(block, *body);
                proof {
                    let s1 = cc_stmts(c0, vss);
                    let s2 = cc_pred(s1.0, vbody);
                    assert(view_stmts(block@) =~= b0 + (s1.1 + s2.1));
                }
                r
            },
            input::Pred::True => {
                proof {
                    assert(view_stmts(block@) =~= b0 + Seq::empty());
                }
                Triv::Value(Value::True)
            },
            input::Pred::False => {
                proof {
                    assert(view_stmts(block@) =~= b0 + Seq::empty());
                }
                Triv::Value(Value::False)
            },
        }
    }

    fn value(&mut self, block: &mut Vec<Stmt>, e: input::Exp) -> (r: Triv)
        requires
            old(self).counter + size_exp(input::view_exp(e)) <= u64::MAX,
        ensures
            ({
                let s = cc_value(old(self).counter as nat, input::view_exp(e));
                &&& final(self).counter as nat == s.0
                &&& view_stmts(final(block)@) == view_stmts(old(block)@) + s.1
                &&& crate::shared::ast::view_triv(r) == s.2
            }),
        decreases e, 1int,
    {
        broadcast use {
            lemma_cc_pred_count,
            lemma_cc_value_count,
            lemma_cc_stmt_count,
            lemma_cc_stmts_count,
        };

        let ghost c0 = self.counter as nat;
        let ghost b0 = view_stmts(block@);
        match e {
            input::Exp::Call(subject, args) => {
                let ghost va = crate::ast::view_trivs(args@);
                push_args(block, args);
                let called = Stmt::Call(conv(subject));
                let ghost vcalled = view_stmt(called);
                block.push(called);
                proof {
                    assert(view_stmts(block@) =~= b0 + (cc_push_args(va) + seq![vcalled]));
                }
                Triv::Return
            },
            input::Exp::Block(stmts, body) => {
                let ghost vss = input::view_stmts(stmts@);
                let ghost vbody = input::view_exp(*body);
                self.stmts_into(block, stmts);
                let r = self.value(block, *body);
                proof {
                    let s1 = cc_stmts(c0, vss);
                    let s2 = cc_value(s1.0, vbody);
                    assert(view_stmts(block@) =~= b0 + (s1.1 + s2.1));
                }
                r
            },
            input::Exp::Binop(lhs, op, rhs) => {
                let tmp = self.make_tmp();
                let name = tmp.clone();
                let only = Stmt::LetBinop(tmp, conv(lhs), op, conv(rhs));
                let ghost vonly = view_stmt(only);
                block.push(only);
                proof {
                    assert(view_stmts(block@) =~= b0 + seq![vonly]);
                }
                Triv::Var(name)
            },
            input::Exp::If(test, conseq, alt) => {
                let ghost vtest = input::view_pred(*test);
                let ghost vconseq = input::view_exp(*conseq);
                let ghost valt = input::view_exp(*alt);
                let t = self.pred(block, *test);
                let mut conseq_block: Vec<Stmt> = Vec::new();
                proof {
                    assert(view_stmts(conseq_block@) =~= Seq::<SpecStmt>::empty());
                }
                let ct = self.value(&mut conseq_block, *conseq);
                let mut alt_block: Vec<Stmt> = Vec::new();
                proof {
                    assert(view_stmts(alt_block@) =~= Seq::<SpecStmt>::empty());
                }
                let at = self.value(&mut alt_block, *alt);
                let tmp = self.make_tmp();
                let name = tmp.clone();
                let cbind = Stmt::Let(tmp.clone(), ct);
                let abind = Stmt::Let(tmp, at);
                conseq_block.push(cbind);
                alt_block.push(abind);
                let ghost vcb = view_stmts(conseq_block@);
                let ghost vab = view_stmts(alt_block@);
                let joined = Stmt::If(t, conseq_block, alt_block);
                let ghost vjoined = view_stmt(joined);
                block.push(joined);
                proof {
                    let s1 = cc_pred(c0, vtest);
                    let s2 = cc_value(s1.0, vconseq);
                    let s3 = cc_value(s2.0, valt);
                    assert(vcb =~= s2.1 + seq![SpecStmt::Let(spec_tmp_name(s3.0 + 1), s2.2)]);
                    assert(vab =~= s3.1 + seq![SpecStmt::Let(spec_tmp_name(s3.0 + 1), s3.2)]);
                    assert(view_stmts(block@) =~= b0 + (s1.1 + seq![vjoined]));
                }
                Triv::Var(name)
            },
            input::Exp::Triv(t) => {
                proof {
                    assert(view_stmts(block@) =~= b0 + Seq::empty());
                }
                conv(t)
            },
        }
    }

    fn effect(&mut self, block: &mut Vec<Stmt>, e: input::Exp) -> (u: ())
        requires
            old(self).counter + size_exp(input::view_exp(e)) <= u64::MAX,
        ensures
            ({
                let s = cc_effect(old(self).counter as nat, input::view_exp(e));
                &&& final(self).counter as nat == s.0
                &&& view_stmts(final(block)@) == view_stmts(old(block)@) + s.1
            }),
        decreases e, 2int,
    {
        broadcast use {
            lemma_cc_pred_count,
            lemma_cc_effect_count,
            lemma_cc_stmt_count,
            lemma_cc_stmts_count,
        };

        let ghost c0 = self.counter as nat;
        let ghost b0 = view_stmts(block@);
        match e {
            input::Exp::Call(subject, args) => {
                let ghost va = crate::ast::view_trivs(args@);
                push_args(block, args);
                let called = Stmt::Call(conv(subject));
                let ghost vcalled = view_stmt(called);
                block.push(called);
                proof {
                    assert(view_stmts(block@) =~= b0 + (cc_push_args(va) + seq![vcalled]));
                }
            },
            input::Exp::Block(stmts, body) => {
                let ghost vss = input::view_stmts(stmts@);
                let ghost vbody = input::view_exp(*body);
                self.stmts_into(block, stmts);
                self.effect(block, *body);
                proof {
                    let s1 = cc_stmts(c0, vss);
                    let s2 = cc_effect(s1.0, vbody);
                    assert(view_stmts(block@) =~= b0 + (s1.1 + s2.1));
                }
            },
            input::Exp::Binop(_, _, _) => {
                proof {
                    assert(view_stmts(block@) =~= b0 + Seq::empty());
                }
            },
            input::Exp::If(test, conseq, alt) => {
                let ghost vtest = input::view_pred(*test);
                let ghost vconseq = input::view_exp(*conseq);
                let ghost valt = input::view_exp(*alt);
                let t = self.pred(block, *test);
                let mut conseq_block: Vec<Stmt> = Vec::new();
                proof {
                    assert(view_stmts(conseq_block@) =~= Seq::<SpecStmt>::empty());
                }
                self.effect(&mut conseq_block, *conseq);
                let mut alt_block: Vec<Stmt> = Vec::new();
                proof {
                    assert(view_stmts(alt_block@) =~= Seq::<SpecStmt>::empty());
                }
                self.effect(&mut alt_block, *alt);
                let ghost vcb = view_stmts(conseq_block@);
                let ghost vab = view_stmts(alt_block@);
                let joined = Stmt::If(t, conseq_block, alt_block);
                let ghost vjoined = view_stmt(joined);
                block.push(joined);
                proof {
                    let s1 = cc_pred(c0, vtest);
                    let s2 = cc_effect(s1.0, vconseq);
                    let s3 = cc_effect(s2.0, valt);
                    assert(vcb =~= s2.1);
                    assert(vab =~= s3.1);
                    assert(view_stmts(block@) =~= b0 + (s1.1 + seq![vjoined]));
                }
            },
            input::Exp::Triv(_) => {
                proof {
                    assert(view_stmts(block@) =~= b0 + Seq::empty());
                }
            },
        }
    }

    fn stmt(&mut self, block: &mut Vec<Stmt>, s: input::Stmt) -> (u: ())
        requires
            old(self).counter + size_stmt(input::view_stmt(s)) <= u64::MAX,
        ensures
            ({
                let r = cc_stmt(old(self).counter as nat, input::view_stmt(s));
                &&& final(self).counter as nat == r.0
                &&& view_stmts(final(block)@) == view_stmts(old(block)@) + r.1
            }),
        decreases s, 3int,
    {
        broadcast use {
            lemma_cc_pred_count,
            lemma_cc_value_count,
            lemma_cc_effect_count,
            lemma_cc_stmts_count,
        };

        let ghost c0 = self.counter as nat;
        let ghost b0 = view_stmts(block@);
        match s {
            input::Stmt::Exp(e) => {
                self.effect(block, *e);
            },
            input::Stmt::Let(x, e) => {
                match *e {
                    input::Exp::Binop(lhs, op, rhs) => {
                        let only = Stmt::LetBinop(x, conv(lhs), op, conv(rhs));
                        let ghost vonly = view_stmt(only);
                        block.push(only);
                        proof {
                            assert(view_stmts(block@) =~= b0 + seq![vonly]);
                        }
                    },
                    other => {
                        let ghost ve = input::view_exp(other);
                        let ghost vx = x@;
                        let t = self.value(block, other);
                        block.push(Stmt::Let(x, t));
                        proof {
                            let s1 = cc_value(c0, ve);
                            assert(view_stmts(block@) =~= b0 + (s1.1 + seq![
                                SpecStmt::Let(vx, s1.2),
                            ]));
                        }
                    },
                }
            },
            input::Stmt::If(test, conseq, alt) => {
                let ghost vtest = input::view_pred(*test);
                let ghost vconseq = input::view_stmts(conseq@);
                let ghost valt = input::view_stmts(alt@);
                let t = self.pred(block, *test);
                let conseq_block = self.stmt_block(conseq);
                let alt_block = self.stmt_block(alt);
                let joined = Stmt::If(t, conseq_block, alt_block);
                let ghost vjoined = view_stmt(joined);
                block.push(joined);
                proof {
                    let s1 = cc_pred(c0, vtest);
                    assert(view_stmts(block@) =~= b0 + (s1.1 + seq![vjoined]));
                }
            },
        }
    }

    fn stmts_into(&mut self, block: &mut Vec<Stmt>, ss: Vec<input::Stmt>) -> (u: ())
        requires
            old(self).counter + size_stmts(input::view_stmts(ss@)) <= u64::MAX,
        ensures
            ({
                let r = cc_stmts(old(self).counter as nat, input::view_stmts(ss@));
                &&& final(self).counter as nat == r.0
                &&& view_stmts(final(block)@) == view_stmts(old(block)@) + r.1
            }),
        decreases ss@, 0int,
    {
        broadcast use {
            lemma_cc_stmt_count,
            lemma_cc_stmts_count,
        };

        let ghost c0 = self.counter as nat;
        let ghost b0 = view_stmts(block@);
        let ghost vss = input::view_stmts(ss@);
        let mut rest = ss;
        if rest.len() == 0 {
            proof {
                assert(view_stmts(block@) =~= b0 + Seq::empty());
            }
        } else {
            let first = rest.remove(0);
            proof {
                assert(input::view_stmts(rest@) =~= vss.subrange(1, vss.len() as int));
                assert(decreases_to!(ss@ => first));
            }
            self.stmt(block, first);
            self.stmts_into(block, rest);
            proof {
                let s1 = cc_stmt(c0, vss[0]);
                let s2 = cc_stmts(s1.0, vss.subrange(1, vss.len() as int));
                assert(view_stmts(block@) =~= b0 + (s1.1 + s2.1));
            }
        }
    }

    /// Lower a statement list into a fresh block.
    fn stmt_block(&mut self, ss: Vec<input::Stmt>) -> (r: Vec<Stmt>)
        requires
            old(self).counter + size_stmts(input::view_stmts(ss@)) <= u64::MAX,
        ensures
            ({
                let s = cc_stmts(old(self).counter as nat, input::view_stmts(ss@));
                &&& final(self).counter as nat == s.0
                &&& view_stmts(r@) == s.1
            }),
        decreases ss@, 1int,
    {
        let ghost vss = input::view_stmts(ss@);
        let mut block: Vec<Stmt> = Vec::new();
        proof {
            assert(view_stmts(block@) =~= Seq::<SpecStmt>::empty());
        }
        self.stmts_into(&mut block, ss);
        proof {
            assert(Seq::<SpecStmt>::empty() + cc_stmts(
                old(self).counter as nat,
                vss,
            ).1 =~= cc_stmts(old(self).counter as nat, vss).1);
        }
        block
    }
}

/// Convert a trivial term of the middle languages into the final language.
fn conv(t: crate::ast::Triv) -> (r: Triv)
    ensures
        crate::shared::ast::view_triv(r) == conv_triv(crate::ast::view_triv(t)),
{
    match t {
        crate::ast::Triv::Value(v) => Triv::Value(v),
        crate::ast::Triv::Var(x) => Triv::Var(x),
    }
}

/// Emit the pushes for a call's arguments, in reverse order.
pub fn push_args(block: &mut Vec<Stmt>, args: Vec<crate::ast::Triv>) -> (u: ())
    ensures
        view_stmts(final(block)@) == view_stmts(old(block)@) + cc_push_args(
            crate::ast::view_trivs(args@),
        ),
    decreases args@,
{
    let ghost b0 = view_stmts(block@);
    let ghost va = crate::ast::view_trivs(args@);
    let mut rest = args;
    if rest.len() == 0 {
        proof {
            assert(view_stmts(block@) =~= b0 + Seq::empty());
        }
    } else {
        let first = rest.remove(0);
        proof {
            assert(crate::ast::view_trivs(rest@) =~= va.subrange(1, va.len() as int));
            assert(decreases_to!(args@ => rest@));
        }
        push_args(block, rest);
        let pushed = Stmt::Push(conv(first));
        let ghost vpushed = view_stmt(pushed);
        block.push(pushed);
        proof {
            assert(view_stmts(block@) =~= b0 + (cc_push_args(
                va.subrange(1, va.len() as int),
            ) + seq![vpushed]));
        }
    }
}

/// Block fusion, executable form: see [`cc_make_block`].
pub fn make_block(block: Vec<Stmt>, exp: Exp) -> (r: Exp)
    ensures
        view_exp(r) == cc_make_block(view_stmts(block@), view_exp(exp)),
    decreases exp,
{
    if block.len() == 0 {
        proof {
            assert(view_stmts(block@).len() == 0);
        }
        exp
    } else {
        match exp {
            Exp::Block(stmts, base) => {
                let ghost vb = view_stmts(block@);
                let ghost vs = view_stmts(stmts@);
                let mut fused = block;
                let mut stmts = stmts;
                fused.append(&mut stmts);
                proof {
                    assert(view_stmts(fused@) =~= vb + vs);
                }
                make_block(fused, *base)
            },
            other => Exp::Block(block, Box::new(other)),
        }
    }
}

pub broadcast proof fn lemma_cv_flat_stmts_concat(a: Seq<SpecStmt>, b: Seq<SpecStmt>)
    ensures
        #[trigger] crate::introduce_call_conventions::ast::flat_stmts(a + b)
            <==> crate::introduce_call_conventions::ast::flat_stmts(a)
            && crate::introduce_call_conventions::ast::flat_stmts(b),
{
    crate::introduce_call_conventions::ast::lemma_flat_stmts(a);
    crate::introduce_call_conventions::ast::lemma_flat_stmts(b);
    crate::introduce_call_conventions::ast::lemma_flat_stmts(a + b);
    if crate::introduce_call_conventions::ast::flat_stmts(a)
        && crate::introduce_call_conventions::ast::flat_stmts(b) {
        assert forall|i: int|
            0 <= i < (a + b).len() implies crate::introduce_call_conventions::ast::flat_stmt(
            (a + b)[i],
        ) by {
            if i < a.len() {
                assert((a + b)[i] == a[i]);
            } else {
                assert((a + b)[i] == b[i - a.len()]);
            }
        }
    }
    if crate::introduce_call_conventions::ast::flat_stmts(a + b) {
        assert forall|i: int|
            0 <= i < a.len() implies crate::introduce_call_conventions::ast::flat_stmt(a[i]) by {
            assert((a + b)[i] == a[i]);
        }
        assert forall|i: int|
            0 <= i < b.len() implies crate::introduce_call_conventions::ast::flat_stmt(b[i]) by {
            assert((a + b)[a.len() + i] == b[i]);
        }
    }
}

pub proof fn lemma_cc_push_args_flat(args: Seq<crate::ast::SpecTriv>)
    ensures
        crate::introduce_call_conventions::ast::flat_stmts(cc_push_args(args)),
    decreases args,
{
    broadcast use lemma_cv_flat_stmts_concat;

    if args.len() == 0 {
        assert(crate::introduce_call_conventions::ast::flat_stmts(Seq::<SpecStmt>::empty()));
    } else {
        lemma_cc_push_args_flat(args.subrange(1, args.len() as int));
        let only = SpecStmt::Push(conv_triv(args[0]));
        assert(crate::introduce_call_conventions::ast::flat_stmt(only));
        crate::introduce_call_conventions::ast::lemma_flat_stmts(seq![only]);
    }
}

/// Block fusion preserves flatness.
pub proof fn lemma_cc_make_block_flat(block: Seq<SpecStmt>, exp: SpecExp)
    requires
        crate::introduce_call_conventions::ast::flat_stmts(block),
        crate::introduce_call_conventions::ast::flat_exp(exp),
    ensures
        crate::introduce_call_conventions::ast::flat_exp(cc_make_block(block, exp)),
    decreases exp,
{
    broadcast use lemma_cv_flat_stmts_concat;

    if block.len() > 0 {
        match exp {
            SpecExp::Block(stmts, base) => {
                lemma_cc_make_block_flat(block + stmts, *base);
            },
            _ => {},
        }
    }
}

pub proof fn lemma_cc_tail_flat(c: nat, e: input::SpecExp)
    ensures
        crate::introduce_call_conventions::ast::flat_exp(cc_tail(c, e).1),
    decreases e, 1int,
{
    broadcast use lemma_cv_flat_stmts_concat;

    match e {
        input::SpecExp::Call(subject, args) => {
            lemma_cc_push_args_flat(args);
            assert(crate::introduce_call_conventions::ast::flat_exp(
                SpecExp::Call(conv_triv(subject)),
            ));
            lemma_cc_make_block_flat(cc_push_args(args), SpecExp::Call(conv_triv(subject)));
        },
        input::SpecExp::Block(stmts, body) => {
            lemma_cc_stmts_flat(c, stmts);
            lemma_cc_tail_flat(cc_stmts(c, stmts).0, *body);
            lemma_cc_make_block_flat(cc_stmts(c, stmts).1, cc_tail(cc_stmts(c, stmts).0, *body).1);
        },
        input::SpecExp::Binop(lhs, op, rhs) => {
            let name = spec_tmp_name(c + 1);
            let first = SpecStmt::LetBinop(name, conv_triv(lhs), op, conv_triv(rhs));
            let second = SpecStmt::ReturnSet(SpecTriv::Var(name));
            crate::introduce_call_conventions::ast::lemma_flat_stmts(seq![first, second]);
            assert(crate::introduce_call_conventions::ast::flat_exp(SpecExp::Return));
        },
        input::SpecExp::If(test, conseq, alt) => {
            let s1 = cc_pred(c, *test);
            lemma_cc_pred_flat(c, *test);
            lemma_cc_tail_flat(s1.0, *conseq);
            lemma_cc_tail_flat(cc_tail(s1.0, *conseq).0, *alt);
            let joined = SpecExp::If(
                s1.2,
                Box::new(cc_tail(s1.0, *conseq).1),
                Box::new(cc_tail(cc_tail(s1.0, *conseq).0, *alt).1),
            );
            assert(crate::introduce_call_conventions::ast::flat_exp(joined));
            lemma_cc_make_block_flat(s1.1, joined);
        },
        input::SpecExp::Triv(t) => {
            let only = SpecStmt::ReturnSet(conv_triv(t));
            crate::introduce_call_conventions::ast::lemma_flat_stmts(seq![only]);
            assert(crate::introduce_call_conventions::ast::flat_exp(SpecExp::Return));
        },
    }
}

pub proof fn lemma_cc_pred_flat(c: nat, p: input::SpecPred)
    ensures
        crate::introduce_call_conventions::ast::flat_stmts(cc_pred(c, p).1),
    decreases p, 1int,
{
    broadcast use lemma_cv_flat_stmts_concat;

    match p {
        input::SpecPred::Call(subject, args) => {
            lemma_cc_push_args_flat(args);
            let only = SpecStmt::Call(conv_triv(subject));
            assert(crate::introduce_call_conventions::ast::flat_stmt(only));
            crate::introduce_call_conventions::ast::lemma_flat_stmts(seq![only]);
        },
        input::SpecPred::Relop(lhs, op, rhs) => {
            let only = SpecStmt::LetBinop(spec_tmp_name(c + 1), conv_triv(lhs), op, conv_triv(rhs));
            assert(crate::introduce_call_conventions::ast::flat_stmt(only));
            crate::introduce_call_conventions::ast::lemma_flat_stmts(seq![only]);
        },
        input::SpecPred::If(test, conseq, alt) => {
            let s1 = cc_pred(c, *test);
            let s2 = cc_pred(s1.0, *conseq);
            let s3 = cc_pred(s2.0, *alt);
            lemma_cc_pred_flat(c, *test);
            lemma_cc_pred_flat(s1.0, *conseq);
            lemma_cc_pred_flat(s2.0, *alt);
            let name = spec_tmp_name(s3.0 + 1);
            let cbind = SpecStmt::Let(name, s2.2);
            let abind = SpecStmt::Let(name, s3.2);
            assert(crate::introduce_call_conventions::ast::flat_stmt(cbind));
            assert(crate::introduce_call_conventions::ast::flat_stmt(abind));
            crate::introduce_call_conventions::ast::lemma_flat_stmts(seq![cbind]);
            crate::introduce_call_conventions::ast::lemma_flat_stmts(seq![abind]);
            assert(crate::introduce_call_conventions::ast::flat_stmts(s2.1 + seq![cbind]));
            assert(crate::introduce_call_conventions::ast::flat_stmts(s3.1 + seq![abind]));
            let joined = SpecStmt::If(s1.2, s2.1 + seq![cbind], s3.1 + seq![abind]);
            assert(crate::introduce_call_conventions::ast::flat_stmt(joined));
            crate::introduce_call_conventions::ast::lemma_flat_stmts(seq![joined]);
        },
        input::SpecPred::Block(stmts, body) => {
            lemma_cc_stmts_flat(c, stmts);
            lemma_cc_pred_flat(cc_stmts(c, stmts).0, *body);
        },
        _ => {
            assert(crate::introduce_call_conventions::ast::flat_stmts(Seq::<SpecStmt>::empty()));
        },
    }
}

pub proof fn lemma_cc_value_flat(c: nat, e: input::SpecExp)
    ensures
        crate::introduce_call_conventions::ast::flat_stmts(cc_value(c, e).1),
    decreases e, 1int,
{
    broadcast use lemma_cv_flat_stmts_concat;

    match e {
        input::SpecExp::Call(subject, args) => {
            lemma_cc_push_args_flat(args);
            let only = SpecStmt::Call(conv_triv(subject));
            assert(crate::introduce_call_conventions::ast::flat_stmt(only));
            crate::introduce_call_conventions::ast::lemma_flat_stmts(seq![only]);
        },
        input::SpecExp::Block(stmts, body) => {
            lemma_cc_stmts_flat(c, stmts);
            lemma_cc_value_flat(cc_stmts(c, stmts).0, *body);
        },
        input::SpecExp::Binop(lhs, op, rhs) => {
            let only = SpecStmt::LetBinop(spec_tmp_name(c + 1), conv_triv(lhs), op, conv_triv(rhs));
            assert(crate::introduce_call_conventions::ast::flat_stmt(only));
            crate::introduce_call_conventions::ast::lemma_flat_stmts(seq![only]);
        },
        input::SpecExp::If(test, conseq, alt) => {
            let s1 = cc_pred(c, *test);
            let s2 = cc_value(s1.0, *conseq);
            let s3 = cc_value(s2.0, *alt);
            lemma_cc_pred_flat(c, *test);
            lemma_cc_value_flat(s1.0, *conseq);
            lemma_cc_value_flat(s2.0, *alt);
            let name = spec_tmp_name(s3.0 + 1);
            let cbind = SpecStmt::Let(name, s2.2);
            let abind = SpecStmt::Let(name, s3.2);
            assert(crate::introduce_call_conventions::ast::flat_stmt(cbind));
            assert(crate::introduce_call_conventions::ast::flat_stmt(abind));
            crate::introduce_call_conventions::ast::lemma_flat_stmts(seq![cbind]);
            crate::introduce_call_conventions::ast::lemma_flat_stmts(seq![abind]);
            assert(crate::introduce_call_conventions::ast::flat_stmts(s2.1 + seq![cbind]));
            assert(crate::introduce_call_conventions::ast::flat_stmts(s3.1 + seq![abind]));
            let joined = SpecStmt::If(s1.2, s2.1 + seq![cbind], s3.1 + seq![abind]);
            assert(crate::introduce_call_conventions::ast::flat_stmt(joined));
            crate::introduce_call_conventions::ast::lemma_flat_stmts(seq![joined]);
        },
        input::SpecExp::Triv(_) => {
            assert(crate::introduce_call_conventions::ast::flat_stmts(Seq::<SpecStmt>::empty()));
        },
    }
}

pub proof fn lemma_cc_effect_flat(c: nat, e: input::SpecExp)
    ensures
        crate::introduce_call_conventions::ast::flat_stmts(cc_effect(c, e).1),
    decreases e, 2int,
{
    broadcast use lemma_cv_flat_stmts_concat;

    match e {
        input::SpecExp::Call(subject, args) => {
            lemma_cc_push_args_flat(args);
            let only = SpecStmt::Call(conv_triv(subject));
            assert(crate::introduce_call_conventions::ast::flat_stmt(only));
            crate::introduce_call_conventions::ast::lemma_flat_stmts(seq![only]);
        },
        input::SpecExp::Block(stmts, body) => {
            lemma_cc_stmts_flat(c, stmts);
            lemma_cc_effect_flat(cc_stmts(c, stmts).0, *body);
        },
        input::SpecExp::If(test, conseq, alt) => {
            let s1 = cc_pred(c, *test);
            lemma_cc_pred_flat(c, *test);
            lemma_cc_effect_flat(s1.0, *conseq);
            lemma_cc_effect_flat(cc_effect(s1.0, *conseq).0, *alt);
            let joined = SpecStmt::If(
                s1.2,
                cc_effect(s1.0, *conseq).1,
                cc_effect(cc_effect(s1.0, *conseq).0, *alt).1,
            );
            assert(crate::introduce_call_conventions::ast::flat_stmt(joined));
            crate::introduce_call_conventions::ast::lemma_flat_stmts(seq![joined]);
        },
        _ => {
            assert(crate::introduce_call_conventions::ast::flat_stmts(Seq::<SpecStmt>::empty()));
        },
    }
}

pub proof fn lemma_cc_stmt_flat(c: nat, s: input::SpecStmt)
    ensures
        crate::introduce_call_conventions::ast::flat_stmts(cc_stmt(c, s).1),
    decreases s, 3int,
{
    broadcast use lemma_cv_flat_stmts_concat;

    match s {
        input::SpecStmt::Exp(e) => {
            lemma_cc_effect_flat(c, *e);
        },
        input::SpecStmt::Let(x, e) => {
            match *e {
                input::SpecExp::Binop(lhs, op, rhs) => {
                    let only = SpecStmt::LetBinop(x, conv_triv(lhs), op, conv_triv(rhs));
                    assert(crate::introduce_call_conventions::ast::flat_stmt(only));
                    crate::introduce_call_conventions::ast::lemma_flat_stmts(seq![only]);
                },
                _ => {
                    lemma_cc_value_flat(c, *e);
                    let s1 = cc_value(c, *e);
                    let only = SpecStmt::Let(x, s1.2);
                    assert(crate::introduce_call_conventions::ast::flat_stmt(only));
                    crate::introduce_call_conventions::ast::lemma_flat_stmts(seq![only]);
                },
            }
        },
        input::SpecStmt::If(test, conseq, alt) => {
            let s1 = cc_pred(c, *test);
            lemma_cc_pred_flat(c, *test);
            lemma_cc_stmts_flat(s1.0, conseq);
            lemma_cc_stmts_flat(cc_stmts(s1.0, conseq).0, alt);
            let joined = SpecStmt::If(
                s1.2,
                cc_stmts(s1.0, conseq).1,
                cc_stmts(cc_stmts(s1.0, conseq).0, alt).1,
            );
            assert(crate::introduce_call_conventions::ast::flat_stmt(joined));
            crate::introduce_call_conventions::ast::lemma_flat_stmts(seq![joined]);
        },
    }
}

pub proof fn lemma_cc_stmts_flat(c: nat, ss: Seq<input::SpecStmt>)
    ensures
        crate::introduce_call_conventions::ast::flat_stmts(cc_stmts(c, ss).1),
    decreases ss, 0int,
{
    broadcast use lemma_cv_flat_stmts_concat;

    if ss.len() == 0 {
        assert(crate::introduce_call_conventions::ast::flat_stmts(Seq::<SpecStmt>::empty()));
    } else {
        lemma_cc_stmt_flat(c, ss[0]);
        lemma_cc_stmts_flat(cc_stmt(c, ss[0]).0, ss.subrange(1, ss.len() as int));
    }
}

/// Flattening invariant of calling-convention introduction: every lowered
/// function body is flat — argument pushing and block fusion never leave a
/// nested statement list or a redundant block.
pub proof fn lemma_conventions_flat(body: input::SpecExp)
    ensures
        crate::introduce_call_conventions::ast::flat_exp(cc_fn(body)),
{
    lemma_cc_tail_flat(0, body);
}

/// Argument order: for a call with arguments `a_0 .. a_{n-1}`, the emitted
/// statements are exactly one push per argument, in reverse order — position
/// `i` of the push sequence holds argument `n - 1 - i`. Evaluation order is
/// untouched: the arguments were already reduced to trivial terms, in source
/// order, by value simplification.
pub proof fn lemma_push_args_order(args: Seq<crate::ast::SpecTriv>)
    ensures
        cc_push_args(args).len() == args.len(),
        forall|i: int|
            0 <= i < args.len() ==> cc_push_args(args)[i] == SpecStmt::Push(
                conv_triv(args[args.len() - 1 - i]),
            ),
    decreases args,
{
    if args.len() > 0 {
        let rest = args.subrange(1, args.len() as int);
        lemma_push_args_order(rest);
        assert forall|i: int|
            0 <= i < args.len() implies cc_push_args(args)[i] == SpecStmt::Push(
            conv_triv(args[args.len() - 1 - i]),
        ) by {
            if i < rest.len() {
                assert(cc_push_args(args)[i] == cc_push_args(rest)[i]);
                assert(rest[rest.len() - 1 - i] == args[args.len() - 1 - i]);
            }
        }
    }
}

/// Determinism of calling-convention introduction: structurally equal inputs
/// are lowered to structurally equal outputs; the counter restarts at zero
/// for every function body.
pub proof fn lemma_conventions_deterministic(b1: input::SpecExp, b2: input::SpecExp)
    requires
        b1 == b2,
    ensures
        cc_fn(b1) == cc_fn(b2),
{
}

} // verus!
