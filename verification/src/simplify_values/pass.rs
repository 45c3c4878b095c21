//! Value simplification: the pass from the surface language to ANF.
//!
//! Every operand of a call or binary operation and every conditional test is
//! reduced to a trivial term; compound sub-expressions are evaluated once,
//! bound to a fresh `tmp.<n>` temporary, and sequenced before use. The call
//! subject is reduced before the arguments, and arguments left to right, so
//! evaluation order (and therefore any side effect) is preserved. Freshly
//! built blocks are fused: a block whose trailing expression is itself a
//! block is spliced, never nested.
//!
//! The whole translation is stated as spec functions ([`simp_exp`] and its
//! companions); the executable pass is proved to return exactly what they
//! describe.

use vstd::prelude::*;

use crate::ast;
use crate::input;
use crate::shared::ast::{Program, Var, spec_tmp_name, tmp_name_of};

verus! {

broadcast use {
    crate::ast::lemma_view_stmts,
    crate::ast::lemma_view_trivs,
    crate::ast::lemma_view_stmts_push,
    crate::ast::lemma_view_trivs_push,
    crate::input::lemma_view_stmts,
    crate::input::lemma_view_exps,
};

/// The number of nodes of a surface expression; bounds how many temporaries
/// simplifying it can mint.
pub open spec fn size_exp(e: input::SpecExp) -> nat
    decreases e,
{
    match e {
        input::SpecExp::Call(subject, args) => 1 + size_exp(*subject) + size_exps(args),
        input::SpecExp::Block(stmts, body) => 1 + size_stmts(stmts) + size_exp(*body),
        input::SpecExp::Binop(lhs, _, rhs) => 1 + size_exp(*lhs) + size_exp(*rhs),
        input::SpecExp::If(test, conseq, alt) => 1 + size_exp(*test) + size_exp(*conseq)
            + size_exp(*alt),
        input::SpecExp::Value(_) => 1,
        input::SpecExp::Var(_) => 1,
    }
}

pub open spec fn size_exps(s: Seq<input::SpecExp>) -> nat
    decreases s,
{
    if s.len() == 0 {
        0
    } else {
        size_exp(s[0]) + size_exps(s.subrange(1, s.len() as int))
    }
}

pub open spec fn size_stmt(s: input::SpecStmt) -> nat
    decreases s,
{
    match s {
        input::SpecStmt::Exp(e) => size_exp(*e),
        input::SpecStmt::Let(_, e) => size_exp(*e),
    }
}

pub open spec fn size_stmts(ss: Seq<input::SpecStmt>) -> nat
    decreases ss,
{
    if ss.len() == 0 {
        0
    } else {
        size_stmt(ss[0]) + size_stmts(ss.subrange(1, ss.len() as int))
    }
}

/// Block fusion: prepend `block` to `exp`, splicing if `exp` is itself a
/// block, so statement lists stay flat and empty blocks are never created.
pub open spec fn spec_make_block(block: Seq<ast::SpecStmt>, exp: ast::SpecExp) -> ast::SpecExp
    decreases exp,
{
    if block.len() == 0 {
        exp
    } else {
        match exp {
            ast::SpecExp::Block(stmts, base) => spec_make_block(block + stmts, *base),
            _ => ast::SpecExp::Block(block, Box::new(exp)),
        }
    }
}

/// Simplify `e` in value position, with `c` temporaries already minted.
/// Yields the new counter, the statements to sequence before `e`'s value,
/// and the simplified expression.
pub open spec fn simp_exp(c: nat, e: input::SpecExp) -> (nat, Seq<ast::SpecStmt>, ast::SpecExp)
    decreases e, 0int,
{
    match e {
        input::SpecExp::Call(subject, args) => {
            let s1 = simp_triv(c, *subject);
            let s2 = simp_trivs(s1.0, args);
            (s2.0, s1.1 + s2.1, ast::SpecExp::Call(s1.2, s2.2))
        },
        input::SpecExp::Block(stmts, body) => {
            let s1 = simp_stmts(c, stmts);
            let s2 = simp_exp(s1.0, *body);
            (s2.0, s1.1 + s2.1, s2.2)
        },
        input::SpecExp::Binop(lhs, op, rhs) => {
            let s1 = simp_triv(c, *lhs);
            let s2 = simp_triv(s1.0, *rhs);
            (s2.0, s1.1 + s2.1, ast::SpecExp::Binop(s1.2, op, s2.2))
        },
        input::SpecExp::If(test, conseq, alt) => {
            let s1 = simp_triv(c, *test);
            let s2 = simp_block(s1.0, *conseq);
            let s3 = simp_block(s2.0, *alt);
            (s3.0, s1.1, ast::SpecExp::If(s1.2, Box::new(s2.1), Box::new(s3.1)))
        },
        input::SpecExp::Value(v) => (c, Seq::empty(), ast::SpecExp::Triv(ast::SpecTriv::Value(v))),
        input::SpecExp::Var(x) => (c, Seq::empty(), ast::SpecExp::Triv(ast::SpecTriv::Var(x))),
    }
}

/// Atomize `e`: if it is already trivial, leave it unchanged; otherwise
/// simplify it and, unless simplification already yielded a trivial term,
/// bind the result to a fresh temporary.
pub open spec fn simp_triv(c: nat, e: input::SpecExp) -> (nat, Seq<ast::SpecStmt>, ast::SpecTriv)
    decreases e, 1int,
{
    match e {
        input::SpecExp::Value(v) => (c, Seq::empty(), ast::SpecTriv::Value(v)),
        input::SpecExp::Var(x) => (c, Seq::empty(), ast::SpecTriv::Var(x)),
        _ => {
            let s = simp_exp(c, e);
            match s.2 {
                ast::SpecExp::Triv(t) => (s.0, s.1, t),
                _ => {
                    let name = spec_tmp_name(s.0 + 1);
                    (
                        s.0 + 1,
                        s.1 + seq![ast::SpecStmt::Let(name, Box::new(s.2))],
                        ast::SpecTriv::Var(name),
                    )
                },
            }
        },
    }
}

/// Atomize a list of expressions, left to right.
pub open spec fn simp_trivs(c: nat, s: Seq<input::SpecExp>) -> (
    nat,
    Seq<ast::SpecStmt>,
    Seq<ast::SpecTriv>,
)
    decreases s, 0int,
{
    if s.len() == 0 {
        (c, Seq::empty(), Seq::empty())
    } else {
        let s1 = simp_triv(c, s[0]);
        let s2 = simp_trivs(s1.0, s.subrange(1, s.len() as int));
        (s2.0, s1.1 + s2.1, seq![s1.2] + s2.2)
    }
}

/// Simplify a statement: the statements it contributes to the current block.
pub open spec fn simp_stmt(c: nat, s: input::SpecStmt) -> (nat, Seq<ast::SpecStmt>)
    decreases s, 0int,
{
    match s {
        input::SpecStmt::Exp(e) => {
            let s1 = simp_exp(c, *e);
            (s1.0, s1.1 + seq![ast::SpecStmt::Exp(Box::new(s1.2))])
        },
        input::SpecStmt::Let(x, e) => {
            let s1 = simp_exp(c, *e);
            (s1.0, s1.1 + seq![ast::SpecStmt::Let(x, Box::new(s1.2))])
        },
    }
}

pub open spec fn simp_stmts(c: nat, ss: Seq<input::SpecStmt>) -> (nat, Seq<ast::SpecStmt>)
    decreases ss, 0int,
{
    if ss.len() == 0 {
        (c, Seq::empty())
    } else {
        let s1 = simp_stmt(c, ss[0]);
        let s2 = simp_stmts(s1.0, ss.subrange(1, ss.len() as int));
        (s2.0, s1.1 + s2.1)
    }
}

/// Simplify `e` into a self-contained block expression.
pub open spec fn simp_block(c: nat, e: input::SpecExp) -> (nat, ast::SpecExp)
    decreases e, 1int,
{
    let s = simp_exp(c, e);
    (s.0, spec_make_block(s.1, s.2))
}

/// One whole function body, simplified with a fresh counter.
pub open spec fn simp_fn(body: input::SpecExp) -> ast::SpecExp {
    simp_block(0, body).1
}

pub broadcast proof fn lemma_simp_exp_count(c: nat, e: input::SpecExp)
    ensures
        c <= (#[trigger] simp_exp(c, e)).0,
        simp_exp(c, e).0 + 1 <= c + size_exp(e),
    decreases e, 0int,
{
    match e {
        input::SpecExp::Call(subject, args) => {
            lemma_simp_triv_count(c, *subject);
            lemma_simp_trivs_count(simp_triv(c, *subject).0, args);
        },
        input::SpecExp::Block(stmts, body) => {
            lemma_simp_stmts_count(c, stmts);
            lemma_simp_exp_count(simp_stmts(c, stmts).0, *body);
        },
        input::SpecExp::Binop(lhs, _, rhs) => {
            lemma_simp_triv_count(c, *lhs);
            lemma_simp_triv_count(simp_triv(c, *lhs).0, *rhs);
        },
        input::SpecExp::If(test, conseq, alt) => {
            lemma_simp_triv_count(c, *test);
            lemma_simp_block_count(simp_triv(c, *test).0, *conseq);
            lemma_simp_block_count(simp_block(simp_triv(c, *test).0, *conseq).0, *alt);
        },
        _ => {},
    }
}

pub broadcast proof fn lemma_simp_triv_count(c: nat, e: input::SpecExp)
    ensures
        c <= (#[trigger] simp_triv(c, e)).0,
        simp_triv(c, e).0 <= c + size_exp(e),
    decreases e, 1int,
{
    match e {
        input::SpecExp::Value(_) => {},
        input::SpecExp::Var(_) => {},
        _ => {
            lemma_simp_exp_count(c, e);
        },
    }
}

pub broadcast proof fn lemma_simp_trivs_count(c: nat, s: Seq<input::SpecExp>)
    ensures
        c <= (#[trigger] simp_trivs(c, s)).0,
        simp_trivs(c, s).0 <= c + size_exps(s),
    decreases s, 0int,
{
    if s.len() > 0 {
        lemma_simp_triv_count(c, s[0]);
        lemma_simp_trivs_count(simp_triv(c, s[0]).0, s.subrange(1, s.len() as int));
    }
}

pub broadcast proof fn lemma_simp_stmt_count(c: nat, s: input::SpecStmt)
    ensures
        c <= (#[trigger] simp_stmt(c, s)).0,
        simp_stmt(c, s).0 <= c + size_stmt(s),
    decreases s, 0int,
{
    match s {
        input::SpecStmt::Exp(e) => {
            lemma_simp_exp_count(c, *e);
        },
        input::SpecStmt::Let(_, e) => {
            lemma_simp_exp_count(c, *e);
        },
    }
}

pub broadcast proof fn lemma_simp_stmts_count(c: nat, ss: Seq<input::SpecStmt>)
    ensures
        c <= (#[trigger] simp_stmts(c, ss)).0,
        simp_stmts(c, ss).0 <= c + size_stmts(ss),
    decreases ss, 0int,
{
    if ss.len() > 0 {
        lemma_simp_stmt_count(c, ss[0]);
        lemma_simp_stmts_count(simp_stmt(c, ss[0]).0, ss.subrange(1, ss.len() as int));
    }
}

pub proof fn lemma_simp_block_count(c: nat, e: input::SpecExp)
    ensures
        c <= simp_block(c, e).0,
        simp_block(c, e).0 + 1 <= c + size_exp(e),
    decreases e, 1int,
{
    lemma_simp_exp_count(c, e);
}

/// The value-simplification pass. The counter numbers the temporaries minted
/// while one function body is translated; it restarts at zero for each body.
pub struct Pass {
    counter: u64,
}

impl Pass {
    /// Translate a whole program, each function body independently with its
    /// own fresh counter.
    pub fn run(program: Program<input::Exp>) -> (r: Program<ast::Exp>)
        requires
            forall|i: int|
                0 <= i < program.funcs@.len() ==> size_exp(
                    input::view_exp(#[trigger] program.funcs@[i].1),
                ) <= u64::MAX,
        ensures
            r.funcs@.len() == program.funcs@.len(),
            forall|i: int|
                0 <= i < r.funcs@.len() ==> (#[trigger] r.funcs@[i]).0@ == program.funcs@[i].0@
                    && ast::view_exp(r.funcs@[i].1) == simp_fn(input::view_exp(
                    program.funcs@[i].1,
                )),
    {
        let Program { mut funcs } = program;
        let ghost orig = funcs@;
        let mut output_funcs: Vec<(Var, ast::Exp)> = Vec::new();
        while funcs.len() > 0
            invariant
                funcs@ == orig.subrange(output_funcs@.len() as int, orig.len() as int),
                output_funcs@.len() <= orig.len(),
                forall|i: int|
                    0 <= i < orig.len() ==> size_exp(input::view_exp(#[trigger] orig[i].1))
                        <= u64::MAX,
                forall|i: int|
                    0 <= i < output_funcs@.len() ==> (#[trigger] output_funcs@[i]).0@
                        == orig[i].0@ && ast::view_exp(output_funcs@[i].1) == simp_fn(
                        input::view_exp(orig[i].1),
                    ),
            decreases funcs@.len(),
        {
            let ghost done = output_funcs@.len() as int;
            let (name, body) = funcs.remove(0);
            proof {
                assert(orig.subrange(done, orig.len() as int)[0] == orig[done]);
            }
            let mut pass = Pass { counter: 0 };
            let new_body = pass.exp_block(Box::new(body));
            output_funcs.push((name, *new_body));
            proof {
                assert(funcs@ =~= orig.subrange(
                    output_funcs@.len() as int,
                    orig.len() as int,
                ));
            }
        }
        Program { funcs: output_funcs }
    }

    /// Mint the next temporary name.
    fn make_tmp(&mut self) -> (r: Var)
        requires
            old(self).counter < u64::MAX,
        ensures
            final(self).counter == old(self).counter + 1,
            r@ == spec_tmp_name(final(self).counter as nat),
    {
        self.counter = self.counter + 1;
        tmp_name_of(self.counter)
    }

    fn exp(&mut self, block: &mut Vec<ast::Stmt>, e: input::Exp) -> (r: ast::Exp)
        requires
            old(self).counter + size_exp(input::view_exp(e)) <= u64::MAX,
        ensures
            ({
                let s = simp_exp(old(self).counter as nat, input::view_exp(e));
                &&& final(self).counter as nat == s.0
                &&& ast::view_stmts(final(block)@) == ast::view_stmts(old(block)@) + s.1
                &&& ast::view_exp(r) == s.2
            }),
        decreases e, 0int,
    {
        broadcast use {
            lemma_simp_exp_count,
            lemma_simp_triv_count,
            lemma_simp_trivs_count,
            lemma_simp_stmt_count,
            lemma_simp_stmts_count,
        };

        let ghost c0 = self.counter as nat;
        let ghost b0 = ast::view_stmts(block@);
        match e {
            input::Exp::Call(subject, args) => {
                let ghost vs = input::view_exp(*subject);
                let new_subject = self.triv(block, *subject);
                let new_args = self.trivs(block, args);
                proof {
                    let s1 = simp_triv(c0, vs);
                    let s2 = simp_trivs(s1.0, input::view_exps(args@));
                    assert(ast::view_stmts(block@) =~= b0 + (s1.1 + s2.1));
                }
                ast::Exp::Call(new_subject, new_args)
            },
            input::Exp::Block(stmts, body) => {
                let ghost vss = input::view_stmts(stmts@);
                self.stmts(block, stmts);
                let r = self.exp(block, *body);
                proof {
                    let s1 = simp_stmts(c0, vss);
                    let s2 = simp_exp(s1.0, input::view_exp(*body));
                    assert(ast::view_stmts(block@) =~= b0 + (s1.1 + s2.1));
                }
                r
            },
            input::Exp::Binop(lhs, op, rhs) => {
                let ghost vl = input::view_exp(*lhs);
                let l = self.triv(block, *lhs);
                let r = self.triv(block, *rhs);
                proof {
                    let s1 = simp_triv(c0, vl);
                    let s2 = simp_triv(s1.0, input::view_exp(*rhs));
                    assert(ast::view_stmts(block@) =~= b0 + (s1.1 + s2.1));
                }
                ast::Exp::Binop(l, op, r)
            },
            input::Exp::If(test, conseq, alt) => {
                let ghost vc = input::view_exp(*conseq);
                let t = self.triv(block, *test);
                proof {
                    lemma_simp_block_count(self.counter as nat, vc);
                }
                let c = self.exp_block(conseq);
                let a = self.exp_block(alt);
                ast::Exp::If(t, c, a)
            },
            input::Exp::Value(v) => {
                proof {
                    assert(ast::view_stmts(block@) =~= b0 + Seq::empty());
                }
                ast::Exp::Triv(ast::Triv::Value(v))
            },
            input::Exp::Var(x) => {
                proof {
                    assert(ast::view_stmts(block@) =~= b0 + Seq::empty());
                }
                ast::Exp::Triv(ast::Triv::Var(x))
            },
        }
    }

    /// Simplify `e` into a self-contained block expression, starting from an
    /// empty statement list.
    fn exp_block(&mut self, e: Box<input::Exp>) -> (r: Box<ast::Exp>)
        requires
            old(self).counter + size_exp(input::view_exp(*e)) <= u64::MAX,
        ensures
            ({
                let s = simp_block(old(self).counter as nat, input::view_exp(*e));
                &&& final(self).counter as nat == s.0
                &&& ast::view_exp(*r) == s.1
            }),
        decreases *e, 1int,
    {
        broadcast use {lemma_simp_exp_count, lemma_simp_stmts_count};

        let mut block: Vec<ast::Stmt> = Vec::new();
        proof {
            assert(ast::view_stmts(block@) =~= Seq::<ast::SpecStmt>::empty());
        }
        let r = self.exp(&mut block, *e);
        proof {
            assert(ast::view_stmts(block@) =~= Seq::<ast::SpecStmt>::empty() + ast::view_stmts(
                block@,
            ));
        }
        Box::new(make_block(block, r))
    }

    fn triv(&mut self, block: &mut Vec<ast::Stmt>, e: input::Exp) -> (r: ast::Triv)
        requires
            old(self).counter + size_exp(input::view_exp(e)) <= u64::MAX,
        ensures
            ({
                let s = simp_triv(old(self).counter as nat, input::view_exp(e));
                &&& final(self).counter as nat == s.0
                &&& ast::view_stmts(final(block)@) == ast::view_stmts(old(block)@) + s.1
                &&& ast::view_triv(r) == s.2
            }),
        decreases e, 1int,
    {
        broadcast use {
            lemma_simp_exp_count,
            lemma_simp_triv_count,
            lemma_simp_trivs_count,
            lemma_simp_stmt_count,
            lemma_simp_stmts_count,
        };

        let ghost c0 = self.counter as nat;
        let ghost b0 = ast::view_stmts(block@);
        match e {
            input::Exp::Value(v) => {
                proof {
                    assert(ast::view_stmts(block@) =~= b0 + Seq::empty());
                }
                ast::Triv::Value(v)
            },
            input::Exp::Var(x) => {
                proof {
                    assert(ast::view_stmts(block@) =~= b0 + Seq::empty());
                }
                ast::Triv::Var(x)
            },
            hoist => {
                let ghost ve = input::view_exp(hoist);
                let r = self.exp(block, hoist);
                match r {
                    ast::Exp::Triv(t) => t,
                    compound => {
                        let tmp = self.make_tmp();
                        let name = tmp.clone();
                        let ghost prev = block@;
                        block.push(ast::Stmt::Let(tmp, Box::new(compound)));
                        proof {
                            let s = simp_exp(c0, ve);
                            assert(ast::view_stmts(block@) == ast::view_stmts(prev).push(
                                ast::SpecStmt::Let(spec_tmp_name(s.0 + 1), Box::new(s.2)),
                            ));
                            assert(ast::view_stmts(block@) =~= b0 + (s.1 + seq![
                                ast::SpecStmt::Let(spec_tmp_name(s.0 + 1), Box::new(s.2)),
                            ]));
                        }
                        ast::Triv::Var(name)
                    },
                }
            },
        }
    }

    /// Atomize the elements of `args` left to right, preserving evaluation
    /// order.
    fn trivs(&mut self, block: &mut Vec<ast::Stmt>, args: Vec<input::Exp>) -> (r: Vec<ast::Triv>)
        requires
            old(self).counter + size_exps(input::view_exps(args@)) <= u64::MAX,
        ensures
            ({
                let s = simp_trivs(old(self).counter as nat, input::view_exps(args@));
                &&& final(self).counter as nat == s.0
                &&& ast::view_stmts(final(block)@) == ast::view_stmts(old(block)@) + s.1
                &&& ast::view_trivs(r@) == s.2
            }),
        decreases args@, 0int,
    {
        broadcast use {
            lemma_simp_exp_count,
            lemma_simp_triv_count,
            lemma_simp_trivs_count,
            lemma_simp_stmt_count,
            lemma_simp_stmts_count,
        };

        let ghost c0 = self.counter as nat;
        let ghost b0 = ast::view_stmts(block@);
        let ghost va = input::view_exps(args@);
        let mut rest = args;
        if rest.len() == 0 {
            let r: Vec<ast::Triv> = Vec::new();
            proof {
                assert(ast::view_stmts(block@) =~= b0 + Seq::empty());
                assert(ast::view_trivs(r@) =~= Seq::<ast::SpecTriv>::empty());
            }
            r
        } else {
            let first = rest.remove(0);
            proof {
                assert(input::view_exps(rest@) =~= va.subrange(1, va.len() as int));
                assert(decreases_to!(args@ => first));
            }
            let t = self.triv(block, first);
            let mut ts = self.trivs(block, rest);
            let mut r: Vec<ast::Triv> = Vec::new();
            r.push(t);
            r.append(&mut ts);
            proof {
                let s1 = simp_triv(c0, va[0]);
                let s2 = simp_trivs(s1.0, va.subrange(1, va.len() as int));
                assert(ast::view_stmts(block@) =~= b0 + (s1.1 + s2.1));
                assert(ast::view_trivs(r@) =~= seq![s1.2] + s2.2);
            }
            r
        }
    }

    fn stmt(&mut self, block: &mut Vec<ast::Stmt>, s: input::Stmt) -> (u: ())
        requires
            old(self).counter + size_stmt(input::view_stmt(s)) <= u64::MAX,
        ensures
            ({
                let r = simp_stmt(old(self).counter as nat, input::view_stmt(s));
                &&& final(self).counter as nat == r.0
                &&& ast::view_stmts(final(block)@) == ast::view_stmts(old(block)@) + r.1
            }),
        decreases s, 0int,
    {
        broadcast use {
            lemma_simp_exp_count,
            lemma_simp_triv_count,
            lemma_simp_trivs_count,
            lemma_simp_stmt_count,
            lemma_simp_stmts_count,
        };

        let ghost c0 = self.counter as nat;
        let ghost b0 = ast::view_stmts(block@);
        match s {
            input::Stmt::Exp(e) => {
                let ghost ve = input::view_exp(*e);
                let r = self.exp(block, *e);
                let ghost prev = block@;
                block.push(ast::Stmt::Exp(Box::new(r)));
                proof {
                    let s1 = simp_exp(c0, ve);
                    assert(ast::view_stmts(block@) == ast::view_stmts(prev).push(
                        ast::SpecStmt::Exp(Box::new(s1.2)),
                    ));
                    assert(ast::view_stmts(block@) =~= b0 + (s1.1 + seq![
                        ast::SpecStmt::Exp(Box::new(s1.2)),
                    ]));
                }
            },
            input::Stmt::Let(x, e) => {
                let ghost ve = input::view_exp(*e);
                let ghost vx = x@;
                let r = self.exp(block, *e);
                let ghost prev = block@;
                block.push(ast::Stmt::Let(x, Box::new(r)));
                proof {
                    let s1 = simp_exp(c0, ve);
                    assert(ast::view_stmts(block@) == ast::view_stmts(prev).push(
                        ast::SpecStmt::Let(vx, Box::new(s1.2)),
                    ));
                    assert(ast::view_stmts(block@) =~= b0 + (s1.1 + seq![
                        ast::SpecStmt::Let(vx, Box::new(s1.2)),
                    ]));
                }
            },
        }
    }

    fn stmts(&mut self, block: &mut Vec<ast::Stmt>, ss: Vec<input::Stmt>) -> (u: ())
        requires
            old(self).counter + size_stmts(input::view_stmts(ss@)) <= u64::MAX,
        ensures
            ({
                let r = simp_stmts(old(self).counter as nat, input::view_stmts(ss@));
                &&& final(self).counter as nat == r.0
                &&& ast::view_stmts(final(block)@) == ast::view_stmts(old(block)@) + r.1
            }),
        decreases ss@, 0int,
    {
        broadcast use {
            lemma_simp_exp_count,
            lemma_simp_triv_count,
            lemma_simp_trivs_count,
            lemma_simp_stmt_count,
            lemma_simp_stmts_count,
        };

        let ghost c0 = self.counter as nat;
        let ghost b0 = ast::view_stmts(block@);
        let ghost vss = input::view_stmts(ss@);
        let mut rest = ss;
        if rest.len() == 0 {
            proof {
                assert(ast::view_stmts(block@) =~= b0 + Seq::empty());
            }
        } else {
            let first = rest.remove(0);
            proof {
                assert(input::view_stmts(rest@) =~= vss.subrange(1, vss.len() as int));
                assert(decreases_to!(ss@ => first));
            }
            self.stmt(block, first);
            self.stmts(block, rest);
            proof {
                let s1 = simp_stmt(c0, vss[0]);
                let s2 = simp_stmts(s1.0, vss.subrange(1, vss.len() as int));
                assert(ast::view_stmts(block@) =~= b0 + (s1.1 + s2.1));
            }
        }
    }
}

/// Block fusion, executable form: see [`spec_make_block`].
pub fn make_block(block: Vec<ast::Stmt>, exp: ast::Exp) -> (r: ast::Exp)
    ensures
        ast::view_exp(r) == spec_make_block(ast::view_stmts(block@), ast::view_exp(exp)),
    decreases exp,
{
    if block.len() == 0 {
        proof {
            assert(ast::view_stmts(block@).len() == 0);
        }
        exp
    } else {
        match exp {
            ast::Exp::Block(stmts, base) => {
                let ghost vb = ast::view_stmts(block@);
                let ghost vs = ast::view_stmts(stmts@);
                let mut fused = block;
                let mut stmts = stmts;
                fused.append(&mut stmts);
                proof {
                    assert(ast::view_stmts(fused@) =~= vb + vs);
                }
                make_block(fused, *base)
            },
            other => ast::Exp::Block(block, Box::new(other)),
        }
    }
}

pub broadcast proof fn lemma_flat_stmts_concat(a: Seq<ast::SpecStmt>, b: Seq<ast::SpecStmt>)
    ensures
        #[trigger] ast::flat_stmts(a + b) <==> ast::flat_stmts(a) && ast::flat_stmts(b),
{
    ast::lemma_flat_stmts(a);
    ast::lemma_flat_stmts(b);
    ast::lemma_flat_stmts(a + b);
    if ast::flat_stmts(a) && ast::flat_stmts(b) {
        assert forall|i: int| 0 <= i < (a + b).len() implies ast::flat_stmt((a + b)[i]) by {
            if i < a.len() {
                assert((a + b)[i] == a[i]);
            } else {
                assert((a + b)[i] == b[i - a.len()]);
            }
        }
    }
    if ast::flat_stmts(a + b) {
        assert forall|i: int| 0 <= i < a.len() implies ast::flat_stmt(a[i]) by {
            assert((a + b)[i] == a[i]);
        }
        assert forall|i: int| 0 <= i < b.len() implies ast::flat_stmt(b[i]) by {
            assert((a + b)[a.len() + i] == b[i]);
        }
    }
}

/// Block fusion preserves flatness.
pub proof fn lemma_make_block_flat(block: Seq<ast::SpecStmt>, exp: ast::SpecExp)
    requires
        ast::flat_stmts(block),
        ast::flat_exp(exp),
    ensures
        ast::flat_exp(spec_make_block(block, exp)),
    decreases exp,
{
    broadcast use lemma_flat_stmts_concat;

    if block.len() > 0 {
        match exp {
            ast::SpecExp::Block(stmts, base) => {
                lemma_make_block_flat(block + stmts, *base);
            },
            _ => {},
        }
    }
}

pub proof fn lemma_simp_exp_flat(c: nat, e: input::SpecExp)
    ensures
        ast::flat_stmts(simp_exp(c, e).1),
        ast::flat_exp(simp_exp(c, e).2),
        !(simp_exp(c, e).2 is Block),
    decreases e, 0int,
{
    broadcast use lemma_flat_stmts_concat;

    match e {
        input::SpecExp::Call(subject, args) => {
            lemma_simp_triv_flat(c, *subject);
            lemma_simp_trivs_flat(simp_triv(c, *subject).0, args);
        },
        input::SpecExp::Block(stmts, body) => {
            lemma_simp_stmts_flat(c, stmts);
            lemma_simp_exp_flat(simp_stmts(c, stmts).0, *body);
        },
        input::SpecExp::Binop(lhs, _, rhs) => {
            lemma_simp_triv_flat(c, *lhs);
            lemma_simp_triv_flat(simp_triv(c, *lhs).0, *rhs);
        },
        input::SpecExp::If(test, conseq, alt) => {
            lemma_simp_triv_flat(c, *test);
            lemma_simp_block_flat(simp_triv(c, *test).0, *conseq);
            lemma_simp_block_flat(simp_block(simp_triv(c, *test).0, *conseq).0, *alt);
        },
        _ => {
            assert(ast::flat_stmts(Seq::<ast::SpecStmt>::empty()));
        },
    }
}

pub proof fn lemma_simp_triv_flat(c: nat, e: input::SpecExp)
    ensures
        ast::flat_stmts(simp_triv(c, e).1),
    decreases e, 1int,
{
    broadcast use lemma_flat_stmts_concat;

    match e {
        input::SpecExp::Value(_) => {
            assert(ast::flat_stmts(Seq::<ast::SpecStmt>::empty()));
        },
        input::SpecExp::Var(_) => {
            assert(ast::flat_stmts(Seq::<ast::SpecStmt>::empty()));
        },
        _ => {
            lemma_simp_exp_flat(c, e);
            let s = simp_exp(c, e);
            match s.2 {
                ast::SpecExp::Triv(_) => {},
                _ => {
                    let name = spec_tmp_name(s.0 + 1);
                    assert(ast::flat_stmt(ast::SpecStmt::Let(name, Box::new(s.2))));
                    ast::lemma_flat_stmts(seq![ast::SpecStmt::Let(name, Box::new(s.2))]);
                    assert(ast::flat_stmts(seq![ast::SpecStmt::Let(name, Box::new(s.2))]));
                },
            }
        },
    }
}

pub proof fn lemma_simp_trivs_flat(c: nat, s: Seq<input::SpecExp>)
    ensures
        ast::flat_stmts(simp_trivs(c, s).1),
    decreases s, 0int,
{
    broadcast use lemma_flat_stmts_concat;

    if s.len() == 0 {
        assert(ast::flat_stmts(Seq::<ast::SpecStmt>::empty()));
    } else {
        lemma_simp_triv_flat(c, s[0]);
        lemma_simp_trivs_flat(simp_triv(c, s[0]).0, s.subrange(1, s.len() as int));
    }
}

pub proof fn lemma_simp_stmt_flat(c: nat, s: input::SpecStmt)
    ensures
        ast::flat_stmts(simp_stmt(c, s).1),
    decreases s, 0int,
{
    broadcast use lemma_flat_stmts_concat;

    match s {
        input::SpecStmt::Exp(e) => {
            lemma_simp_exp_flat(c, *e);
            let s1 = simp_exp(c, *e);
            ast::lemma_flat_stmts(seq![ast::SpecStmt::Exp(Box::new(s1.2))]);
            assert(ast::flat_stmts(seq![ast::SpecStmt::Exp(Box::new(s1.2))]));
        },
        input::SpecStmt::Let(x, e) => {
            lemma_simp_exp_flat(c, *e);
            let s1 = simp_exp(c, *e);
            ast::lemma_flat_stmts(seq![ast::SpecStmt::Let(x, Box::new(s1.2))]);
            assert(ast::flat_stmts(seq![ast::SpecStmt::Let(x, Box::new(s1.2))]));
        },
    }
}

pub proof fn lemma_simp_stmts_flat(c: nat, ss: Seq<input::SpecStmt>)
    ensures
        ast::flat_stmts(simp_stmts(c, ss).1),
    decreases ss, 0int,
{
    broadcast use lemma_flat_stmts_concat;

    if ss.len() == 0 {
        assert(ast::flat_stmts(Seq::<ast::SpecStmt>::empty()));
    } else {
        lemma_simp_stmt_flat(c, ss[0]);
        lemma_simp_stmts_flat(simp_stmt(c, ss[0]).0, ss.subrange(1, ss.len() as int));
    }
}

pub proof fn lemma_simp_block_flat(c: nat, e: input::SpecExp)
    ensures
        ast::flat_exp(simp_block(c, e).1),
    decreases e, 1int,
{
    lemma_simp_exp_flat(c, e);
    let s = simp_exp(c, e);
    lemma_make_block_flat(s.1, s.2);
}

/// Flattening invariant of value simplification: in every simplified
/// function body, every block is flat — its statement list is nonempty, no
/// statement is itself a block, and its trailing expression is not a block.
pub proof fn lemma_simplify_flat(body: input::SpecExp)
    ensures
        ast::flat_exp(simp_fn(body)),
{
    lemma_simp_block_flat(0, body);
}

/// Determinism of value simplification: structurally equal inputs are
/// simplified to structurally equal outputs. `Pass::run` translates each
/// function body to exactly `simp_fn` of its model, with a counter that
/// restarts at zero for every body, so two runs over structurally equal
/// programs return structurally equal programs, generated temporaries
/// included.
pub proof fn lemma_simplify_deterministic(b1: input::SpecExp, b2: input::SpecExp)
    requires
        b1 == b2,
    ensures
        simp_fn(b1) == simp_fn(b2),
{
}

} // verus!
