//! Context normalization: the pass from ANF to the context-normalized
//! language.
//!
//! Every expression is rewritten into the role its use requires. A
//! relational comparison used where a value is expected is compiled to a
//! conditional that materializes the canonical `True`/`False` constants; a
//! trivial term used to steer control flow goes through the one uniform
//! truthiness test, "not equal to the `False` constant"; an expression used
//! purely for effect is stripped to its effect-relevant residue (trivial
//! terms and pure arithmetic on them vanish, calls are kept, conditionals
//! keep both branches as statement lists). Block fusion mirrors value
//! simplification: freshly built blocks are spliced flat, never nested.
//!
//! Because the input is ANF, every test reaching predicate position is a
//! trivial term, so the truthiness rule on trivial terms covers every
//! predicate this pass can meet; no fresh temporaries are ever needed.

use vstd::prelude::*;

use crate::ast;
use crate::normalize_context::ast::{
    Exp, Pred, SpecExp, SpecPred, SpecStmt, Stmt, view_exp, view_pred, view_stmt, view_stmts,
};
use crate::shared::ast::{Program, Value, Var};

verus! {

broadcast use {
    crate::ast::lemma_view_stmts,
    crate::ast::lemma_view_trivs,
    crate::normalize_context::ast::lemma_view_stmts,
    crate::normalize_context::ast::lemma_view_stmts_push,
};

/// Block fusion for value blocks: see the module documentation.
pub open spec fn nc_make_block(block: Seq<SpecStmt>, exp: SpecExp) -> SpecExp
    decreases exp,
{
    if block.len() == 0 {
        exp
    } else {
        match exp {
            SpecExp::Block(stmts, base) => nc_make_block(block + stmts, *base),
            _ => SpecExp::Block(block, Box::new(exp)),
        }
    }
}

/// The uniform truthiness rule: a trivial term steers control flow through
/// the one and only test "is it the `False` constant".
pub open spec fn nc_pred(t: ast::SpecTriv) -> SpecPred {
    SpecPred::If(
        Box::new(SpecPred::Relop(t, crate::shared::ast::Op::Eq, ast::SpecTriv::Value(Value::False))),
        Box::new(SpecPred::False),
        Box::new(SpecPred::True),
    )
}

/// Normalize an ANF expression in value context.
pub open spec fn nc_value(e: ast::SpecExp) -> SpecExp
    decreases e, 1int,
{
    match e {
        ast::SpecExp::Call(subject, args) => SpecExp::Call(subject, args),
        ast::SpecExp::Block(stmts, body) => nc_make_block(nc_stmts(stmts), nc_value(*body)),
        ast::SpecExp::Binop(lhs, op, rhs) => if op.is_arith() {
            SpecExp::Binop(lhs, op, rhs)
        } else {
            SpecExp::If(
                Box::new(SpecPred::Relop(lhs, op, rhs)),
                Box::new(SpecExp::Triv(ast::SpecTriv::Value(Value::True))),
                Box::new(SpecExp::Triv(ast::SpecTriv::Value(Value::False))),
            )
        },
        ast::SpecExp::If(test, conseq, alt) => SpecExp::If(
            Box::new(nc_pred(test)),
            Box::new(nc_value(*conseq)),
            Box::new(nc_value(*alt)),
        ),
        ast::SpecExp::Triv(t) => SpecExp::Triv(t),
    }
}

/// Normalize an ANF expression in effect context: only its effect-relevant
/// residue remains. Trivial terms and arithmetic on trivial terms vanish;
/// calls are kept; a conditional keeps both branches as statement lists.
pub open spec fn nc_effect(e: ast::SpecExp) -> Seq<SpecStmt>
    decreases e, 1int,
{
    match e {
        ast::SpecExp::Call(subject, args) => seq![
            SpecStmt::Exp(Box::new(SpecExp::Call(subject, args))),
        ],
        ast::SpecExp::Block(stmts, body) => nc_stmts(stmts) + nc_effect(*body),
        ast::SpecExp::Binop(_, _, _) => Seq::empty(),
        ast::SpecExp::If(test, conseq, alt) => seq![
            SpecStmt::If(Box::new(nc_pred(test)), nc_effect(*conseq), nc_effect(*alt)),
        ],
        ast::SpecExp::Triv(_) => Seq::empty(),
    }
}

/// The statements an ANF statement contributes: a binding normalizes its
/// right-hand side in value context; a bare expression is reduced to its
/// effect residue.
pub open spec fn nc_stmt(s: ast::SpecStmt) -> Seq<SpecStmt>
    decreases s, 2int,
{
    match s {
        ast::SpecStmt::Exp(e) => nc_effect(*e),
        ast::SpecStmt::Let(x, e) => seq![SpecStmt::Let(x, Box::new(nc_value(*e)))],
    }
}

pub open spec fn nc_stmts(ss: Seq<ast::SpecStmt>) -> Seq<SpecStmt>
    decreases ss, 0int,
{
    if ss.len() == 0 {
        Seq::empty()
    } else {
        nc_stmt(ss[0]) + nc_stmts(ss.subrange(1, ss.len() as int))
    }
}

/// One whole function body, normalized in value context.
pub open spec fn nc_fn(body: ast::SpecExp) -> SpecExp {
    nc_value(body)
}

/// The context-normalization pass.
pub struct Pass;

impl Pass {
    /// Translate a whole program, each function body independently.
    pub fn run(program: Program<ast::Exp>) -> (r: Program<Exp>)
        ensures
            r.funcs@.len() == program.funcs@.len(),
            forall|i: int|
                0 <= i < r.funcs@.len() ==> (#[trigger] r.funcs@[i]).0@ == program.funcs@[i].0@
                    && view_exp(r.funcs@[i].1) == nc_fn(ast::view_exp(program.funcs@[i].1)),
    {
        let Program { mut funcs } = program;
        let ghost orig = funcs@;
        let mut output_funcs: Vec<(Var, Exp)> = Vec::new();
        while funcs.len() > 0
            invariant
                funcs@ == orig.subrange(output_funcs@.len() as int, orig.len() as int),
                output_funcs@.len() <= orig.len(),
                forall|i: int|
                    0 <= i < output_funcs@.len() ==> (#[trigger] output_funcs@[i]).0@
                        == orig[i].0@ && view_exp(output_funcs@[i].1) == nc_fn(
                        ast::view_exp(orig[i].1),
                    ),
            decreases funcs@.len(),
        {
            let ghost done = output_funcs@.len() as int;
            let (name, body) = funcs.remove(0);
            proof {
                assert(orig.subrange(done, orig.len() as int)[0] == orig[done]);
            }
            let new_body = Self::value(body);
            output_funcs.push((name, new_body));
            proof {
                assert(funcs@ =~= orig.subrange(
                    output_funcs@.len() as int,
                    orig.len() as int,
                ));
            }
        }
        Program { funcs: output_funcs }
    }

    fn value(e: ast::Exp) -> (r: Exp)
        ensures
            view_exp(r) == nc_value(ast::view_exp(e)),
        decreases e, 1int,
    {
        match e {
            ast::Exp::Call(subject, args) => Exp::Call(subject, args),
            ast::Exp::Block(stmts, body) => {
                let block = Self::stmts(stmts);
                let base = Self::value(*body);
                make_block(block, base)
            },
            ast::Exp::Binop(lhs, op, rhs) => {
                match op {
                    crate::shared::ast::Op::Add | crate::shared::ast::Op::Sub => Exp::Binop(
                        lhs,
                        op,
                        rhs,
                    ),
                    crate::shared::ast::Op::Eq | crate::shared::ast::Op::Neq => {
                        let test = Pred::Relop(lhs, op, rhs);
                        let conseq = Exp::Triv(ast::Triv::Value(Value::True));
                        let alt = Exp::Triv(ast::Triv::Value(Value::False));
                        proof {
                            assert(view_pred(test) is Relop);
                            assert(view_exp(conseq) is Triv);
                            assert(view_exp(alt) is Triv);
                        }
                        Exp::If(Box::new(test), Box::new(conseq), Box::new(alt))
                    },
                }
            },
            ast::Exp::If(test, conseq, alt) => Exp::If(
                Box::new(Self::pred(test)),
                Box::new(Self::value(*conseq)),
                Box::new(Self::value(*alt)),
            ),
            ast::Exp::Triv(t) => Exp::Triv(t),
        }
    }

    /// The truthiness wrapper around a trivial term used as a test.
    fn pred(t: ast::Triv) -> (r: Pred)
        ensures
            view_pred(r) == nc_pred(ast::view_triv(t)),
    {
        let test = Pred::Relop(t, crate::shared::ast::Op::Eq, ast::Triv::Value(Value::False));
        proof {
            assert(view_pred(test) is Relop);
            assert(view_pred(Pred::False) == SpecPred::False);
            assert(view_pred(Pred::True) == SpecPred::True);
        }
        Pred::If(Box::new(test), Box::new(Pred::False), Box::new(Pred::True))
    }

    /// Reduce an expression statement to its effect residue, appended to
    /// `block`.
    fn stmt_expr(block: &mut Vec<Stmt>, e: ast::Exp) -> (u: ())
        ensures
            view_stmts(final(block)@) == view_stmts(old(block)@) + nc_effect(ast::view_exp(e)),
        decreases e, 1int,
    {
        let ghost b0 = view_stmts(block@);
        match e {
            ast::Exp::Call(subject, args) => {
                let ghost vs = ast::view_triv(subject);
                let ghost va = ast::view_trivs(args@);
                block.push(Stmt::Exp(Box::new(Exp::Call(subject, args))));
                proof {
                    assert(view_stmts(block@) =~= b0 + seq![
                        SpecStmt::Exp(Box::new(SpecExp::Call(vs, va))),
                    ]);
                }
            },
            ast::Exp::Block(stmts, body) => {
                let ghost vss = ast::view_stmts(stmts@);
                let ghost vbody = ast::view_exp(*body);
                Self::stmts_into(block, stmts);
                Self::stmt_expr(block, *body);
                proof {
                    assert(view_stmts(block@) =~= b0 + (nc_stmts(vss) + nc_effect(vbody)));
                }
            },
            ast::Exp::Binop(_, _, _) => {
                proof {
                    assert(view_stmts(block@) =~= b0 + Seq::empty());
                }
            },
            ast::Exp::If(test, conseq, alt) => {
                let ghost vt = ast::view_triv(test);
                let ghost vc = ast::view_exp(*conseq);
                let ghost va = ast::view_exp(*alt);
                let p = Self::pred(test);
                let mut conseq_block: Vec<Stmt> = Vec::new();
                proof {
                    assert(view_stmts(conseq_block@) =~= Seq::<SpecStmt>::empty());
                }
                Self::stmt_expr(&mut conseq_block, *conseq);
                let mut alt_block: Vec<Stmt> = Vec::new();
                proof {
                    assert(view_stmts(alt_block@) =~= Seq::<SpecStmt>::empty());
                }
                Self::stmt_expr(&mut alt_block, *alt);
                proof {
                    assert(view_stmts(conseq_block@) =~= nc_effect(vc));
                    assert(view_stmts(alt_block@) =~= nc_effect(va));
                }
                block.push(Stmt::If(Box::new(p), conseq_block, alt_block));
                proof {
                    assert(view_stmts(block@) =~= b0 + seq![
                        SpecStmt::If(Box::new(nc_pred(vt)), nc_effect(vc), nc_effect(va)),
                    ]);
                }
            },
            ast::Exp::Triv(_) => {
                proof {
                    assert(view_stmts(block@) =~= b0 + Seq::empty());
                }
            },
        }
    }

    fn stmt(block: &mut Vec<Stmt>, s: ast::Stmt) -> (u: ())
        ensures
            view_stmts(final(block)@) == view_stmts(old(block)@) + nc_stmt(ast::view_stmt(s)),
        decreases s, 2int,
    {
        let ghost b0 = view_stmts(block@);
        match s {
            ast::Stmt::Exp(e) => {
                Self::stmt_expr(block, *e);
            },
            ast::Stmt::Let(x, e) => {
                let ghost vx = x@;
                let ghost ve = ast::view_exp(*e);
                let rhs = Self::value(*e);
                block.push(Stmt::Let(x, Box::new(rhs)));
                proof {
                    assert(view_stmts(block@) =~= b0 + seq![
                        SpecStmt::Let(vx, Box::new(nc_value(ve))),
                    ]);
                }
            },
        }
    }

    fn stmts_into(block: &mut Vec<Stmt>, ss: Vec<ast::Stmt>) -> (u: ())
        ensures
            view_stmts(final(block)@) == view_stmts(old(block)@) + nc_stmts(
                ast::view_stmts(ss@),
            ),
        decreases ss@, 0int,
    {
        let ghost b0 = view_stmts(block@);
        let ghost vss = ast::view_stmts(ss@);
        let mut rest = ss;
        if rest.len() == 0 {
            proof {
                assert(view_stmts(block@) =~= b0 + Seq::empty());
            }
        } else {
            let first = rest.remove(0);
            proof {
                assert(ast::view_stmts(rest@) =~= vss.subrange(1, vss.len() as int));
                assert(decreases_to!(ss@ => first));
            }
            Self::stmt(block, first);
            Self::stmts_into(block, rest);
            proof {
                assert(view_stmts(block@) =~= b0 + (nc_stmt(vss[0]) + nc_stmts(
                    vss.subrange(1, vss.len() as int),
                )));
            }
        }
    }

    /// Normalize a statement list into a fresh block.
    fn stmts(ss: Vec<ast::Stmt>) -> (r: Vec<Stmt>)
        ensures
            view_stmts(r@) == nc_stmts(ast::view_stmts(ss@)),
        decreases ss@, 1int,
    {
        let mut block: Vec<Stmt> = Vec::new();
        proof {
            assert(view_stmts(block@) =~= Seq::<SpecStmt>::empty());
        }
        Self::stmts_into(&mut block, ss);
        proof {
            assert(Seq::<SpecStmt>::empty() + nc_stmts(ast::view_stmts(ss@)) =~= nc_stmts(
                ast::view_stmts(ss@),
            ));
        }
        block
    }
}

/// Block fusion, executable form: see [`nc_make_block`].
pub fn make_block(block: Vec<Stmt>, exp: Exp) -> (r: Exp)
    ensures
        view_exp(r) == nc_make_block(view_stmts(block@), view_exp(exp)),
    decreases exp,
{
    if block.len() == 0 {
        proof {
            assert(view_stmts(block@).len() == 0);
        }
        exp
    } else {
        match exp {
            Exp::Block(stmts, base) => {
                let ghost vb = view_stmts(block@);
                let ghost vs = view_stmts(stmts@);
                let mut fused = block;
                let mut stmts = stmts;
                fused.append(&mut stmts);
                proof {
                    assert(view_stmts(fused@) =~= vb + vs);
                }
                make_block(fused, *base)
            },
            other => Exp::Block(block, Box::new(other)),
        }
    }
}

pub broadcast proof fn lemma_ctx_flat_stmts_concat(a: Seq<SpecStmt>, b: Seq<SpecStmt>)
    ensures
        #[trigger] crate::normalize_context::ast::flat_stmts(a + b)
            <==> crate::normalize_context::ast::flat_stmts(a)
            && crate::normalize_context::ast::flat_stmts(b),
{
    crate::normalize_context::ast::lemma_flat_stmts(a);
    crate::normalize_context::ast::lemma_flat_stmts(b);
    crate::normalize_context::ast::lemma_flat_stmts(a + b);
    if crate::normalize_context::ast::flat_stmts(a)
        && crate::normalize_context::ast::flat_stmts(b) {
        assert forall|i: int|
            0 <= i < (a + b).len() implies crate::normalize_context::ast::flat_stmt(
            (a + b)[i],
        ) by {
            if i < a.len() {
                assert((a + b)[i] == a[i]);
            } else {
                assert((a + b)[i] == b[i - a.len()]);
            }
        }
    }
    if crate::normalize_context::ast::flat_stmts(a + b) {
        assert forall|i: int| 0 <= i < a.len() implies crate::normalize_context::ast::flat_stmt(
            a[i],
        ) by {
            assert((a + b)[i] == a[i]);
        }
        assert forall|i: int| 0 <= i < b.len() implies crate::normalize_context::ast::flat_stmt(
            b[i],
        ) by {
            assert((a + b)[a.len() + i] == b[i]);
        }
    }
}

pub broadcast proof fn lemma_ctx_sep_stmts_concat(a: Seq<SpecStmt>, b: Seq<SpecStmt>)
    ensures
        #[trigger] crate::normalize_context::ast::sep_stmts(a + b)
            <==> crate::normalize_context::ast::sep_stmts(a)
            && crate::normalize_context::ast::sep_stmts(b),
{
    crate::normalize_context::ast::lemma_sep_stmts(a);
    crate::normalize_context::ast::lemma_sep_stmts(b);
    crate::normalize_context::ast::lemma_sep_stmts(a + b);
    if crate::normalize_context::ast::sep_stmts(a) && crate::normalize_context::ast::sep_stmts(
        b,
    ) {
        assert forall|i: int|
            0 <= i < (a + b).len() implies crate::normalize_context::ast::sep_stmt((a + b)[i]) by {
            if i < a.len() {
                assert((a + b)[i] == a[i]);
            } else {
                assert((a + b)[i] == b[i - a.len()]);
            }
        }
    }
    if crate::normalize_context::ast::sep_stmts(a + b) {
        assert forall|i: int| 0 <= i < a.len() implies crate::normalize_context::ast::sep_stmt(
            a[i],
        ) by {
            assert((a + b)[i] == a[i]);
        }
        assert forall|i: int| 0 <= i < b.len() implies crate::normalize_context::ast::sep_stmt(
            b[i],
        ) by {
            assert((a + b)[a.len() + i] == b[i]);
        }
    }
}

/// Block fusion preserves flatness.
pub proof fn lemma_nc_make_block_flat(block: Seq<SpecStmt>, exp: SpecExp)
    requires
        crate::normalize_context::ast::flat_stmts(block),
        crate::normalize_context::ast::flat_exp(exp),
    ensures
        crate::normalize_context::ast::flat_exp(nc_make_block(block, exp)),
    decreases exp,
{
    broadcast use lemma_ctx_flat_stmts_concat;

    if block.len() > 0 {
        match exp {
            SpecExp::Block(stmts, base) => {
                lemma_nc_make_block_flat(block + stmts, *base);
            },
            _ => {},
        }
    }
}

/// Block fusion preserves context separation.
pub proof fn lemma_nc_make_block_sep(block: Seq<SpecStmt>, exp: SpecExp)
    requires
        crate::normalize_context::ast::sep_stmts(block),
        crate::normalize_context::ast::sep_exp(exp),
    ensures
        crate::normalize_context::ast::sep_exp(nc_make_block(block, exp)),
    decreases exp,
{
    broadcast use lemma_ctx_sep_stmts_concat;

    if block.len() > 0 {
        match exp {
            SpecExp::Block(stmts, base) => {
                lemma_nc_make_block_sep(block + stmts, *base);
            },
            _ => {},
        }
    }
}

pub proof fn lemma_nc_pred_flat(t: crate::ast::SpecTriv)
    ensures
        crate::normalize_context::ast::flat_pred(nc_pred(t)),
{
    let test = SpecPred::Relop(
        t,
        crate::shared::ast::Op::Eq,
        crate::ast::SpecTriv::Value(Value::False),
    );
    assert(crate::normalize_context::ast::flat_pred(test));
    assert(crate::normalize_context::ast::flat_pred(SpecPred::False));
    assert(crate::normalize_context::ast::flat_pred(SpecPred::True));
}

pub proof fn lemma_nc_value_flat(e: crate::ast::SpecExp)
    requires
        crate::ast::flat_exp(e),
    ensures
        crate::normalize_context::ast::flat_exp(nc_value(e)),
        !(e is Block) ==> !(nc_value(e) is Block),
    decreases e, 1int,
{
    match e {
        crate::ast::SpecExp::Block(stmts, body) => {
            lemma_nc_stmts_flat(stmts);
            lemma_nc_value_flat(*body);
            lemma_nc_make_block_flat(nc_stmts(stmts), nc_value(*body));
        },
        crate::ast::SpecExp::Binop(lhs, op, rhs) => {
            if !op.is_arith() {
                assert(crate::normalize_context::ast::flat_pred(SpecPred::Relop(lhs, op, rhs)));
                assert(crate::normalize_context::ast::flat_exp(
                    SpecExp::Triv(crate::ast::SpecTriv::Value(Value::True)),
                ));
                assert(crate::normalize_context::ast::flat_exp(
                    SpecExp::Triv(crate::ast::SpecTriv::Value(Value::False)),
                ));
            }
        },
        crate::ast::SpecExp::If(test, conseq, alt) => {
            lemma_nc_pred_flat(test);
            lemma_nc_value_flat(*conseq);
            lemma_nc_value_flat(*alt);
        },
        _ => {},
    }
}

pub proof fn lemma_nc_effect_flat(e: crate::ast::SpecExp)
    requires
        crate::ast::flat_exp(e),
    ensures
        crate::normalize_context::ast::flat_stmts(nc_effect(e)),
    decreases e, 1int,
{
    broadcast use lemma_ctx_flat_stmts_concat;

    match e {
        crate::ast::SpecExp::Call(subject, args) => {
            let only = SpecStmt::Exp(Box::new(SpecExp::Call(subject, args)));
            assert(crate::normalize_context::ast::flat_stmt(only));
            crate::normalize_context::ast::lemma_flat_stmts(seq![only]);
        },
        crate::ast::SpecExp::Block(stmts, body) => {
            lemma_nc_stmts_flat(stmts);
            lemma_nc_effect_flat(*body);
        },
        crate::ast::SpecExp::If(test, conseq, alt) => {
            lemma_nc_pred_flat(test);
            lemma_nc_effect_flat(*conseq);
            lemma_nc_effect_flat(*alt);
            let only = SpecStmt::If(
                Box::new(nc_pred(test)),
                nc_effect(*conseq),
                nc_effect(*alt),
            );
            assert(crate::normalize_context::ast::flat_stmt(only));
            crate::normalize_context::ast::lemma_flat_stmts(seq![only]);
        },
        _ => {
            assert(crate::normalize_context::ast::flat_stmts(Seq::<SpecStmt>::empty()));
        },
    }
}

pub proof fn lemma_nc_stmt_flat(s: crate::ast::SpecStmt)
    requires
        crate::ast::flat_stmt(s),
    ensures
        crate::normalize_context::ast::flat_stmts(nc_stmt(s)),
    decreases s, 2int,
{
    match s {
        crate::ast::SpecStmt::Exp(e) => {
            lemma_nc_effect_flat(*e);
        },
        crate::ast::SpecStmt::Let(x, e) => {
            lemma_nc_value_flat(*e);
            let only = SpecStmt::Let(x, Box::new(nc_value(*e)));
            assert(crate::normalize_context::ast::flat_stmt(only));
            crate::normalize_context::ast::lemma_flat_stmts(seq![only]);
        },
    }
}

pub proof fn lemma_nc_stmts_flat(ss: Seq<crate::ast::SpecStmt>)
    requires
        crate::ast::flat_stmts(ss),
    ensures
        crate::normalize_context::ast::flat_stmts(nc_stmts(ss)),
    decreases ss, 0int,
{
    broadcast use lemma_ctx_flat_stmts_concat;

    if ss.len() == 0 {
        assert(crate::normalize_context::ast::flat_stmts(Seq::<SpecStmt>::empty()));
    } else {
        lemma_nc_stmt_flat(ss[0]);
        lemma_nc_stmts_flat(ss.subrange(1, ss.len() as int));
    }
}

/// Flattening invariant of context normalization: a flat ANF body is
/// normalized to a flat context-normalized body — fused statement lists stay
/// single and flat, never nested.
pub proof fn lemma_normalize_flat(body: crate::ast::SpecExp)
    requires
        crate::ast::flat_exp(body),
    ensures
        crate::normalize_context::ast::flat_exp(nc_fn(body)),
{
    lemma_nc_value_flat(body);
}

pub proof fn lemma_nc_pred_sep(t: crate::ast::SpecTriv)
    ensures
        crate::normalize_context::ast::sep_pred(nc_pred(t)),
{
    let test = SpecPred::Relop(
        t,
        crate::shared::ast::Op::Eq,
        crate::ast::SpecTriv::Value(Value::False),
    );
    assert(crate::normalize_context::ast::sep_pred(test));
    assert(crate::normalize_context::ast::sep_pred(SpecPred::False));
    assert(crate::normalize_context::ast::sep_pred(SpecPred::True));
}

pub proof fn lemma_nc_value_sep(e: crate::ast::SpecExp)
    ensures
        crate::normalize_context::ast::sep_exp(nc_value(e)),
    decreases e, 1int,
{
    match e {
        crate::ast::SpecExp::Block(stmts, body) => {
            lemma_nc_stmts_sep(stmts);
            lemma_nc_value_sep(*body);
            lemma_nc_make_block_sep(nc_stmts(stmts), nc_value(*body));
        },
        crate::ast::SpecExp::Binop(lhs, op, rhs) => {
            if !op.is_arith() {
                assert(crate::normalize_context::ast::sep_pred(SpecPred::Relop(lhs, op, rhs)));
                assert(crate::normalize_context::ast::sep_exp(
                    SpecExp::Triv(crate::ast::SpecTriv::Value(Value::True)),
                ));
                assert(crate::normalize_context::ast::sep_exp(
                    SpecExp::Triv(crate::ast::SpecTriv::Value(Value::False)),
                ));
            }
        },
        crate::ast::SpecExp::If(test, conseq, alt) => {
            lemma_nc_pred_sep(test);
            lemma_nc_value_sep(*conseq);
            lemma_nc_value_sep(*alt);
        },
        _ => {},
    }
}

pub proof fn lemma_nc_effect_sep(e: crate::ast::SpecExp)
    ensures
        crate::normalize_context::ast::sep_stmts(nc_effect(e)),
    decreases e, 1int,
{
    broadcast use lemma_ctx_sep_stmts_concat;

    match e {
        crate::ast::SpecExp::Call(subject, args) => {
            let only = SpecStmt::Exp(Box::new(SpecExp::Call(subject, args)));
            assert(crate::normalize_context::ast::sep_stmt(only));
            crate::normalize_context::ast::lemma_sep_stmts(seq![only]);
        },
        crate::ast::SpecExp::Block(stmts, body) => {
            lemma_nc_stmts_sep(stmts);
            lemma_nc_effect_sep(*body);
        },
        crate::ast::SpecExp::If(test, conseq, alt) => {
            lemma_nc_pred_sep(test);
            lemma_nc_effect_sep(*conseq);
            lemma_nc_effect_sep(*alt);
            let only = SpecStmt::If(
                Box::new(nc_pred(test)),
                nc_effect(*conseq),
                nc_effect(*alt),
            );
            assert(crate::normalize_context::ast::sep_stmt(only));
            crate::normalize_context::ast::lemma_sep_stmts(seq![only]);
        },
        _ => {
            assert(crate::normalize_context::ast::sep_stmts(Seq::<SpecStmt>::empty()));
        },
    }
}

pub proof fn lemma_nc_stmt_sep(s: crate::ast::SpecStmt)
    ensures
        crate::normalize_context::ast::sep_stmts(nc_stmt(s)),
    decreases s, 2int,
{
    match s {
        crate::ast::SpecStmt::Exp(e) => {
            lemma_nc_effect_sep(*e);
        },
        crate::ast::SpecStmt::Let(x, e) => {
            lemma_nc_value_sep(*e);
            let only = SpecStmt::Let(x, Box::new(nc_value(*e)));
            assert(crate::normalize_context::ast::sep_stmt(only));
            crate::normalize_context::ast::lemma_sep_stmts(seq![only]);
        },
    }
}

pub proof fn lemma_nc_stmts_sep(ss: Seq<crate::ast::SpecStmt>)
    ensures
        crate::normalize_context::ast::sep_stmts(nc_stmts(ss)),
    decreases ss, 0int,
{
    broadcast use lemma_ctx_sep_stmts_concat;

    if ss.len() == 0 {
        assert(crate::normalize_context::ast::sep_stmts(Seq::<SpecStmt>::empty()));
    } else {
        lemma_nc_stmt_sep(ss[0]);
        lemma_nc_stmts_sep(ss.subrange(1, ss.len() as int));
    }
}

/// Context separation invariant: in every normalized body, no relational
/// operator appears inside a value-position binary operation, every
/// comparison in predicate position is relational, and — by the shape of the
/// grammar itself — no value expression stands directly as a predicate: the
/// only route from a value to a predicate is the canonical truthiness test
/// against the `False` constant.
pub proof fn lemma_normalize_separated(body: crate::ast::SpecExp)
    ensures
        crate::normalize_context::ast::sep_exp(nc_fn(body)),
{
    lemma_nc_value_sep(body);
}

/// Determinism of context normalization: structurally equal inputs are
/// normalized to structurally equal outputs; the translation is a pure
/// function of the input tree.
pub proof fn lemma_normalize_deterministic(b1: crate::ast::SpecExp, b2: crate::ast::SpecExp)
    requires
        b1 == b2,
    ensures
        nc_fn(b1) == nc_fn(b2),
{
}

} // verus!
