//! The middle end of a small expression-language compiler: a sequence of
//! meaning-preserving tree-to-tree lowering passes that take a surface-level
//! nested-expression program and rewrite it, stage by stage, into a
//! machine-oriented form with an explicit calling convention.
//!
//! The pipeline runs in a fixed order: value simplification (surface
//! language to ANF), context normalization (ANF to the value / predicate /
//! effect split), and calling-convention introduction (explicit argument
//! stack, single return slot, tail calls). [`compile`] composes the three.

pub mod ast;
pub mod input;
pub mod introduce_call_conventions;
pub mod normalize_context;
pub mod shared;
pub mod simplify_values;

use vstd::prelude::*;

use crate::introduce_call_conventions::pass::{cc_fn, Pass as ConventionsPass};
use crate::normalize_context::pass::{nc_fn, Pass as NormalizePass};
use crate::shared::ast::Program;
use crate::simplify_values::pass::{simp_fn, Pass as SimplifyPass};

verus! {

/// What the whole pipeline makes of one function body.
pub open spec fn compile_fn(body: input::SpecExp) -> introduce_call_conventions::ast::SpecExp {
    cc_fn(nc_fn(simp_fn(body)))
}

/// Run the whole pipeline: value simplification, context normalization, and
/// calling-convention introduction, in that fixed order.
///
/// The preconditions are the machine limits on the fresh-name counters: no
/// function body may call for more temporaries than a 64-bit counter can
/// number, in the first pass or in the last.
pub fn compile(program: Program<input::Exp>) -> (r: Program<introduce_call_conventions::ast::Exp>)
    requires
        forall|i: int|
            0 <= i < program.funcs@.len() ==> simplify_values::pass::size_exp(
                input::view_exp(#[trigger] program.funcs@[i].1),
            ) <= u64::MAX,
        forall|i: int|
            0 <= i < program.funcs@.len() ==> introduce_call_conventions::pass::size_exp(
                nc_fn(simp_fn(input::view_exp(#[trigger] program.funcs@[i].1))),
            ) <= u64::MAX,
    ensures
        r.funcs@.len() == program.funcs@.len(),
        forall|i: int|
            0 <= i < r.funcs@.len() ==> (#[trigger] r.funcs@[i]).0@ == program.funcs@[i].0@
                && introduce_call_conventions::ast::view_exp(r.funcs@[i].1) == compile_fn(
                input::view_exp(program.funcs@[i].1),
            ),
{
    let simplified = SimplifyPass::run(program);
    let normalized = NormalizePass::run(simplified);
    ConventionsPass::run(normalized)
}

/// Determinism of the whole pipeline: structurally equal surface bodies
/// compile to structurally equal convention bodies, generated temporaries
/// included, since every pass numbers its temporaries from zero for each
/// function body.
pub proof fn lemma_compile_deterministic(b1: input::SpecExp, b2: input::SpecExp)
    requires
        b1 == b2,
    ensures
        compile_fn(b1) == compile_fn(b2),
{
}

} // verus!
