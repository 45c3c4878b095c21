//! The composed pipeline on a recursive example program.

use lowering::ast::Triv as ATriv;
use lowering::compile;
use lowering::input;
use lowering::introduce_call_conventions::ast::{Exp as VExp, Stmt as VStmt};
use lowering::normalize_context::ast::{Exp as CExp, Pred as CPred, Stmt as CStmt};
use lowering::normalize_context::pass::Pass as NormalizePass;
use lowering::shared::ast::{Op, Program, Triv, Value};
use lowering::simplify_values::pass::Pass as SimplifyPass;

fn fib_body() -> input::Exp {
    *input::if_(
        input::eq(input::var("n"), input::value(0)),
        input::value(1),
        input::if_(
            input::eq(input::var("n"), input::value(1)),
            input::value(1),
            input::add(
                input::call(
                    input::var("fib"),
                    vec![*input::sub(input::var("n"), input::value(1))],
                ),
                input::call(
                    input::var("fib"),
                    vec![*input::sub(input::var("n"), input::value(2))],
                ),
            ),
        ),
    )
}

fn fib_program() -> Program<input::Exp> {
    Program {
        funcs: vec![("fib".to_string(), fib_body())],
    }
}

fn truthiness(name: &str) -> CPred {
    CPred::If(
        Box::new(CPred::Relop(
            ATriv::Var(name.to_string()),
            Op::Eq,
            ATriv::Value(Value::False),
        )),
        Box::new(CPred::False),
        Box::new(CPred::True),
    )
}

fn materialized_eq(name: &str, n: u8) -> CExp {
    CExp::If(
        Box::new(CPred::Relop(
            ATriv::Var(name.to_string()),
            Op::Eq,
            ATriv::Value(Value::Int(n)),
        )),
        Box::new(CExp::Triv(ATriv::Value(Value::True))),
        Box::new(CExp::Triv(ATriv::Value(Value::False))),
    )
}

/// The recursive example after value simplification and context
/// normalization: each comparison is materialized into a binding, each
/// conditional tests its temporary through the truthiness wrapper, and the
/// final addition reads two temporaries, each bound from a call.
#[test]
fn fib_after_two_passes() {
    let mut out = NormalizePass::run(SimplifyPass::run(fib_program()));
    assert_eq!(out.funcs.len(), 1);
    let (name, body) = out.funcs.remove(0);
    assert_eq!(name, "fib");

    let innermost = CExp::Block(
        vec![
            CStmt::Let(
                "tmp.3".to_string(),
                Box::new(CExp::Binop(
                    ATriv::Var("n".to_string()),
                    Op::Sub,
                    ATriv::Value(Value::Int(1)),
                )),
            ),
            CStmt::Let(
                "tmp.4".to_string(),
                Box::new(CExp::Call(
                    ATriv::Var("fib".to_string()),
                    vec![ATriv::Var("tmp.3".to_string())],
                )),
            ),
            CStmt::Let(
                "tmp.5".to_string(),
                Box::new(CExp::Binop(
                    ATriv::Var("n".to_string()),
                    Op::Sub,
                    ATriv::Value(Value::Int(2)),
                )),
            ),
            CStmt::Let(
                "tmp.6".to_string(),
                Box::new(CExp::Call(
                    ATriv::Var("fib".to_string()),
                    vec![ATriv::Var("tmp.5".to_string())],
                )),
            ),
        ],
        Box::new(CExp::Binop(
            ATriv::Var("tmp.4".to_string()),
            Op::Add,
            ATriv::Var("tmp.6".to_string()),
        )),
    );
    let inner = CExp::Block(
        vec![CStmt::Let(
            "tmp.2".to_string(),
            Box::new(materialized_eq("n", 1)),
        )],
        Box::new(CExp::If(
            Box::new(truthiness("tmp.2")),
            Box::new(CExp::Triv(ATriv::Value(Value::Int(1)))),
            Box::new(innermost),
        )),
    );
    let expected = CExp::Block(
        vec![CStmt::Let(
            "tmp.1".to_string(),
            Box::new(materialized_eq("n", 0)),
        )],
        Box::new(CExp::If(
            Box::new(truthiness("tmp.1")),
            Box::new(CExp::Triv(ATriv::Value(Value::Int(1)))),
            Box::new(inner),
        )),
    );
    assert_eq!(body, expected);
}

/// The whole pipeline is deterministic: compiling the same program twice
/// yields structurally equal results, generated temporaries included.
#[test]
fn compile_is_deterministic() {
    assert_eq!(compile(fib_program()), compile(fib_program()));
}

/// The composed pipeline on the recursive example: the first emitted
/// statement computes the first comparison into a fresh temporary, and the
/// body ends in a conditional tail.
#[test]
fn fib_compiles_to_convention_form() {
    let mut out = compile(fib_program());
    assert_eq!(out.funcs.len(), 1);
    let (name, body) = out.funcs.remove(0);
    assert_eq!(name, "fib");
    match body {
        VExp::Block(stmts, tail) => {
            assert_eq!(
                stmts[0],
                VStmt::LetBinop(
                    "tmp.1".to_string(),
                    Triv::Var("n".to_string()),
                    Op::Eq,
                    Triv::Value(Value::Int(0)),
                )
            );
            assert!(matches!(*tail, VExp::If(_, _, _)));
        },
        other => panic!("expected a block at the top of the body, got {:?}", other),
    }
}
