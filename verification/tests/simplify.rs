//! Value simplification: surface programs reduced to ANF.

use lowering::ast::{Exp as AExp, Stmt as AStmt, Triv as ATriv};
use lowering::input;
use lowering::shared::ast::{Op, Program, Value};
use lowering::simplify_values::pass::Pass as SimplifyPass;

fn run_one(body: input::Exp) -> AExp {
    let program = Program {
        funcs: vec![("fn".to_string(), body)],
    };
    let mut out = SimplifyPass::run(program);
    assert_eq!(out.funcs.len(), 1);
    let (name, body) = out.funcs.remove(0);
    assert_eq!(name, "fn");
    body
}

/// A chained-call argument full of additions: three fresh temporaries, bound
/// in evaluation order, leave the final call with trivial operands only.
#[test]
fn chained_calls_and_additions() {
    let e = input::call(
        input::call(input::var("t"), vec![]),
        vec![*input::add(
            input::add(input::value(10), input::value(20)),
            input::value(30),
        )],
    );
    let expected = AExp::Block(
        vec![
            AStmt::Let(
                "tmp.1".to_string(),
                Box::new(AExp::Call(ATriv::Var("t".to_string()), vec![])),
            ),
            AStmt::Let(
                "tmp.2".to_string(),
                Box::new(AExp::Binop(
                    ATriv::Value(Value::Int(10)),
                    Op::Add,
                    ATriv::Value(Value::Int(20)),
                )),
            ),
            AStmt::Let(
                "tmp.3".to_string(),
                Box::new(AExp::Binop(
                    ATriv::Var("tmp.2".to_string()),
                    Op::Add,
                    ATriv::Value(Value::Int(30)),
                )),
            ),
        ],
        Box::new(AExp::Call(
            ATriv::Var("tmp.1".to_string()),
            vec![ATriv::Var("tmp.3".to_string())],
        )),
    );
    assert_eq!(run_one(*e), expected);
}

/// A compound conditional test is hoisted into a fresh temporary; the test
/// position itself stays trivial.
#[test]
fn compound_test_is_hoisted() {
    let e = input::if_(
        input::eq(input::var("n"), input::value(0)),
        input::value(1),
        input::value(2),
    );
    let expected = AExp::Block(
        vec![AStmt::Let(
            "tmp.1".to_string(),
            Box::new(AExp::Binop(
                ATriv::Var("n".to_string()),
                Op::Eq,
                ATriv::Value(Value::Int(0)),
            )),
        )],
        Box::new(AExp::If(
            ATriv::Var("tmp.1".to_string()),
            Box::new(AExp::Triv(ATriv::Value(Value::Int(1)))),
            Box::new(AExp::Triv(ATriv::Value(Value::Int(2)))),
        )),
    );
    assert_eq!(run_one(*e), expected);
}

/// Nested bindings are fused into one flat statement list: no block appears
/// as a statement and no block nests directly inside another.
#[test]
fn nested_bindings_flatten() {
    let e = input::let_(
        "a",
        input::value(1),
        input::let_(
            "b",
            input::value(2),
            input::add(input::var("a"), input::var("b")),
        ),
    );
    let expected = AExp::Block(
        vec![
            AStmt::Let(
                "a".to_string(),
                Box::new(AExp::Triv(ATriv::Value(Value::Int(1)))),
            ),
            AStmt::Let(
                "b".to_string(),
                Box::new(AExp::Triv(ATriv::Value(Value::Int(2)))),
            ),
        ],
        Box::new(AExp::Binop(
            ATriv::Var("a".to_string()),
            Op::Add,
            ATriv::Var("b".to_string()),
        )),
    );
    assert_eq!(run_one(*e), expected);
}

/// An already-trivial body passes through untouched, with no wrapping block.
#[test]
fn trivial_body_unchanged() {
    assert_eq!(
        run_one(*input::value(7)),
        AExp::Triv(ATriv::Value(Value::Int(7)))
    );
    assert_eq!(
        run_one(*input::var("x")),
        AExp::Triv(ATriv::Var("x".to_string()))
    );
}

/// Running the pass twice on equal programs yields equal outputs, generated
/// temporary names included.
#[test]
fn deterministic_across_runs() {
    let build = || {
        Program {
            funcs: vec![(
                "fn".to_string(),
                *input::call(
                    input::var("f"),
                    vec![*input::add(input::value(1), input::value(2))],
                ),
            )],
        }
    };
    let first = SimplifyPass::run(build());
    let second = SimplifyPass::run(build());
    assert_eq!(first, second);
}
