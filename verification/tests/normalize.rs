//! Context normalization: ANF programs split into value, predicate and
//! effect roles.

use lowering::ast::{Exp as AExp, Stmt as AStmt, Triv as ATriv};
use lowering::input;
use lowering::normalize_context::ast::{Exp as CExp, Pred as CPred, Stmt as CStmt};
use lowering::normalize_context::pass::Pass as NormalizePass;
use lowering::shared::ast::{Op, Program, Value};
use lowering::simplify_values::pass::Pass as SimplifyPass;

fn run_one(body: AExp) -> CExp {
    let program = Program {
        funcs: vec![("fn".to_string(), body)],
    };
    let mut out = NormalizePass::run(program);
    assert_eq!(out.funcs.len(), 1);
    out.funcs.remove(0).1
}

fn truthiness(t: ATriv) -> CPred {
    CPred::If(
        Box::new(CPred::Relop(t, Op::Eq, ATriv::Value(Value::False))),
        Box::new(CPred::False),
        Box::new(CPred::True),
    )
}

/// A bare variable used as a conditional test goes through the canonical
/// truthiness wrapper — a comparison against the `False` constant — never a
/// direct use of the variable.
#[test]
fn bare_variable_test_gets_truthiness_wrapper() {
    let surface = Program {
        funcs: vec![(
            "fn".to_string(),
            *input::if_(input::var("x"), input::value(1), input::value(2)),
        )],
    };
    let mut out = NormalizePass::run(SimplifyPass::run(surface));
    let body = out.funcs.remove(0).1;
    let expected = CExp::If(
        Box::new(truthiness(ATriv::Var("x".to_string()))),
        Box::new(CExp::Triv(ATriv::Value(Value::Int(1)))),
        Box::new(CExp::Triv(ATriv::Value(Value::Int(2)))),
    );
    assert_eq!(body, expected);
}

/// Two directly nested blocks fuse into a single flat statement list.
#[test]
fn adjacent_blocks_fuse_flat() {
    let nested = AExp::Block(
        vec![AStmt::Let(
            "a".to_string(),
            Box::new(AExp::Triv(ATriv::Value(Value::Int(1)))),
        )],
        Box::new(AExp::Block(
            vec![AStmt::Let(
                "b".to_string(),
                Box::new(AExp::Triv(ATriv::Value(Value::Int(2)))),
            )],
            Box::new(AExp::Binop(
                ATriv::Var("a".to_string()),
                Op::Add,
                ATriv::Var("b".to_string()),
            )),
        )),
    );
    let expected = CExp::Block(
        vec![
            CStmt::Let(
                "a".to_string(),
                Box::new(CExp::Triv(ATriv::Value(Value::Int(1)))),
            ),
            CStmt::Let(
                "b".to_string(),
                Box::new(CExp::Triv(ATriv::Value(Value::Int(2)))),
            ),
        ],
        Box::new(CExp::Binop(
            ATriv::Var("a".to_string()),
            Op::Add,
            ATriv::Var("b".to_string()),
        )),
    );
    assert_eq!(run_one(nested), expected);
}

/// A relational operation in value position is materialized: a predicate
/// test that produces the canonical `True`/`False` constants.
#[test]
fn relational_value_is_materialized() {
    let body = AExp::Block(
        vec![AStmt::Let(
            "x".to_string(),
            Box::new(AExp::Binop(
                ATriv::Var("n".to_string()),
                Op::Eq,
                ATriv::Value(Value::Int(0)),
            )),
        )],
        Box::new(AExp::Triv(ATriv::Var("x".to_string()))),
    );
    let expected = CExp::Block(
        vec![CStmt::Let(
            "x".to_string(),
            Box::new(CExp::If(
                Box::new(CPred::Relop(
                    ATriv::Var("n".to_string()),
                    Op::Eq,
                    ATriv::Value(Value::Int(0)),
                )),
                Box::new(CExp::Triv(ATriv::Value(Value::True))),
                Box::new(CExp::Triv(ATriv::Value(Value::False))),
            )),
        )],
        Box::new(CExp::Triv(ATriv::Var("x".to_string()))),
    );
    assert_eq!(run_one(body), expected);
}

/// Pure arithmetic in effect position vanishes entirely; the emptied block
/// collapses to its trailing expression.
#[test]
fn effect_arithmetic_vanishes() {
    let body = AExp::Block(
        vec![AStmt::Exp(Box::new(AExp::Binop(
            ATriv::Value(Value::Int(1)),
            Op::Add,
            ATriv::Value(Value::Int(2)),
        )))],
        Box::new(AExp::Triv(ATriv::Value(Value::Int(0)))),
    );
    assert_eq!(run_one(body), CExp::Triv(ATriv::Value(Value::Int(0))));
}

/// A call buried in an effect-position operand keeps its effect: value
/// simplification hoists it into a binding, and normalization keeps the
/// binding while the pure arithmetic around it vanishes.
#[test]
fn effect_call_is_kept() {
    let statement = input::Stmt::Exp(input::add(
        input::call(input::var("f"), vec![]),
        input::value(1),
    ));
    let surface = Program {
        funcs: vec![(
            "fn".to_string(),
            input::Exp::Block(vec![statement], input::value(0)),
        )],
    };
    let mut out = NormalizePass::run(SimplifyPass::run(surface));
    let body = out.funcs.remove(0).1;
    let expected = CExp::Block(
        vec![CStmt::Let(
            "tmp.1".to_string(),
            Box::new(CExp::Call(ATriv::Var("f".to_string()), vec![])),
        )],
        Box::new(CExp::Triv(ATriv::Value(Value::Int(0)))),
    );
    assert_eq!(body, expected);
}
