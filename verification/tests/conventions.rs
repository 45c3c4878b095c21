//! Calling-convention introduction: argument stack, return slot, tail
//! calls, and the completion of value-position conditionals.

use lowering::compile;
use lowering::input;
use lowering::introduce_call_conventions::ast::{Exp as VExp, Stmt as VStmt};
use lowering::shared::ast::{Op, Program, Triv, Value};

fn compile_one(body: input::Exp) -> VExp {
    let program = Program {
        funcs: vec![("fn".to_string(), body)],
    };
    let mut out = compile(program);
    assert_eq!(out.funcs.len(), 1);
    out.funcs.remove(0).1
}

/// A call in tail position: arguments pushed in reverse order, then a bare
/// tail call — no return bookkeeping.
#[test]
fn tail_call_pushes_reversed() {
    let e = input::call(
        input::var("f"),
        vec![*input::var("a"), *input::var("b"), *input::var("c")],
    );
    let expected = VExp::Block(
        vec![
            VStmt::Push(Triv::Var("c".to_string())),
            VStmt::Push(Triv::Var("b".to_string())),
            VStmt::Push(Triv::Var("a".to_string())),
        ],
        Box::new(VExp::Call(Triv::Var("f".to_string()))),
    );
    assert_eq!(compile_one(*e), expected);
}

/// Compound arguments are evaluated left to right before the pushes, so the
/// push order is reversed while the evaluation order of the calls inside
/// the arguments is preserved.
#[test]
fn argument_evaluation_order_survives_reversed_pushes() {
    let e = input::call(
        input::var("f"),
        vec![
            *input::call(input::var("g"), vec![]),
            *input::call(input::var("h"), vec![]),
        ],
    );
    let expected = VExp::Block(
        vec![
            VStmt::Call(Triv::Var("g".to_string())),
            VStmt::Let("tmp.1".to_string(), Triv::Return),
            VStmt::Call(Triv::Var("h".to_string())),
            VStmt::Let("tmp.2".to_string(), Triv::Return),
            VStmt::Push(Triv::Var("tmp.2".to_string())),
            VStmt::Push(Triv::Var("tmp.1".to_string())),
        ],
        Box::new(VExp::Call(Triv::Var("f".to_string()))),
    );
    assert_eq!(compile_one(*e), expected);
}

/// A trivial term in tail position: store it in the return slot, then
/// return.
#[test]
fn trivial_tail_sets_return_slot() {
    let expected = VExp::Block(
        vec![VStmt::ReturnSet(Triv::Value(Value::Int(7)))],
        Box::new(VExp::Return),
    );
    assert_eq!(compile_one(*input::value(7)), expected);
}

/// A non-tail call bound to a name: push, call, then read the return slot
/// into the binding — the slot is consumed immediately.
#[test]
fn bound_call_reads_return_slot() {
    let e = input::let_(
        "x",
        input::call(input::var("f"), vec![]),
        input::var("x"),
    );
    let expected = VExp::Block(
        vec![
            VStmt::Call(Triv::Var("f".to_string())),
            VStmt::Let("x".to_string(), Triv::Return),
            VStmt::ReturnSet(Triv::Var("x".to_string())),
        ],
        Box::new(VExp::Return),
    );
    assert_eq!(compile_one(*e), expected);
}

/// A conditional used as a value is completed: each branch ends by binding
/// its result to one common fresh destination, and the binding then reads
/// that destination.
#[test]
fn value_conditional_binds_common_destination() {
    let e = input::let_(
        "x",
        input::if_(input::var("b"), input::value(1), input::value(2)),
        input::var("x"),
    );
    let expected = VExp::Block(
        vec![
            VStmt::LetBinop(
                "tmp.1".to_string(),
                Triv::Var("b".to_string()),
                Op::Eq,
                Triv::Value(Value::False),
            ),
            VStmt::If(
                Triv::Var("tmp.1".to_string()),
                vec![VStmt::Let("tmp.2".to_string(), Triv::Value(Value::False))],
                vec![VStmt::Let("tmp.2".to_string(), Triv::Value(Value::True))],
            ),
            VStmt::If(
                Triv::Var("tmp.2".to_string()),
                vec![VStmt::Let("tmp.3".to_string(), Triv::Value(Value::Int(1)))],
                vec![VStmt::Let("tmp.3".to_string(), Triv::Value(Value::Int(2)))],
            ),
            VStmt::Let("x".to_string(), Triv::Var("tmp.3".to_string())),
            VStmt::ReturnSet(Triv::Var("x".to_string())),
        ],
        Box::new(VExp::Return),
    );
    assert_eq!(compile_one(*e), expected);
}

/// Arithmetic in tail position computes into a fresh temporary that is then
/// stored in the return slot.
#[test]
fn arithmetic_tail_computes_then_returns() {
    let e = input::add(input::var("a"), input::var("b"));
    let expected = VExp::Block(
        vec![
            VStmt::LetBinop(
                "tmp.1".to_string(),
                Triv::Var("a".to_string()),
                Op::Add,
                Triv::Var("b".to_string()),
            ),
            VStmt::ReturnSet(Triv::Var("tmp.1".to_string())),
        ],
        Box::new(VExp::Return),
    );
    assert_eq!(compile_one(*e), expected);
}
