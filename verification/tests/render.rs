//! Diagnostic rendering: the canonical parenthesized prefix text.

use lowering::ast::{Exp as AExp, Stmt as AStmt, Triv as ATriv};
use lowering::compile;
use lowering::input;
use lowering::introduce_call_conventions::ast::{Exp as VExp, Stmt as VStmt};
use lowering::normalize_context::ast::Pred as CPred;
use lowering::shared::ast::{Loc, Op, Program, Triv, Value};

#[test]
fn trivial_terms_render() {
    assert_eq!(Triv::Value(Value::Int(207)).render(), "207");
    assert_eq!(Triv::Value(Value::Int(0)).render(), "0");
    assert_eq!(Triv::Value(Value::True).render(), "TRUE");
    assert_eq!(Triv::Value(Value::False).render(), "FALSE");
    assert_eq!(Triv::Var("n".to_string()).render(), "n");
    assert_eq!(Triv::Return.render(), "%ret");
}

#[test]
fn operators_render() {
    assert_eq!(Op::Add.render(), "+");
    assert_eq!(Op::Sub.render(), "-");
    assert_eq!(Op::Eq.render(), "==");
    assert_eq!(Op::Neq.render(), "!=");
}

#[test]
fn locations_render() {
    assert_eq!(Loc::Memory(12).render(), "@12");
    assert_eq!(Loc::A.render(), "%a");
    assert_eq!(Loc::B.render(), "%b");
    assert_eq!(Loc::X.render(), "%x");
}

#[test]
fn statements_render() {
    assert_eq!(
        VStmt::LetBinop(
            "tmp.1".to_string(),
            Triv::Var("a".to_string()),
            Op::Add,
            Triv::Value(Value::Int(1)),
        )
        .render(),
        "(set! tmp.1 (+ a 1))"
    );
    assert_eq!(
        VStmt::Let("x".to_string(), Triv::Return).render(),
        "(set! x %ret)"
    );
    assert_eq!(
        VStmt::Push(Triv::Var("a".to_string())).render(),
        "(push! a)"
    );
    assert_eq!(
        VStmt::ReturnSet(Triv::Value(Value::Int(7))).render(),
        "(return-set! 7)"
    );
    assert_eq!(VStmt::Call(Triv::Var("f".to_string())).render(), "(f)");
}

#[test]
fn compiled_body_renders() {
    let program = Program {
        funcs: vec![("fn".to_string(), *input::value(7))],
    };
    let mut out = compile(program);
    let body = out.funcs.remove(0).1;
    assert_eq!(body.render(), "(begin (return-set! 7) (return))");
}

#[test]
fn tail_call_renders() {
    let program = Program {
        funcs: vec![(
            "fn".to_string(),
            *input::call(input::var("f"), vec![*input::var("a")]),
        )],
    };
    let mut out = compile(program);
    let body = out.funcs.remove(0).1;
    assert_eq!(body.render(), "(begin (push! a) (f))");
    assert_eq!(VExp::Return.render(), "(return)");
}

#[test]
fn anf_body_renders() {
    let body = AExp::Block(
        vec![AStmt::Let(
            "tmp.1".to_string(),
            Box::new(AExp::Binop(
                ATriv::Var("n".to_string()),
                Op::Sub,
                ATriv::Value(Value::Int(1)),
            )),
        )],
        Box::new(AExp::Call(
            ATriv::Var("fib".to_string()),
            vec![ATriv::Var("tmp.1".to_string())],
        )),
    );
    assert_eq!(body.render(), "(begin (set! tmp.1 (- n 1)) (fib tmp.1))");
}

#[test]
fn truthiness_guard_renders() {
    let guard = CPred::If(
        Box::new(CPred::Relop(
            ATriv::Var("x".to_string()),
            Op::Eq,
            ATriv::Value(Value::False),
        )),
        Box::new(CPred::False),
        Box::new(CPred::True),
    );
    assert_eq!(guard.render(), "(if (== x FALSE) FALSE TRUE)");
}
