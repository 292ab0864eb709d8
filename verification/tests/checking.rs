use lib::compile::{check_prog, compile_to_string, CompileErr};
use lib::syntax::{Exp, FloatWrapper, FunDecl, Prim};

fn s(x: &str) -> String {
    x.to_string()
}

fn num(n: i64, a: u32) -> Exp<u32> {
    Exp::Num(n, a)
}

fn var(x: &str, a: u32) -> Exp<u32> {
    Exp::Var(s(x), a)
}

fn decl(name: &str, params: &[&str], body: Exp<u32>, a: u32) -> FunDecl<Exp<u32>, u32> {
    FunDecl { name: s(name), parameters: params.iter().map(|p| s(p)).collect(), body, ann: a }
}

#[test]
fn unbound_variable_is_reported() {
    assert_eq!(check_prog(&var("b", 7)), Err(CompileErr::UnboundVariable { unbound: s("b"), location: 7 }));
}

#[test]
fn bound_variable_is_accepted() {
    let p = Exp::Let { bindings: vec![(s("x"), num(1, 1))], body: Box::new(var("x", 2)), ann: 3 };
    assert_eq!(check_prog(&p), Ok(()));
}

#[test]
fn duplicate_binding_is_reported_at_the_let() {
    let p = Exp::Let {
        bindings: vec![(s("y"), num(1, 1)), (s("y"), num(2, 2))],
        body: Box::new(var("y", 3)),
        ann: 4,
    };
    assert_eq!(check_prog(&p), Err(CompileErr::DuplicateBinding { duplicated_name: s("y"), location: 4 }));
}

#[test]
fn later_binding_sees_earlier_one() {
    let p = Exp::Let {
        bindings: vec![(s("x"), num(1, 1)), (s("y"), var("x", 2))],
        body: Box::new(var("y", 3)),
        ann: 4,
    };
    assert_eq!(check_prog(&p), Ok(()));
}

#[test]
fn integer_range_edges() {
    assert_eq!(check_prog(&num(i64::MAX >> 1, 0)), Ok(()));
    assert_eq!(check_prog(&num(i64::MIN >> 1, 0)), Ok(()));
    assert_eq!(check_prog(&num((i64::MAX >> 1) + 1, 5)), Err(CompileErr::NumOverflow { num: (i64::MAX >> 1) + 1, location: 5 }));
    assert_eq!(check_prog(&num((i64::MIN >> 1) - 1, 6)), Err(CompileErr::NumOverflow { num: (i64::MIN >> 1) - 1, location: 6 }));
}

#[test]
fn float_range_edges() {
    let f = |v: f64, a: u32| Exp::Float(FloatWrapper(v.to_bits()), a);
    assert_eq!(check_prog(&f(f32::MAX as f64, 0)), Ok(()));
    assert_eq!(check_prog(&f(f32::MIN as f64, 0)), Ok(()));
    assert_eq!(check_prog(&f(-0.0, 0)), Ok(()));
    assert_eq!(check_prog(&f(1e-300, 0)), Ok(()));
    let big = 1e39f64;
    assert_eq!(check_prog(&f(big, 3)), Err(CompileErr::FloatOverflow { num: FloatWrapper(big.to_bits()), location: 3 }));
    assert_eq!(check_prog(&f(-big, 3)), Err(CompileErr::FloatOverflow { num: FloatWrapper((-big).to_bits()), location: 3 }));
    assert!(check_prog(&f(f64::INFINITY, 1)).is_err());
    assert!(check_prog(&f(f64::NAN, 1)).is_err());
}

#[test]
fn undefined_function_is_reported() {
    let p = Exp::Call(s("f"), vec![], 1);
    assert_eq!(check_prog(&p), Err(CompileErr::UndefinedFunction { undefined: s("f"), location: 1 }));
}

#[test]
fn value_used_as_function_is_reported() {
    let p = Exp::Let { bindings: vec![(s("x"), num(1, 1))], body: Box::new(Exp::Call(s("x"), vec![], 3)), ann: 4 };
    assert_eq!(check_prog(&p), Err(CompileErr::ValueUsedAsFunction { variable_name: s("x"), location: 3 }));
}

#[test]
fn function_used_as_value_is_reported() {
    let p = Exp::FunDefs { decls: vec![decl("f", &["a"], var("a", 1), 2)], body: Box::new(var("f", 5)), ann: 6 };
    assert_eq!(check_prog(&p), Err(CompileErr::FunctionUsedAsValue { function_name: s("f"), location: 5 }));
}

#[test]
fn duplicate_function_is_reported_at_the_group() {
    let p = Exp::FunDefs {
        decls: vec![decl("f", &[], num(1, 1), 2), decl("f", &[], num(2, 3), 4)],
        body: Box::new(num(0, 5)),
        ann: 9,
    };
    assert_eq!(check_prog(&p), Err(CompileErr::DuplicateFunName { duplicated_name: s("f"), location: 9 }));
}

#[test]
fn duplicate_parameter_is_reported() {
    let p = Exp::FunDefs { decls: vec![decl("f", &["a", "a"], var("a", 1), 2)], body: Box::new(num(0, 5)), ann: 9 };
    assert_eq!(check_prog(&p), Err(CompileErr::DuplicateArgName { duplicated_name: s("a"), location: 9 }));
}

#[test]
fn wrong_arity_is_reported_at_the_call() {
    let p = Exp::FunDefs {
        decls: vec![decl("f", &["a"], var("a", 1), 2)],
        body: Box::new(Exp::Call(s("f"), vec![num(1, 3), num(2, 4)], 7)),
        ann: 8,
    };
    assert_eq!(
        check_prog(&p),
        Err(CompileErr::FunctionCalledWrongArity { function_name: s("f"), correct_arity: 1, arity_used: 2, location: 7 })
    );
}

#[test]
fn mutually_recursive_functions_are_accepted() {
    let even = decl("even", &["n"], Exp::Call(s("odd"), vec![var("n", 1)], 2), 3);
    let odd = decl("odd", &["n"], Exp::Call(s("even"), vec![var("n", 4)], 5), 6);
    let p = Exp::FunDefs { decls: vec![even, odd], body: Box::new(Exp::Call(s("even"), vec![num(4, 7)], 8)), ann: 9 };
    assert_eq!(check_prog(&p), Ok(()));
}

#[test]
fn first_error_in_an_operator_wins() {
    let p = Exp::Prim(Prim::Add, vec![Box::new(var("a", 1)), Box::new(var("b", 2))], 3);
    assert_eq!(check_prog(&p), Err(CompileErr::UnboundVariable { unbound: s("a"), location: 1 }));
}

#[test]
fn compile_reports_check_errors() {
    assert_eq!(compile_to_string(&var("b", 7)), Err(CompileErr::UnboundVariable { unbound: s("b"), location: 7 }));
}
