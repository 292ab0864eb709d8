use lib::assembly::{instrs_to_string, Arg32, Arg64, BinArgs, Instruction, MemRef, MovArgs, Reg, Reg32};
use lib::compile::compile_to_string;
use lib::compile_with_env::{
    binop, check_division_zero_float, check_division_zero_num, check_overflow, check_sqrt_float, check_sqrt_num,
    compile_with_env, unaryop,
};
use lib::float_bits::f32_rounded_bits;
use lib::names::NameMap;
use lib::syntax::{Exp, FloatWrapper, FunDecl, ImmExp, Prim, SeqExp};

fn s(x: &str) -> String {
    x.to_string()
}

const PROLOGUE: &str = "section .text\n        global start_here\n        extern print_snake_val\n        extern snake_error\n";
const START: &str = "        start_here:\n        push r15\n        mov r15, rdi\n        call main\n        pop r15\n        ret\nmain:\n";

fn compile(p: &Exp<()>) -> String {
    compile_to_string(p).expect("program should compile")
}

#[test]
fn number_program_text() {
    let text = compile(&Exp::Num(5, ()));
    let expected = format!("{}funend_0:\n{}        mov rax, 10\n        ret\n\n        ", PROLOGUE, START);
    assert_eq!(text, expected);
}

#[test]
fn boolean_program_text() {
    let text = compile(&Exp::Bool(true, ()));
    let expected = format!("{}funend_0:\n{}        mov rax, 18446744073709551615\n        ret\n\n        ", PROLOGUE, START);
    assert_eq!(text, expected);
    let text = compile(&Exp::Bool(false, ()));
    assert!(text.contains("        mov rax, 9223372036854775807\n        ret\n"));
}

#[test]
fn negative_number_is_shifted() {
    let text = compile(&Exp::Num(-3, ()));
    assert!(text.contains("main:\n        mov rax, -6\n        ret\n"));
}

#[test]
fn float_literal_is_single_precision_plus_tag() {
    let text = compile(&Exp::Float(FloatWrapper(1.5f64.to_bits()), ()));
    let bits = ((1.5f64 as f32) as f64).to_bits();
    assert_eq!(bits, 4609434218613702656);
    assert!(text.contains(&format!("main:\n        mov rax, {}\n        add rax, 1\n        ret\n", bits)));
    let text = compile(&Exp::Float(FloatWrapper(0.1f64.to_bits()), ()));
    let bits = ((0.1f64 as f32) as f64).to_bits();
    assert_ne!(bits, 0.1f64.to_bits());
    assert!(text.contains(&format!("        mov rax, {}\n        add rax, 1\n", bits)));
}

#[test]
fn let_and_add1() {
    let p = Exp::Let {
        bindings: vec![(s("x"), Exp::Num(2, ()))],
        body: Box::new(Exp::Prim(Prim::Add1, vec![Box::new(Exp::Var(s("x"), ()))], ())),
        ann: (),
    };
    let text = compile(&p);
    assert!(text.starts_with(PROLOGUE));
    assert!(text.contains("        mov rax, 4\n        mov QWORD [rsp + -8], rax\n"));
    assert!(text.contains("        add rax, 2\n        mov rdi, 2\n        jo snake_error\n"));
    assert!(text.contains("        and r9, rax\n        cmp r9, 3\n        mov rdi, 0\n        je snake_error\n"));
    assert!(text.ends_with("        ret\n\n        "));
}

#[test]
fn print_moves_the_stack_by_an_odd_frame() {
    let p = Exp::Let {
        bindings: vec![(s("x"), Exp::Num(1, ())), (s("y"), Exp::Num(2, ()))],
        body: Box::new(Exp::Prim(Prim::Print, vec![Box::new(Exp::Var(s("y"), ()))], ())),
        ann: (),
    };
    let text = compile(&p);
    assert!(text.contains("        mov rdi, rax\n        sub rsp, 24\n        call print_snake_val\n        add rsp, 24\n"));
}

#[test]
fn print_frame_for_one_temporary_is_one_slot() {
    let p = Exp::Prim(Prim::Print, vec![Box::new(Exp::Num(1, ()))], ());
    let text = compile(&p);
    assert!(text.contains("        sub rsp, 8\n        call print_snake_val\n        add rsp, 8\n"));
}

#[test]
fn conditional_has_its_labels() {
    let p = Exp::If {
        cond: Box::new(Exp::Bool(true, ())),
        thn: Box::new(Exp::Num(1, ())),
        els: Box::new(Exp::Num(2, ())),
        ann: (),
    };
    let text = compile(&p);
    assert!(text.contains("        mov r8, 9223372036854775807\n        cmp rax, r8\n        je else_"));
    assert!(text.contains("        jmp end_"));
    assert!(text.contains("\nelse_"));
    assert!(text.contains("\nend_"));
    assert!(text.contains("        mov rdi, 4\n        jne snake_error\n"));
}

#[test]
fn tail_call_becomes_a_jump() {
    let f = FunDecl { name: s("f"), parameters: vec![s("a")], body: Exp::Var(s("a"), ()), ann: () };
    let p = Exp::FunDefs { decls: vec![f], body: Box::new(Exp::Call(s("f"), vec![Exp::Num(3, ())], ())), ann: () };
    let text = compile(&p);
    assert!(text.contains("\nfun_f_0:\n"));
    assert!(text.contains("        jmp fun_f_0\n"));
    assert!(!text.contains("call fun_f_0"));
}

#[test]
fn non_tail_call_lifts_the_function() {
    let f = FunDecl { name: s("f"), parameters: vec![s("a")], body: Exp::Var(s("a"), ()), ann: () };
    let call = Exp::Call(s("f"), vec![Exp::Num(3, ())], ());
    let p = Exp::FunDefs {
        decls: vec![f],
        body: Box::new(Exp::Prim(Prim::Add1, vec![Box::new(call)], ())),
        ann: (),
    };
    let text = compile(&p);
    assert!(text.contains("        call fun_f_0\n"));
    let def = text.find("fun_f_0:\n").expect("lifted definition");
    let end = text.find("funend_0:\n").expect("end of globals");
    assert!(def < end);
}

#[test]
fn comparison_uses_its_jump() {
    let p = Exp::Prim(Prim::Lt, vec![Box::new(Exp::Num(1, ())), Box::new(Exp::Num(2, ()))], ());
    let text = compile(&p);
    assert!(text.contains("        cmp rax, r8\n        mov rax, 18446744073709551615\n        jl less_than_"));
    assert!(text.contains("        fcompp\n        fstsw ax\n        and ax, 16640\n        cmp ax, 16384\n"));
}

#[test]
fn logic_not_flips_the_bool_bit() {
    let p = Exp::Prim(Prim::Not, vec![Box::new(Exp::Bool(true, ()))], ());
    let text = compile(&p);
    assert!(text.contains("        mov r8, 9223372036854775808\n        xor rax, r8\n"));
    assert!(text.contains("        mov rdi, 3\n        jne snake_error\n"));
}

#[test]
fn division_checks_for_zero() {
    let p = Exp::Prim(Prim::Div, vec![Box::new(Exp::Num(1, ())), Box::new(Exp::Num(2, ()))], ());
    let text = compile(&p);
    assert!(text.contains("        mov r9, 0\n        cmp r9, r8\n        jne not_zero_"));
    assert!(text.contains("        mov rdi, 5\n        jmp snake_error\n"));
    assert!(text.contains("        fdivp\n"));
}

#[test]
fn compile_with_env_reads_variables_from_their_slots() {
    let e = SeqExp::Imm(ImmExp::Var(s("b")), 0u32);
    let env = vec![s("a"), s("b")];
    let is = compile_with_env(&e, env, 3, &NameMap::new());
    assert_eq!(is, vec![Instruction::Mov(MovArgs::ToReg(Reg::Rax, Arg64::Mem(MemRef { reg: Reg::Rsp, offset: -16 })))]);
}

#[test]
fn compile_with_env_let_reuses_a_known_slot() {
    let e = SeqExp::Let {
        var: s("a"),
        bound_exp: Box::new(SeqExp::Imm(ImmExp::Num(7), 0u32)),
        body: Box::new(SeqExp::Imm(ImmExp::Var(s("a")), 1u32)),
        ann: 2u32,
    };
    let is = compile_with_env(&e, vec![s("z"), s("a")], 3, &NameMap::new());
    assert_eq!(
        is,
        vec![
            Instruction::Mov(MovArgs::ToReg(Reg::Rax, Arg64::Signed(14))),
            Instruction::Mov(MovArgs::ToMem(MemRef { reg: Reg::Rsp, offset: -16 }, Reg32::Reg(Reg::Rax))),
            Instruction::Mov(MovArgs::ToReg(Reg::Rax, Arg64::Mem(MemRef { reg: Reg::Rsp, offset: -16 }))),
        ]
    );
}

#[test]
fn tail_call_copies_captured_then_arguments() {
    let mut fenv: NameMap<Vec<String>> = NameMap::new();
    fenv.insert(s("g"), vec![s("c")]);
    let e = SeqExp::InternalTailCall(s("g"), vec![ImmExp::Var(s("x"))], 0u32);
    let is = compile_with_env(&e, vec![s("x"), s("c")], 3, &fenv);
    let m = |o: i32| MemRef { reg: Reg::Rsp, offset: o };
    assert_eq!(
        is,
        vec![
            Instruction::Mov(MovArgs::ToReg(Reg::Rax, Arg64::Mem(m(-16)))),
            Instruction::Mov(MovArgs::ToMem(m(-8), Reg32::Reg(Reg::Rax))),
            Instruction::Mov(MovArgs::ToReg(Reg::Rax, Arg64::Mem(m(-8)))),
            Instruction::Mov(MovArgs::ToMem(m(-16), Reg32::Reg(Reg::Rax))),
            Instruction::Jmp(s("g")),
        ]
    );
}

#[test]
fn external_call_goes_below_the_frame() {
    let mut fenv: NameMap<Vec<String>> = NameMap::new();
    fenv.insert(s("g"), vec![]);
    let e = SeqExp::ExternalCall { fun_name: s("g"), args: vec![ImmExp::Var(s("x"))], is_tail: false, ann: 0u32 };
    let is = compile_with_env(&e, vec![s("x")], 3, &fenv);
    let m = |o: i32| MemRef { reg: Reg::Rsp, offset: o };
    assert_eq!(
        is,
        vec![
            Instruction::Mov(MovArgs::ToReg(Reg::Rax, Arg64::Mem(m(-8)))),
            Instruction::Mov(MovArgs::ToMem(m(-40), Reg32::Reg(Reg::Rax))),
            Instruction::Sub(BinArgs::ToReg(Reg::Rsp, Arg32::Signed(24))),
            Instruction::Call(s("g")),
            Instruction::Add(BinArgs::ToReg(Reg::Rsp, Arg32::Signed(24))),
        ]
    );
}

#[test]
fn check_helpers_text() {
    let t = instrs_to_string(&check_division_zero_num(Reg::R8, &7));
    assert_eq!(t, "        mov r9, 0\n        cmp r9, r8\n        jne not_zero_7\n        mov rdi, 5\n        jmp snake_error\nnot_zero_7:\n");
    let t = instrs_to_string(&check_sqrt_num(Reg::Rax, &3));
    assert_eq!(t, "        mov r9, 0\n        cmp r9, rax\n        jle not_lt_zero_3\n        mov rdi, 6\n        jmp snake_error\nnot_lt_zero_3:\n");
    let t = instrs_to_string(&check_overflow());
    assert_eq!(t, "        mov rdi, 2\n        jo snake_error\n");
    let t = instrs_to_string(&check_division_zero_float(&4, -8));
    assert!(t.starts_with("        mov r9, 0\n        mov QWORD [rsp + -8], r9\n        fld QWORD [rsp + -8]\n        fcomp\n"));
    assert!(t.contains("check_div_equal_4:\n        mov rdi, 5\n        jmp snake_error\n        jmp cmp_done_4\n"));
    let t = instrs_to_string(&check_sqrt_float(&4, -8));
    assert!(t.contains("        je check_sqrt_smaller_4\n        mov rdi, 6\n        jmp snake_error\n        jmp cmp_done_4\n"));
}

#[test]
fn dispatch_helpers_keep_earlier_code() {
    let mut out = vec![Instruction::Ret];
    unaryop(&vec![], &vec![Instruction::Fcos], &1, -8, &mut out);
    let t = instrs_to_string(&out);
    assert!(t.starts_with("        ret\n        mov r9, 1\n        and r9, rax\n        cmp r9, 1\n        je when_float_1\n        jmp done_1\nwhen_float_1:\n"));
    assert!(t.ends_with("done_1:\n"));
    let mut out = vec![];
    binop(&vec![Instruction::Ret], &vec![], &2, -8, &mut out);
    let t = instrs_to_string(&out);
    assert!(t.contains("        je second_float_2\n        ret\n        jmp done_2\nfirst_float_2:\n"));
    assert!(t.ends_with("handle_float_2:\ndone_2:\n"));
}

#[test]
fn float_rounding_matches_single_precision() {
    let samples = [
        0.0f64, -0.0, 1.0, 1.5, 0.1, -2.75, 3.4e38, 3.5e38, -3.5e38, 1e-40, 1e-45, 7e-46, 1e-50, 6.0e-39,
        f32::MAX as f64, f32::MIN_POSITIVE as f64, 16777217.0, 33554431.0, 0.3333333333333333, f64::INFINITY,
        f64::NEG_INFINITY, 1.401298464324817e-45, 2.1, 10.5,
    ];
    for v in samples.iter() {
        let expected = ((*v as f32) as f64).to_bits();
        assert_eq!(f32_rounded_bits(v.to_bits()), expected, "value {}", v);
    }
    let nan = f32_rounded_bits(f64::NAN.to_bits());
    assert!(f64::from_bits(nan).is_nan());
    assert_eq!(nan, ((f64::NAN as f32) as f64).to_bits());
}

fn call(f: &str, args: Vec<Exp<()>>) -> Exp<()> {
    Exp::Call(s(f), args, ())
}

fn prim(p: Prim, args: Vec<Exp<()>>) -> Exp<()> {
    Exp::Prim(p, args.into_iter().map(Box::new).collect(), ())
}

fn v(x: &str) -> Exp<()> {
    Exp::Var(s(x), ())
}

#[test]
fn recursive_function_is_lifted_and_called() {
    let body = Exp::If {
        cond: Box::new(prim(Prim::Le, vec![v("n"), Exp::Num(1, ())])),
        thn: Box::new(Exp::Num(1, ())),
        els: Box::new(prim(Prim::Mul, vec![v("n"), call("fact", vec![prim(Prim::Sub, vec![v("n"), Exp::Num(1, ())])])])),
        ann: (),
    };
    let fact = FunDecl { name: s("fact"), parameters: vec![s("n")], body, ann: () };
    let p = Exp::FunDefs { decls: vec![fact], body: Box::new(call("fact", vec![Exp::Num(5, ())])), ann: () };
    let text = compile(&p);
    assert!(text.contains("        call fun_fact_0\n"));
    assert!(text.contains("        jmp fun_fact_0\n"));
    assert!(text.contains("        imul rax, r8\n"));
    let def = text.find("\nfun_fact_0:\n").expect("global definition");
    let end = text.find("\nfunend_0:\n").expect("end of globals");
    assert!(def < end);
}

#[test]
fn lifted_function_gets_a_copy_of_its_tail_callee() {
    let g = FunDecl { name: s("g"), parameters: vec![s("y")], body: prim(Prim::Add, vec![v("x"), v("y")]), ann: () };
    let h = FunDecl { name: s("h"), parameters: vec![s("z")], body: call("g", vec![v("z")]), ann: () };
    let group = Exp::FunDefs {
        decls: vec![g, h],
        body: Box::new(prim(Prim::Add1, vec![call("h", vec![Exp::Num(1, ())])])),
        ann: (),
    };
    let p = Exp::Let { bindings: vec![(s("x"), Exp::Num(10, ()))], body: Box::new(group), ann: () };
    let text = compile(&p);
    assert!(text.contains("        call fun_h_"));
    assert!(text.contains("_copy:\n"));
    assert!(text.contains("_copy\n"));
}

#[test]
fn float_arithmetic_program() {
    let p = Exp::Let {
        bindings: vec![(s("a"), Exp::Float(FloatWrapper(1.5f64.to_bits()), ()))],
        body: Box::new(prim(
            Prim::FloorDiv,
            vec![prim(Prim::Sqrt, vec![v("a")]), prim(Prim::Cos, vec![Exp::Float(FloatWrapper(0.25f64.to_bits()), ())])],
        )),
        ann: (),
    };
    let text = compile(&p);
    assert!(text.contains("        fsqrt\n"));
    assert!(text.contains("        fcos\n"));
    assert!(text.contains("        fistp QWORD [rsp + "));
    assert!(text.contains("        jle not_lt_zero_"));
}
