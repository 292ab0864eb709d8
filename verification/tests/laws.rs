use lib::assembly::{Arg32, BinArgs, Instr, Instruction, Reg};
use lib::compile_with_env::compile_with_env;
use lib::lambda_lift::lambda_lift_helper;
use lib::names::{NameMap, NameSet};
use lib::seq_exp::{seq_decl, seq_exp};
use lib::should_lift::should_lift_helper;
use lib::syntax::{Exp, FunDecl, ImmExp, Prim, SeqExp};
use lib::tag::{tag_exp, tag_seq};

fn s(x: &str) -> String {
    x.to_string()
}

fn jump_target(i: &Instr) -> Option<&String> {
    match i {
        Instruction::Jmp(l)
        | Instruction::Je(l)
        | Instruction::Jne(l)
        | Instruction::Jl(l)
        | Instruction::Jle(l)
        | Instruction::Jg(l)
        | Instruction::Jge(l)
        | Instruction::Jz(l)
        | Instruction::Jo(l) => Some(l),
        _ => None,
    }
}

#[test]
fn tagging_without_renaming_changes_only_annotations() {
    let e: Exp<()> = Exp::Let {
        bindings: vec![(s("x"), Exp::Num(1, ())), (s("y"), Exp::Var(s("x"), ()))],
        body: Box::new(Exp::Call(s("f"), vec![Exp::Var(s("y"), ())], ())),
        ann: (),
    };
    let mut counter = 10u32;
    let mut map: NameMap<String> = NameMap::new();
    let t = tag_exp(&e, &mut counter, &mut map, false);
    let expected = Exp::Let {
        bindings: vec![(s("x"), Exp::Num(1, 10)), (s("y"), Exp::Var(s("x"), 11))],
        body: Box::new(Exp::Call(s("f"), vec![Exp::Var(s("y"), 12)], 13)),
        ann: 14,
    };
    assert_eq!(t, expected);
    assert_eq!(counter, 15);
}

#[test]
fn tag_seq_advances_by_nodes_and_declarations() {
    let f = FunDecl { name: s("f"), parameters: vec![s("a")], body: SeqExp::Imm(ImmExp::Var(s("a")), ()), ann: () };
    let e: SeqExp<()> = SeqExp::FunDefs {
        decls: vec![f],
        body: Box::new(SeqExp::Let {
            var: s("x"),
            bound_exp: Box::new(SeqExp::Imm(ImmExp::Num(1), ())),
            body: Box::new(SeqExp::InternalTailCall(s("f"), vec![ImmExp::Var(s("x"))], ())),
            ann: (),
        }),
        ann: (),
    };
    let mut counter = 3u32;
    let t = tag_seq(&e, &mut counter);
    // five nodes and one declaration
    assert_eq!(counter, 3 + 6);
    match t {
        SeqExp::FunDefs { decls, body, ann } => {
            assert_eq!(ann, 8);
            assert_eq!(decls[0].name, s("f"));
            assert_eq!(decls[0].parameters, vec![s("a")]);
            assert_eq!(decls[0].body, SeqExp::Imm(ImmExp::Var(s("a")), 3));
            assert_eq!(decls[0].ann, 4);
            let expected = SeqExp::Let {
                var: s("x"),
                bound_exp: Box::new(SeqExp::Imm(ImmExp::Num(1), 5)),
                body: Box::new(SeqExp::InternalTailCall(s("f"), vec![ImmExp::Var(s("x"))], 6)),
                ann: 7,
            };
            assert_eq!(*body, expected);
        },
        other => panic!("unexpected {:?}", other),
    }
}

#[test]
fn let_with_several_bindings_nests_in_source_order() {
    let e: Exp<u32> = Exp::Let {
        bindings: vec![(s("x"), Exp::Num(1, 0)), (s("y"), Exp::Bool(true, 1)), (s("z"), Exp::Var(s("x"), 2))],
        body: Box::new(Exp::Var(s("z"), 3)),
        ann: 4,
    };
    let expected = SeqExp::Let {
        var: s("x"),
        bound_exp: Box::new(SeqExp::Imm(ImmExp::Num(1), ())),
        body: Box::new(SeqExp::Let {
            var: s("y"),
            bound_exp: Box::new(SeqExp::Imm(ImmExp::Bool(true), ())),
            body: Box::new(SeqExp::Let {
                var: s("z"),
                bound_exp: Box::new(SeqExp::Imm(ImmExp::Var(s("x")), ())),
                body: Box::new(SeqExp::Imm(ImmExp::Var(s("z")), ())),
                ann: (),
            }),
            ann: (),
        }),
        ann: (),
    };
    assert_eq!(seq_exp(&e), expected);
}

fn decl_f() -> FunDecl<Exp<()>, ()> {
    FunDecl {
        name: s("f"),
        parameters: vec![s("a")],
        body: Exp::Prim(Prim::Add1, vec![Box::new(Exp::Var(s("a"), ()))], ()),
        ann: (),
    }
}

fn decl_g() -> FunDecl<Exp<()>, ()> {
    FunDecl {
        name: s("g"),
        parameters: vec![s("b"), s("c")],
        body: Exp::Prim(Prim::Add, vec![Box::new(Exp::Var(s("b"), ())), Box::new(Exp::Var(s("c"), ()))], ()),
        ann: (),
    }
}

#[test]
fn seq_decl_treats_each_declaration_alone() {
    let both = seq_decl(&[decl_f(), decl_g()]);
    let mut apart = seq_decl(&[decl_f()]);
    apart.extend(seq_decl(&[decl_g()]));
    assert_eq!(both, apart);
    assert_eq!(both[1].name, s("g"));
    assert_eq!(both[1].parameters, vec![s("b"), s("c")]);
}

#[test]
fn non_tail_call_sites_are_collected() {
    let p: Exp<()> = Exp::Let {
        bindings: vec![(s("x"), Exp::Call(s("g"), vec![], ()))],
        body: Box::new(Exp::If {
            cond: Box::new(Exp::Call(s("h"), vec![], ())),
            thn: Box::new(Exp::Call(s("f"), vec![Exp::Call(s("k"), vec![], ())], ())),
            els: Box::new(Exp::Num(0, ())),
            ann: (),
        }),
        ann: (),
    };
    let mut set = NameSet::new();
    set.insert(s("old"));
    should_lift_helper(&p, &mut set, true);
    assert!(set.contains(&s("old")));
    assert!(set.contains(&s("g")));
    assert!(set.contains(&s("h")));
    assert!(set.contains(&s("k")));
    assert!(!set.contains(&s("f")));
}

#[test]
fn lifted_group_records_environments() {
    let f = FunDecl { name: s("f"), parameters: vec![s("a")], body: Exp::Var(s("a"), ()), ann: () };
    let g = FunDecl { name: s("g"), parameters: vec![], body: Exp::Num(2, ()), ann: () };
    let call_f = Exp::Call(s("f"), vec![Exp::Var(s("x"), ())], ());
    let p: Exp<()> = Exp::Let {
        bindings: vec![(s("x"), Exp::Num(1, ()))],
        body: Box::new(Exp::FunDefs {
            decls: vec![f, g],
            body: Box::new(Exp::Prim(Prim::Add1, vec![Box::new(call_f)], ())),
            ann: (),
        }),
        ann: (),
    };
    let mut should_lift = NameSet::new();
    should_lift_helper(&p, &mut should_lift, true);
    let mut env: Vec<String> = vec![];
    let mut lifted: Vec<FunDecl<Exp<()>, ()>> = vec![];
    let mut fun_to_decl: NameMap<FunDecl<Exp<()>, ()>> = NameMap::new();
    let mut fun_to_env: NameMap<Vec<String>> = NameMap::new();
    let body = lambda_lift_helper(&p, &mut env, &mut lifted, &should_lift, &mut fun_to_decl, true, &mut fun_to_env);
    assert_eq!(lifted.len(), 1);
    assert_eq!(lifted[0].name, s("f"));
    assert_eq!(lifted[0].parameters, vec![s("x"), s("a")]);
    assert_eq!(fun_to_env.get(&s("f")), Some(&vec![s("x")]));
    assert_eq!(fun_to_env.get(&s("g")), Some(&vec![s("x")]));
    match body {
        Exp::Let { body, .. } => match *body {
            Exp::FunDefs { decls, .. } => {
                assert_eq!(decls.len(), 1);
                assert_eq!(decls[0].name, s("g"));
                assert!(decls[0].parameters.is_empty());
            },
            other => panic!("unexpected {:?}", other),
        },
        other => panic!("unexpected {:?}", other),
    }
}

#[test]
fn calls_are_framed_and_jumps_land_on_labels() {
    let e: SeqExp<u32> = SeqExp::If {
        cond: ImmExp::Var(s("c")),
        thn: Box::new(SeqExp::Prim(Prim::Print, vec![ImmExp::Num(1)], 0)),
        els: Box::new(SeqExp::Prim(Prim::Lt, vec![ImmExp::Var(s("c")), ImmExp::Num(2)], 1)),
        ann: 2,
    };
    let space = 3;
    let code = compile_with_env(&e, vec![s("c")], space, &NameMap::new());
    let frame = Arg32::Signed(8 * space);
    let mut calls = 0;
    for (i, ins) in code.iter().enumerate() {
        if let Instruction::Call(_) = ins {
            calls += 1;
            assert_eq!(code[i - 1], Instruction::Sub(BinArgs::ToReg(Reg::Rsp, frame.clone())));
            assert_eq!(code[i + 1], Instruction::Add(BinArgs::ToReg(Reg::Rsp, frame.clone())));
        }
        if let Some(l) = jump_target(ins) {
            let defined = code.iter().any(|j| *j == Instruction::Label(l.clone()));
            assert!(defined || l == "snake_error", "jump to {}", l);
        }
    }
    assert_eq!(calls, 1);
}
