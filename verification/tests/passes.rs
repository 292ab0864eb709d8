use lib::lambda_lift::lambda_lift_helper;
use lib::names::{NameMap, NameSet};
use lib::seq_exp::{seq_decl, seq_exp};
use lib::should_lift::should_lift_helper;
use lib::syntax::{Exp, FunDecl, ImmExp, Prim, SeqExp};
use lib::tag::{tag_exp, tag_funs, tag_seq};

fn s(x: &str) -> String {
    x.to_string()
}

#[test]
fn tags_are_post_order() {
    let e: Exp<()> = Exp::Prim(Prim::Add, vec![Box::new(Exp::Num(1, ())), Box::new(Exp::Num(2, ()))], ());
    let mut counter = 0u32;
    let mut map: NameMap<String> = NameMap::new();
    let t = tag_exp(&e, &mut counter, &mut map, false);
    assert_eq!(t, Exp::Prim(Prim::Add, vec![Box::new(Exp::Num(1, 0)), Box::new(Exp::Num(2, 1))], 2));
    assert_eq!(counter, 3);
}

#[test]
fn uniquify_renames_let_variables() {
    let e: Exp<()> = Exp::Let { bindings: vec![(s("x"), Exp::Num(1, ()))], body: Box::new(Exp::Var(s("x"), ())), ann: () };
    let mut counter = 0u32;
    let mut map: NameMap<String> = NameMap::new();
    let t = tag_exp(&e, &mut counter, &mut map, true);
    assert_eq!(t, Exp::Let { bindings: vec![(s("x_1"), Exp::Num(1, 0))], body: Box::new(Exp::Var(s("x_1"), 1)), ann: 2 });
    assert_eq!(counter, 3);
    assert_eq!(map.get(&s("x")), Some(&s("x_1")));
}

#[test]
fn uniquify_renames_functions_and_parameters() {
    let f = FunDecl { name: s("f"), parameters: vec![s("a")], body: Exp::Var(s("a"), ()), ann: () };
    let e: Exp<()> = Exp::FunDefs { decls: vec![f], body: Box::new(Exp::Call(s("f"), vec![Exp::Num(3, ())], ())), ann: () };
    let mut counter = 0u32;
    let mut map: NameMap<String> = NameMap::new();
    let t = tag_exp(&e, &mut counter, &mut map, true);
    let expected = Exp::FunDefs {
        decls: vec![FunDecl { name: s("fun_f_0"), parameters: vec![s("a_1")], body: Exp::Var(s("a_1"), 2), ann: 3 }],
        body: Box::new(Exp::Call(s("fun_f_0"), vec![Exp::Num(3, 4)], 5)),
        ann: 6,
    };
    assert_eq!(t, expected);
    assert_eq!(counter, 7);
}

#[test]
fn tag_seq_numbers_consecutively() {
    let e: SeqExp<()> = SeqExp::If {
        cond: ImmExp::Var(s("c")),
        thn: Box::new(SeqExp::Imm(ImmExp::Num(1), ())),
        els: Box::new(SeqExp::Imm(ImmExp::Num(2), ())),
        ann: (),
    };
    let mut counter = 5u32;
    let t = tag_seq(&e, &mut counter);
    let expected = SeqExp::If {
        cond: ImmExp::Var(s("c")),
        thn: Box::new(SeqExp::Imm(ImmExp::Num(1), 5)),
        els: Box::new(SeqExp::Imm(ImmExp::Num(2), 6)),
        ann: 7,
    };
    assert_eq!(t, expected);
    assert_eq!(counter, 8);
}

#[test]
fn tag_funs_continues_the_counter() {
    let f = FunDecl { name: s("f"), parameters: vec![s("a")], body: SeqExp::Imm(ImmExp::Var(s("a")), ()), ann: () };
    let g = FunDecl { name: s("g"), parameters: vec![], body: SeqExp::Imm(ImmExp::Num(0), ()), ann: () };
    let mut counter = 1u32;
    let t = tag_funs(&vec![f, g], &mut counter);
    assert_eq!(t[0].body, SeqExp::Imm(ImmExp::Var(s("a")), 1));
    assert_eq!(t[0].ann, 2);
    assert_eq!(t[1].body, SeqExp::Imm(ImmExp::Num(0), 3));
    assert_eq!(t[1].ann, 4);
    assert_eq!(counter, 5);
}

#[test]
fn binary_operator_operands_get_temporaries() {
    let e: Exp<u32> = Exp::Prim(Prim::Add, vec![Box::new(Exp::Num(1, 0)), Box::new(Exp::Num(2, 1))], 2);
    let expected = SeqExp::Let {
        var: s("#prim2_1_2"),
        bound_exp: Box::new(SeqExp::Imm(ImmExp::Num(1), ())),
        body: Box::new(SeqExp::Let {
            var: s("#prim2_2_2"),
            bound_exp: Box::new(SeqExp::Imm(ImmExp::Num(2), ())),
            body: Box::new(SeqExp::Prim(Prim::Add, vec![ImmExp::Var(s("#prim2_1_2")), ImmExp::Var(s("#prim2_2_2"))], ())),
            ann: (),
        }),
        ann: (),
    };
    assert_eq!(seq_exp(&e), expected);
}

#[test]
fn condition_and_call_arguments_get_temporaries() {
    let e: Exp<u32> = Exp::If {
        cond: Box::new(Exp::Bool(true, 0)),
        thn: Box::new(Exp::ExternalCall { fun_name: s("g"), args: vec![Exp::Num(4, 1)], is_tail: true, ann: 2 }),
        els: Box::new(Exp::Num(5, 3)),
        ann: 4,
    };
    let expected = SeqExp::Let {
        var: s("if_4"),
        bound_exp: Box::new(SeqExp::Imm(ImmExp::Bool(true), ())),
        body: Box::new(SeqExp::If {
            cond: ImmExp::Var(s("if_4")),
            thn: Box::new(SeqExp::Let {
                var: s("#arg_2_0"),
                bound_exp: Box::new(SeqExp::Imm(ImmExp::Num(4), ())),
                body: Box::new(SeqExp::ExternalCall {
                    fun_name: s("g"),
                    args: vec![ImmExp::Var(s("#arg_2_0"))],
                    is_tail: true,
                    ann: (),
                }),
                ann: (),
            }),
            els: Box::new(SeqExp::Imm(ImmExp::Num(5), ())),
            ann: (),
        }),
        ann: (),
    };
    assert_eq!(seq_exp(&e), expected);
}

#[test]
fn global_functions_are_sequenced_from_tag_zero() {
    let body = Exp::Prim(Prim::Add1, vec![Box::new(Exp::Var(s("a"), ()))], ());
    let f = FunDecl { name: s("f"), parameters: vec![s("a")], body, ann: () };
    let out = seq_decl(&[f]);
    assert_eq!(out.len(), 1);
    assert_eq!(out[0].name, s("f"));
    assert_eq!(out[0].parameters, vec![s("a")]);
    let expected = SeqExp::Let {
        var: s("#prim1_1_1"),
        bound_exp: Box::new(SeqExp::Imm(ImmExp::Var(s("a")), ())),
        body: Box::new(SeqExp::Prim(Prim::Add1, vec![ImmExp::Var(s("#prim1_1_1"))], ())),
        ann: (),
    };
    assert_eq!(out[0].body, expected);
}

#[test]
fn only_non_tail_calls_are_lifted() {
    let tail = Exp::If {
        cond: Box::new(Exp::Bool(true, ())),
        thn: Box::new(Exp::Call(s("f"), vec![], ())),
        els: Box::new(Exp::Prim(Prim::Add1, vec![Box::new(Exp::Call(s("g"), vec![], ()))], ())),
        ann: (),
    };
    let mut set = NameSet::new();
    should_lift_helper(&tail, &mut set, true);
    assert!(!set.contains(&s("f")));
    assert!(set.contains(&s("g")));
    let mut set = NameSet::new();
    should_lift_helper(&tail, &mut set, false);
    assert!(set.contains(&s("f")));
}

#[test]
fn lifting_moves_a_function_to_the_globals() {
    let f = FunDecl { name: s("f"), parameters: vec![s("a")], body: Exp::Var(s("a"), ()), ann: () };
    let call = Exp::Call(s("f"), vec![Exp::Num(3, ())], ());
    let p: Exp<()> = Exp::FunDefs { decls: vec![f], body: Box::new(Exp::Prim(Prim::Add1, vec![Box::new(call)], ())), ann: () };
    let mut should_lift = NameSet::new();
    should_lift_helper(&p, &mut should_lift, true);
    let mut env: Vec<String> = vec![];
    let mut lifted: Vec<FunDecl<Exp<()>, ()>> = vec![];
    let mut fun_to_decl: NameMap<FunDecl<Exp<()>, ()>> = NameMap::new();
    let mut fun_to_env: NameMap<Vec<String>> = NameMap::new();
    let body = lambda_lift_helper(&p, &mut env, &mut lifted, &should_lift, &mut fun_to_decl, true, &mut fun_to_env);
    let expected = Exp::Prim(
        Prim::Add1,
        vec![Box::new(Exp::ExternalCall { fun_name: s("f"), args: vec![Exp::Num(3, ())], is_tail: false, ann: () })],
        (),
    );
    assert_eq!(body, expected);
    assert_eq!(lifted, vec![FunDecl { name: s("f"), parameters: vec![s("a")], body: Exp::Var(s("a"), ()), ann: () }]);
    assert_eq!(fun_to_env.get(&s("f")), Some(&vec![]));
}

#[test]
fn local_function_stays_and_tail_call_is_internal() {
    let f = FunDecl { name: s("f"), parameters: vec![s("a")], body: Exp::Var(s("a"), ()), ann: () };
    let p: Exp<()> = Exp::Let {
        bindings: vec![(s("x"), Exp::Num(1, ()))],
        body: Box::new(Exp::FunDefs { decls: vec![f], body: Box::new(Exp::Call(s("f"), vec![Exp::Var(s("x"), ())], ())), ann: () }),
        ann: (),
    };
    let should_lift = NameSet::new();
    let mut env: Vec<String> = vec![];
    let mut lifted: Vec<FunDecl<Exp<()>, ()>> = vec![];
    let mut fun_to_decl: NameMap<FunDecl<Exp<()>, ()>> = NameMap::new();
    let mut fun_to_env: NameMap<Vec<String>> = NameMap::new();
    let body = lambda_lift_helper(&p, &mut env, &mut lifted, &should_lift, &mut fun_to_decl, true, &mut fun_to_env);
    let expected = Exp::Let {
        bindings: vec![(s("x"), Exp::Num(1, ()))],
        body: Box::new(Exp::FunDefs {
            decls: vec![FunDecl { name: s("f"), parameters: vec![s("a")], body: Exp::Var(s("a"), ()), ann: () }],
            body: Box::new(Exp::InternalTailCall(s("f"), vec![Exp::Var(s("x"), ())], ())),
            ann: (),
        }),
        ann: (),
    };
    assert_eq!(body, expected);
    assert!(lifted.is_empty());
    assert_eq!(fun_to_env.get(&s("f")), Some(&vec![s("x")]));
}

#[test]
fn name_map_reads_back_the_last_write() {
    let mut m: NameMap<usize> = NameMap::new();
    assert_eq!(m.get(&s("a")), None);
    m.insert(s("a"), 1);
    m.insert(s("b"), 2);
    m.insert(s("a"), 3);
    assert_eq!(m.get(&s("a")), Some(&3));
    assert_eq!(m.get(&s("b")), Some(&2));
    assert!(m.contains_key(&s("b")));
    assert!(!m.contains_key(&s("c")));
}

#[test]
fn name_set_insert_reports_novelty() {
    let mut set = NameSet::new();
    assert!(set.insert(s("x")));
    assert!(!set.insert(s("x")));
    assert!(set.contains(&s("x")));
    assert!(!set.contains(&s("y")));
}

#[test]
fn uniquify_separates_shadowed_variables() {
    let inner: Exp<()> = Exp::Let { bindings: vec![(s("x"), Exp::Num(2, ()))], body: Box::new(Exp::Var(s("x"), ())), ann: () };
    let e: Exp<()> = Exp::Let { bindings: vec![(s("x"), Exp::Num(1, ()))], body: Box::new(inner), ann: () };
    let mut counter = 0u32;
    let mut map: NameMap<String> = NameMap::new();
    let t = tag_exp(&e, &mut counter, &mut map, true);
    let expected = Exp::Let {
        bindings: vec![(s("x_1"), Exp::Num(1, 0))],
        body: Box::new(Exp::Let { bindings: vec![(s("x_2"), Exp::Num(2, 1))], body: Box::new(Exp::Var(s("x_2"), 2)), ann: 3 }),
        ann: 4,
    };
    assert_eq!(t, expected);
    assert_eq!(counter, 5);
}

#[test]
fn uniquify_separates_parameters_of_different_functions() {
    let f = FunDecl { name: s("f"), parameters: vec![s("a")], body: Exp::Var(s("a"), ()), ann: () };
    let g = FunDecl { name: s("g"), parameters: vec![s("a")], body: Exp::Var(s("a"), ()), ann: () };
    let e: Exp<()> = Exp::FunDefs { decls: vec![f, g], body: Box::new(Exp::Num(0, ())), ann: () };
    let mut counter = 0u32;
    let mut map: NameMap<String> = NameMap::new();
    match tag_exp(&e, &mut counter, &mut map, true) {
        Exp::FunDefs { decls, .. } => {
            assert_eq!(decls[0].name, s("fun_f_0"));
            assert_eq!(decls[1].name, s("fun_g_1"));
            assert_eq!(decls[0].parameters, vec![s("a_2")]);
            assert_eq!(decls[1].parameters, vec![s("a_5")]);
            assert_ne!(decls[0].parameters, decls[1].parameters);
        },
        other => panic!("unexpected {:?}", other),
    }
}
