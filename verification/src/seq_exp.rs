use vstd::prelude::*;

use crate::names::NameMap;
use crate::syntax::{
    imm_view, DeclV, Exp, ExpV, FunDecl, ImmExp, ImmV, Name, Prim, SeqExp, SeqExpV,
    bindings_view, decls_view, exp_view, exps_view, imms_view, names_view, seq_decls_view, seq_view,
};
use crate::tag::{tag_exp, tag_v};
use crate::text::{nat_text, push_nat, push_str};

verus! {

broadcast use crate::syntax::group_views;

/// Operators with two operands (the others take one).
pub open spec fn is_binary(p: Prim) -> bool {
    match p {
        Prim::Add | Prim::Sub | Prim::Mul | Prim::And | Prim::Or | Prim::Lt | Prim::Gt | Prim::Le
        | Prim::Ge | Prim::Eq | Prim::Div | Prim::FloorDiv | Prim::Neq => true,
        _ => false,
    }
}

/// Name of the temporary holding operand `k` (1 or 2) of a binary operator tagged `t`.
pub open spec fn prim2_name(k: nat, t: u32) -> Name {
    if k == 1 { "#prim2_1_"@ + nat_text(t as nat) } else { "#prim2_2_"@ + nat_text(t as nat) }
}

/// Name of the temporary holding the operand of a unary operator tagged `t`.
pub open spec fn prim1_name(t: u32) -> Name {
    "#prim1_1_"@ + nat_text(t as nat)
}

/// Name of the temporary holding the condition of an `if` tagged `t`.
pub open spec fn if_name(t: u32) -> Name {
    "if_"@ + nat_text(t as nat)
}

/// Name of the temporary holding argument `i` of a call tagged `t`.
pub open spec fn arg_name(t: u32, i: int) -> Name {
    "#arg_"@ + nat_text(t as nat) + "_"@ + nat_text(i as nat)
}

/// The variables naming the `n` arguments of a call tagged `t`.
pub open spec fn arg_vars(t: u32, n: nat) -> Seq<ImmV> {
    Seq::new(n, |i: int| ImmV::Var(arg_name(t, i)))
}

/// `e` can be put in sequential form: it holds no plain `Call`, and every
/// operator has its operands.
pub open spec fn seq_ok(e: ExpV<u32>) -> bool
    decreases e,
{
    match e {
        ExpV::Prim(op, es, _) =>
            if is_binary(op) { es.len() >= 2 && seq_ok(es[0]) && seq_ok(es[1]) } else { es.len() >= 1 && seq_ok(es[0]) },
        ExpV::Let { bindings, body, .. } => seq_ok_bindings(bindings) && seq_ok(*body),
        ExpV::If { cond, thn, els, .. } => seq_ok(*cond) && seq_ok(*thn) && seq_ok(*els),
        ExpV::FunDefs { decls, body, .. } => seq_ok_decls(decls) && seq_ok(*body),
        ExpV::InternalTailCall(_, args, _) => seq_ok_list(args),
        ExpV::ExternalCall { args, .. } => seq_ok_list(args),
        ExpV::Call(..) => false,
        _ => true,
    }
}

pub open spec fn seq_ok_list(es: Seq<ExpV<u32>>) -> bool
    decreases es,
{
    es.len() == 0 || (seq_ok_list(es.drop_last()) && seq_ok(es.last()))
}

pub open spec fn seq_ok_bindings(bs: Seq<(Name, ExpV<u32>)>) -> bool
    decreases bs,
{
    bs.len() == 0 || (seq_ok_bindings(bs.drop_last()) && seq_ok(bs.last().1))
}

pub open spec fn seq_ok_decls(ds: Seq<DeclV<ExpV<u32>, u32>>) -> bool
    decreases ds,
{
    ds.len() == 0 || (seq_ok_decls(ds.drop_last()) && seq_ok(ds.last().body))
}

/// The sequential (A-normal) form of `e`: operands, conditions and call
/// arguments are bound to temporaries named after the node's tag.
pub open spec fn seq_v(e: ExpV<u32>) -> SeqExpV<()>
    decreases e,
{
    match e {
        ExpV::Var(x, _) => SeqExpV::Imm(ImmV::Var(x), ()),
        ExpV::Num(n, _) => SeqExpV::Imm(ImmV::Num(n), ()),
        ExpV::Bool(b, _) => SeqExpV::Imm(ImmV::Bool(b), ()),
        ExpV::Float(f, _) => SeqExpV::Imm(ImmV::Float(f), ()),
        ExpV::Prim(op, es, tag) =>
            if is_binary(op) && es.len() >= 2 {
                SeqExpV::Let {
                    var: prim2_name(1, tag),
                    bound_exp: Box::new(seq_v(es[0])),
                    body: Box::new(SeqExpV::Let {
                        var: prim2_name(2, tag),
                        bound_exp: Box::new(seq_v(es[1])),
                        body: Box::new(SeqExpV::Prim(op, seq![ImmV::Var(prim2_name(1, tag)), ImmV::Var(prim2_name(2, tag))], ())),
                        ann: (),
                    }),
                    ann: (),
                }
            } else if !is_binary(op) && es.len() >= 1 {
                SeqExpV::Let {
                    var: prim1_name(tag),
                    bound_exp: Box::new(seq_v(es[0])),
                    body: Box::new(SeqExpV::Prim(op, seq![ImmV::Var(prim1_name(tag))], ())),
                    ann: (),
                }
            } else {
                SeqExpV::Imm(ImmV::Num(0), ())
            },
        ExpV::Let { bindings, body, .. } => seq_bindings_v(bindings, seq_v(*body)),
        ExpV::If { cond, thn, els, ann } => SeqExpV::Let {
            var: if_name(ann),
            bound_exp: Box::new(seq_v(*cond)),
            body: Box::new(SeqExpV::If {
                cond: ImmV::Var(if_name(ann)),
                thn: Box::new(seq_v(*thn)),
                els: Box::new(seq_v(*els)),
                ann: (),
            }),
            ann: (),
        },
        ExpV::FunDefs { decls, body, .. } => SeqExpV::FunDefs { decls: seq_decls_v(decls), body: Box::new(seq_v(*body)), ann: () },
        ExpV::InternalTailCall(f, args, ann) =>
            seq_args_v(args, ann, SeqExpV::InternalTailCall(f, arg_vars(ann, args.len()), ())),
        ExpV::ExternalCall { fun_name, args, is_tail, ann } =>
            seq_args_v(args, ann, SeqExpV::ExternalCall { fun_name, args: arg_vars(ann, args.len()), is_tail, ann: () }),
        ExpV::Call(..) => SeqExpV::Imm(ImmV::Num(0), ()),
    }
}

/// Wraps `inner` in lets binding the names of `bs`, first binding outermost.
pub open spec fn seq_bindings_v(bs: Seq<(Name, ExpV<u32>)>, inner: SeqExpV<()>) -> SeqExpV<()>
    decreases bs,
{
    if bs.len() == 0 {
        inner
    } else {
        seq_bindings_v(bs.drop_last(), SeqExpV::Let { var: bs.last().0, bound_exp: Box::new(seq_v(bs.last().1)), body: Box::new(inner), ann: () })
    }
}

/// Wraps `inner` in lets binding each argument of a call tagged `t` to its temporary.
pub open spec fn seq_args_v(args: Seq<ExpV<u32>>, t: u32, inner: SeqExpV<()>) -> SeqExpV<()>
    decreases args,
{
    if args.len() == 0 {
        inner
    } else {
        seq_args_v(
            args.drop_last(),
            t,
            SeqExpV::Let { var: arg_name(t, args.len() - 1), bound_exp: Box::new(seq_v(args.last())), body: Box::new(inner), ann: () },
        )
    }
}

pub open spec fn seq_decls_v(ds: Seq<DeclV<ExpV<u32>, u32>>) -> Seq<DeclV<SeqExpV<()>, ()>>
    decreases ds,
{
    if ds.len() == 0 {
        Seq::empty()
    } else {
        seq_decls_v(ds.drop_last()).push(DeclV { name: ds.last().name, parameters: ds.last().parameters, body: seq_v(ds.last().body), ann: () })
    }
}

} // verus!

verus! {

proof fn lemma_seq_ok_list(es: Seq<ExpV<u32>>)
    requires
        seq_ok_list(es),
    ensures
        forall|i: int| 0 <= i < es.len() ==> seq_ok(#[trigger] es[i]),
    decreases es.len(),
{
    if es.len() > 0 {
        lemma_seq_ok_list(es.drop_last());
        assert forall|i: int| 0 <= i < es.len() implies seq_ok(#[trigger] es[i]) by {
            if i < es.len() - 1 {
                assert(es[i] == es.drop_last()[i]);
            }
        }
    }
}

proof fn lemma_seq_ok_bindings(bs: Seq<(Name, ExpV<u32>)>)
    requires
        seq_ok_bindings(bs),
    ensures
        forall|i: int| 0 <= i < bs.len() ==> seq_ok(#[trigger] bs[i].1),
    decreases bs.len(),
{
    if bs.len() > 0 {
        lemma_seq_ok_bindings(bs.drop_last());
        assert forall|i: int| 0 <= i < bs.len() implies seq_ok(#[trigger] bs[i].1) by {
            if i < bs.len() - 1 {
                assert(bs[i] == bs.drop_last()[i]);
            }
        }
    }
}

proof fn lemma_seq_ok_decls(ds: Seq<DeclV<ExpV<u32>, u32>>)
    requires
        seq_ok_decls(ds),
    ensures
        forall|i: int| 0 <= i < ds.len() ==> seq_ok(#[trigger] ds[i].body),
    decreases ds.len(),
{
    if ds.len() > 0 {
        lemma_seq_ok_decls(ds.drop_last());
        assert forall|i: int| 0 <= i < ds.len() implies seq_ok(#[trigger] ds[i].body) by {
            if i < ds.len() - 1 {
                assert(ds[i] == ds.drop_last()[i]);
            }
        }
    }
}

/// `prefix` followed by the decimal form of `n`.
pub fn text_nat(prefix: &str, n: u64) -> (res: String)
    ensures
        res@ == prefix@ + nat_text(n as nat),
{
    let mut s = String::from_str(prefix);
    push_nat(&mut s, n);
    s
}

fn arg_name_exec(t: u32, i: usize) -> (res: String)
    ensures
        res@ == arg_name(t, i as int),
{
    let mut s = text_nat("#arg_", t as u64);
    push_str(&mut s, "_");
    push_nat(&mut s, i as u64);
    assert(s@ =~= arg_name(t, i as int));
    s
}

/// Wraps `inner` in the lets that bind the arguments of a call tagged `t`.
fn seq_args(args: &Vec<Exp<u32>>, t: u32, inner: SeqExp<()>) -> (res: SeqExp<()>)
    requires
        seq_ok_list(exps_view(args@)),
    ensures
        seq_view(res) == seq_args_v(exps_view(args@), t, seq_view(inner)),
    decreases args, 0nat,
{
    let ghost es = exps_view(args@);
    proof { lemma_seq_ok_list(es); }
    let mut seq = inner;
    let mut i: usize = args.len();
    assert(es.take(args.len() as int) =~= es);
    while i > 0
        invariant
            i <= args.len(),
            es == exps_view(args@),
            forall|k: int| 0 <= k < es.len() ==> seq_ok(#[trigger] es[k]),
            seq_args_v(es, t, seq_view(inner)) == seq_args_v(es.take(i as int), t, seq_view(seq)),
        decreases i,
    {
        i -= 1;
        assert(es.take(i + 1).drop_last() =~= es.take(i as int));
        assert(es.take(i + 1).last() == exp_view(args@[i as int]));
        let name = arg_name_exec(t, i);
        let bound = seq_exp(&args[i]);
        seq = SeqExp::Let { var: name, bound_exp: Box::new(bound), body: Box::new(seq), ann: () };
    }
    assert(es.take(0) =~= Seq::<ExpV<u32>>::empty());
    seq
}

fn arg_vars_exec(t: u32, n: usize) -> (res: Vec<ImmExp>)
    ensures
        imms_view(res@) == arg_vars(t, n as nat),
{
    let mut v: Vec<ImmExp> = Vec::new();
    let mut i: usize = 0;
    while i < n
        invariant
            i <= n,
            v@.len() == i,
            imms_view(v@) =~= arg_vars(t, i as nat),
        decreases n - i,
    {
        let name = arg_name_exec(t, i);
        let ghost prev = v@;
        v.push(ImmExp::Var(name));
        assert(imm_view(v@[i as int]) == ImmV::Var(arg_name(t, i as int)));
        assert forall|k: int| 0 <= k < i + 1 implies #[trigger] imms_view(v@)[k] == arg_vars(t, (i + 1) as nat)[k] by {
            if k < i {
                assert(v@[k] == prev[k]);
                assert(imms_view(prev)[k] == arg_vars(t, i as nat)[k]);
            }
        }
        assert(imms_view(v@) =~= arg_vars(t, (i + 1) as nat));
        i += 1;
    }
    v
}

fn seq_bindings(bindings: &Vec<(String, Exp<u32>)>, inner: SeqExp<()>) -> (res: SeqExp<()>)
    requires
        seq_ok_bindings(bindings_view(bindings@)),
    ensures
        seq_view(res) == seq_bindings_v(bindings_view(bindings@), seq_view(inner)),
    decreases bindings, 0nat,
{
    let ghost bs = bindings_view(bindings@);
    proof { lemma_seq_ok_bindings(bs); }
    let mut seq = inner;
    let mut i: usize = bindings.len();
    assert(bs.take(bindings.len() as int) =~= bs);
    while i > 0
        invariant
            i <= bindings.len(),
            bs == bindings_view(bindings@),
            forall|k: int| 0 <= k < bs.len() ==> seq_ok(#[trigger] bs[k].1),
            seq_bindings_v(bs, seq_view(inner)) == seq_bindings_v(bs.take(i as int), seq_view(seq)),
        decreases i,
    {
        i -= 1;
        assert(bs.take(i + 1).drop_last() =~= bs.take(i as int));
        assert(bs.take(i + 1).last() == (bindings@[i as int].0@, exp_view(bindings@[i as int].1)));
        let bound = seq_exp(&bindings[i].1);
        seq = SeqExp::Let { var: bindings[i].0.clone(), bound_exp: Box::new(bound), body: Box::new(seq), ann: () };
    }
    assert(bs.take(0) =~= Seq::<(Name, ExpV<u32>)>::empty());
    seq
}

fn seq_decls(decls: &Vec<FunDecl<Exp<u32>, u32>>) -> (res: Vec<FunDecl<SeqExp<()>, ()>>)
    requires
        seq_ok_decls(decls_view(decls@)),
    ensures
        seq_decls_view(res@) == seq_decls_v(decls_view(decls@)),
    decreases decls, 0nat,
{
    let ghost ds = decls_view(decls@);
    proof { lemma_seq_ok_decls(ds); }
    let mut new_decls: Vec<FunDecl<SeqExp<()>, ()>> = Vec::new();
    let mut i: usize = 0;
    assert(ds.take(0) =~= Seq::<DeclV<ExpV<u32>, u32>>::empty());
    assert(seq_decls_view(new_decls@) =~= Seq::<DeclV<SeqExpV<()>, ()>>::empty());
    while i < decls.len()
        invariant
            i <= decls.len(),
            ds == decls_view(decls@),
            forall|k: int| 0 <= k < ds.len() ==> seq_ok(#[trigger] ds[k].body),
            seq_decls_view(new_decls@) == seq_decls_v(ds.take(i as int)),
        decreases decls.len() - i,
    {
        proof { crate::syntax::lemma_decls_view(decls@); }
        assert(ds.take(i + 1).drop_last() =~= ds.take(i as int));
        assert(ds.take(i + 1).last() == crate::syntax::decl_view(decls@[i as int]));
        let decl = &decls[i];
        assert(ds[i as int] == crate::syntax::decl_view(decls@[i as int]));
        assert(seq_ok(ds[i as int].body));
        assert(seq_ok(exp_view(decl.body)));
        let b = seq_exp(&decl.body);
        let ghost prev = new_decls@;
        new_decls.push(FunDecl {
            name: decl.name.clone(),
            parameters: crate::names::copy_names(&decl.parameters),
            body: b,
            ann: (),
        });
        assert(new_decls@.drop_last() =~= prev);
        i += 1;
    }
    assert(ds.take(decls.len() as int) =~= ds);
    new_decls
}

/// Puts an expression in sequential form: every operand, condition and call
/// argument becomes a variable bound by a let just before its use.
pub fn seq_exp(e: &Exp<u32>) -> (res: SeqExp<()>)
    requires
        seq_ok(exp_view(*e)),
    ensures
        seq_view(res) == seq_v(exp_view(*e)),
    decreases e, 1nat,
{
    proof { reveal_with_fuel(seq_view, 3); }
    match e {
        Exp::Var(name, _) => SeqExp::Imm(ImmExp::Var(name.clone()), ()),
        Exp::Num(num, _) => SeqExp::Imm(ImmExp::Num(*num), ()),
        Exp::Bool(b, _) => SeqExp::Imm(ImmExp::Bool(*b), ()),
        Exp::Float(s, _) => SeqExp::Imm(ImmExp::Float(*s), ()),
        Exp::Prim(op, exps, tag) => {
            proof {
                crate::syntax::lemma_boxed_exps_view(exps@);
                reveal_with_fuel(seq_view, 3);
            }
            match op {
                Prim::Add | Prim::Sub | Prim::Mul | Prim::And | Prim::Or | Prim::Lt | Prim::Gt | Prim::Le
                | Prim::Ge | Prim::Eq | Prim::Div | Prim::FloorDiv | Prim::Neq => {
                    let s1 = seq_exp(&exps[0]);
                    let s2 = seq_exp(&exps[1]);
                    let n1 = text_nat("#prim2_1_", *tag as u64);
                    let n2 = text_nat("#prim2_2_", *tag as u64);
                    let mut args: Vec<ImmExp> = Vec::new();
                    args.push(ImmExp::Var(n1.clone()));
                    args.push(ImmExp::Var(n2.clone()));
                    let res = SeqExp::Let {
                        var: n1,
                        bound_exp: Box::new(s1),
                        body: Box::new(SeqExp::Let {
                            var: n2,
                            bound_exp: Box::new(s2),
                            body: Box::new(SeqExp::Prim(*op, args, ())),
                            ann: (),
                        }),
                        ann: (),
                    };
                    assert(imms_view(args@) =~= seq![ImmV::Var(prim2_name(1, *tag)), ImmV::Var(prim2_name(2, *tag))]);
                    res
                },
                Prim::Add1 | Prim::Sub1 | Prim::IsBool | Prim::IsFloat | Prim::IsNum | Prim::Sqrt | Prim::Cos
                | Prim::Not | Prim::Print => {
                    let n1 = text_nat("#prim1_1_", *tag as u64);
                    let s1 = seq_exp(&exps[0]);
                    let mut args: Vec<ImmExp> = Vec::new();
                    args.push(ImmExp::Var(n1.clone()));
                    assert(imms_view(args@) =~= seq![ImmV::Var(prim1_name(*tag))]);
                    let r = SeqExp::Let { var: n1, bound_exp: Box::new(s1), body: Box::new(SeqExp::Prim(*op, args, ())), ann: () };
                    r
                },
            }
        },
        Exp::Let { bindings, body, .. } => {
            let inner = seq_exp(body);
            seq_bindings(bindings, inner)
        },
        Exp::If { cond, thn, els, ann } => {
            let name = text_nat("if_", *ann as u64);
            let bound_exp = Box::new(seq_exp(cond));
            let body = Box::new(SeqExp::If {
                cond: ImmExp::Var(name.clone()),
                thn: Box::new(seq_exp(thn)),
                els: Box::new(seq_exp(els)),
                ann: (),
            });
            SeqExp::Let { var: name, bound_exp, body, ann: () }
        },
        Exp::FunDefs { decls, body, .. } => {
            let new_decls = seq_decls(decls);
            SeqExp::FunDefs { decls: new_decls, body: Box::new(seq_exp(body)), ann: () }
        },
        Exp::InternalTailCall(fun_name, args, ann) => {
            let inner = SeqExp::InternalTailCall(fun_name.clone(), arg_vars_exec(*ann, args.len()), ());
            seq_args(args, *ann, inner)
        },
        Exp::ExternalCall { fun_name, args, is_tail, ann } => {
            let inner = SeqExp::ExternalCall {
                fun_name: fun_name.clone(),
                args: arg_vars_exec(*ann, args.len()),
                is_tail: *is_tail,
                ann: (),
            };
            seq_args(args, *ann, inner)
        },
        Exp::Call(..) => vstd::pervasive::unreached(),
    }
}


/// An expression tagged from 0 without renaming, then put in sequential form.
pub open spec fn seq_body(e: ExpV<()>) -> SeqExpV<()> {
    seq_v(tag_v(e, 0, Map::empty(), false).val)
}

/// `e` can be tagged from 0 and put in sequential form.
pub open spec fn seq_body_ok(e: ExpV<()>) -> bool {
    tag_v(e, 0, Map::empty(), false).ok && seq_ok(tag_v(e, 0, Map::empty(), false).val)
}

/// A global function in sequential form.
pub open spec fn seq_global(d: DeclV<ExpV<()>, ()>) -> DeclV<SeqExpV<()>, ()> {
    DeclV { name: d.name, parameters: d.parameters, body: seq_body(d.body), ann: () }
}

pub open spec fn seq_global_ok(d: DeclV<ExpV<()>, ()>) -> bool {
    seq_body_ok(d.body)
}

/// Global functions in sequential form, each on its own.
pub open spec fn seq_globals(ds: Seq<DeclV<ExpV<()>, ()>>) -> Seq<DeclV<SeqExpV<()>, ()>> {
    ds.map_values(|d: DeclV<ExpV<()>, ()>| seq_global(d))
}

/// Puts each global function in sequential form, in order. Each declaration
/// is handled on its own (its body tagged from 0), so the result on a list
/// split anywhere is the result on the first part followed by the result on
/// the rest.
pub fn seq_decl(decls: &[FunDecl<Exp<()>, ()>]) -> (res: Vec<FunDecl<SeqExp<()>, ()>>)
    requires
        forall|i: int| 0 <= i < decls@.len() ==> seq_global_ok(#[trigger] decls_view(decls@)[i]),
    ensures
        seq_decls_view(res@) == seq_globals(decls_view(decls@)),
        res@.len() == decls@.len(),
        forall|k: int| 0 <= k <= decls@.len() ==> seq_decls_view(res@)
            == #[trigger] seq_globals(decls_view(decls@).take(k)) + seq_globals(decls_view(decls@).skip(k)),
        forall|i: int| 0 <= i < decls@.len() ==> #[trigger] seq_decls_view(res@)[i]
            == seq_globals(decls_view(decls@).subrange(i, i + 1))[0],
        forall|i: int| 0 <= i < decls@.len() ==> {
            &&& (#[trigger] res@[i]).name@ == decls@[i].name@
            &&& names_view(res@[i].parameters@) == names_view(decls@[i].parameters@)
            &&& seq_view(res@[i].body) == seq_body(exp_view(decls@[i].body))
        },
{
    proof {
        crate::syntax::lemma_decls_view(decls@);
    }
    let ghost ds = decls_view(decls@);
    let ghost target = ds.map_values(|d: DeclV<ExpV<()>, ()>| seq_global(d));
    let mut new_decls: Vec<FunDecl<SeqExp<()>, ()>> = Vec::new();
    let mut i: usize = 0;
    while i < decls.len()
        invariant
            i <= decls@.len(),
            ds == decls_view(decls@),
            target == ds.map_values(|d: DeclV<ExpV<()>, ()>| seq_global(d)),
            forall|j: int| 0 <= j < decls@.len() ==> seq_global_ok(#[trigger] ds[j]),
            seq_decls_view(new_decls@) =~= target.take(i as int),
        decreases decls@.len() - i,
    {
        let decl = &decls[i];
        assert(ds[i as int] == crate::syntax::decl_view(*decl));
        assert(seq_global_ok(ds[i as int]));
        let mut counter: u32 = 0;
        let mut fun_map: NameMap<String> = NameMap::new();
        let tagged = tag_exp(&decl.body, &mut counter, &mut fun_map, false);
        let body = seq_exp(&tagged);
        let ghost prev = new_decls@;
        proof { crate::syntax::lemma_seq_decls_view(prev); }
        assert(prev.len() == i);
        new_decls.push(FunDecl { name: decl.name.clone(), parameters: crate::names::copy_names(&decl.parameters), body, ann: () });
        assert(new_decls@.drop_last() =~= prev);
        assert(crate::syntax::seq_decl_view(new_decls@[i as int]) == target[i as int]);
        assert(target.take(i + 1) =~= target.take(i as int).push(target[i as int]));
        i += 1;
    }
    assert(target.take(decls@.len() as int) =~= target);
    proof {
        crate::syntax::lemma_seq_decls_view(new_decls@);
        assert forall|i: int| 0 <= i < decls@.len() implies {
            &&& (#[trigger] new_decls@[i]).name@ == decls@[i].name@
            &&& names_view(new_decls@[i].parameters@) == names_view(decls@[i].parameters@)
            &&& seq_view(new_decls@[i].body) == seq_body(exp_view(decls@[i].body))
        } by {
            assert(seq_decls_view(new_decls@)[i] == target[i]);
            assert(ds[i] == crate::syntax::decl_view(decls@[i]));
        }
        assert forall|k: int| 0 <= k <= decls@.len() implies seq_decls_view(new_decls@)
            == #[trigger] seq_globals(ds.take(k)) + seq_globals(ds.skip(k)) by {
            lemma_seq_globals_concat(ds.take(k), ds.skip(k));
            assert(ds.take(k) + ds.skip(k) =~= ds);
        }
        assert forall|i: int| 0 <= i < decls@.len() implies #[trigger] seq_decls_view(new_decls@)[i]
            == seq_globals(ds.subrange(i, i + 1))[0] by {
            assert(ds.subrange(i, i + 1)[0] == ds[i]);
        }
    }
    new_decls
}

/// Putting global functions in sequential form works one definition at a
/// time: on a concatenation of lists it gives the concatenation of the results.
pub proof fn lemma_seq_globals_concat(a: Seq<DeclV<ExpV<()>, ()>>, b: Seq<DeclV<ExpV<()>, ()>>)
    ensures
        seq_globals(a + b) == seq_globals(a) + seq_globals(b),
{
    assert(seq_globals(a + b) =~= seq_globals(a) + seq_globals(b));
}

} // verus!

verus! {

/// One `let` per binding, the first binding outermost, around `inner`.
pub open spec fn nest_lets(bs: Seq<(Name, ExpV<u32>)>, inner: SeqExpV<()>) -> SeqExpV<()>
    decreases bs.len(),
{
    if bs.len() == 0 {
        inner
    } else {
        SeqExpV::Let {
            var: bs[0].0,
            bound_exp: Box::new(seq_v(bs[0].1)),
            body: Box::new(nest_lets(bs.drop_first(), inner)),
            ann: (),
        }
    }
}

proof fn lemma_nest_lets_push(bs: Seq<(Name, ExpV<u32>)>, x: (Name, ExpV<u32>), inner: SeqExpV<()>)
    ensures
        nest_lets(bs.push(x), inner)
            == nest_lets(bs, SeqExpV::Let { var: x.0, bound_exp: Box::new(seq_v(x.1)), body: Box::new(inner), ann: () }),
    decreases bs.len(),
{
    if bs.len() > 0 {
        assert(bs.push(x).drop_first() =~= bs.drop_first().push(x));
        assert(bs.push(x)[0] == bs[0]);
        lemma_nest_lets_push(bs.drop_first(), x, inner);
    } else {
        assert(bs.push(x).drop_first() =~= Seq::<(Name, ExpV<u32>)>::empty());
        assert(bs.push(x)[0] == x);
        assert(nest_lets(bs.push(x).drop_first(), inner) == inner);
        assert(nest_lets(bs, SeqExpV::Let { var: x.0, bound_exp: Box::new(seq_v(x.1)), body: Box::new(inner), ann: () })
            == SeqExpV::Let { var: x.0, bound_exp: Box::new(seq_v(x.1)), body: Box::new(inner), ann: () });
    }
}

proof fn lemma_bindings_nest(bs: Seq<(Name, ExpV<u32>)>, inner: SeqExpV<()>)
    ensures
        seq_bindings_v(bs, inner) == nest_lets(bs, inner),
    decreases bs.len(),
{
    if bs.len() > 0 {
        let x = bs.last();
        let inner2 = SeqExpV::Let { var: x.0, bound_exp: Box::new(seq_v(x.1)), body: Box::new(inner), ann: () };
        lemma_bindings_nest(bs.drop_last(), inner2);
        lemma_nest_lets_push(bs.drop_last(), x, inner);
        assert(bs.drop_last().push(x) =~= bs);
    }
}

/// The sequential form of a `let` with several bindings is one nested
/// `let` per binding, in source order, around the body's sequential form.
pub proof fn lemma_seq_let_nests(bs: Seq<(Name, ExpV<u32>)>, body: ExpV<u32>, ann: u32)
    ensures
        seq_v(ExpV::Let { bindings: bs, body: Box::new(body), ann }) == nest_lets(bs, seq_v(body)),
{
    lemma_bindings_nest(bs, seq_v(body));
}

} // verus!

verus! {

/// The expression a chain of lets ends in: `s` with its leading lets removed.
pub open spec fn let_chain_end(s: SeqExpV<()>) -> SeqExpV<()>
    decreases s,
{
    match s {
        SeqExpV::Let { body, .. } => let_chain_end(*body),
        _ => s,
    }
}

/// What the innermost-scoping let of the leading chain of `s` binds `x` to:
/// the first let of the chain that binds `x`.
pub open spec fn chain_binding(s: SeqExpV<()>, x: Name) -> Option<SeqExpV<()>>
    decreases s,
{
    match s {
        SeqExpV::Let { var, bound_exp, body, .. } => if var == x { Some(*bound_exp) } else { chain_binding(*body, x) },
        _ => None,
    }
}

proof fn lemma_arg_names_differ(t: u32, i: int, j: int)
    requires
        0 <= i,
        0 <= j,
        i != j,
    ensures
        arg_name(t, i) != arg_name(t, j),
{
    reveal_strlit("#arg_");
    reveal_strlit("_");
    let p = "#arg_"@ + nat_text(t as nat) + "_"@;
    assert(p.last() == '_');
    crate::text::lemma_trailing_nat_text(p, i as nat);
    crate::text::lemma_trailing_nat_text(p, j as nat);
    assert(arg_name(t, i) =~= p + nat_text(i as nat));
    assert(arg_name(t, j) =~= p + nat_text(j as nat));
}

proof fn lemma_seq_args_chain(args: Seq<ExpV<u32>>, t: u32, inner: SeqExpV<()>)
    ensures
        let_chain_end(seq_args_v(args, t, inner)) == let_chain_end(inner),
        forall|x: Name| (forall|j: int| 0 <= j < args.len() ==> arg_name(t, j) != x)
            ==> #[trigger] chain_binding(seq_args_v(args, t, inner), x) == chain_binding(inner, x),
        forall|k: int| 0 <= k < args.len()
            ==> #[trigger] chain_binding(seq_args_v(args, t, inner), arg_name(t, k)) == Some(seq_v(args[k])),
    decreases args.len(),
{
    if args.len() > 0 {
        let n = args.len() - 1;
        let pre = args.drop_last();
        let inner2 = SeqExpV::Let { var: arg_name(t, n), bound_exp: Box::new(seq_v(args.last())), body: Box::new(inner), ann: () };
        lemma_seq_args_chain(pre, t, inner2);
        assert forall|x: Name| (forall|j: int| 0 <= j < args.len() ==> arg_name(t, j) != x)
            implies #[trigger] chain_binding(seq_args_v(args, t, inner), x) == chain_binding(inner, x) by {
            assert(arg_name(t, n) != x);
            assert forall|j: int| 0 <= j < pre.len() implies arg_name(t, j) != x by {}
        }
        assert forall|k: int| 0 <= k < args.len()
            implies #[trigger] chain_binding(seq_args_v(args, t, inner), arg_name(t, k)) == Some(seq_v(args[k])) by {
            if k < n {
                assert(pre[k] == args[k]);
            } else {
                assert forall|j: int| 0 <= j < pre.len() implies arg_name(t, j) != arg_name(t, k) by {
                    lemma_arg_names_differ(t, j, k);
                }
            }
        }
    }
}

/// In the sequential form of a call, the call receives one variable per
/// source argument, in order, and the leading lets bind the `k`-th of those
/// variables to the sequential form of the `k`-th argument.
pub proof fn lemma_call_arguments_in_order(e: ExpV<u32>)
    requires
        e is InternalTailCall || e is ExternalCall,
    ensures
        ({
            let s = seq_v(e);
            let args = match e {
                ExpV::InternalTailCall(_, args, _) => args,
                ExpV::ExternalCall { args, .. } => args,
                _ => Seq::empty(),
            };
            let cargs = match let_chain_end(s) {
                SeqExpV::InternalTailCall(_, cargs, _) => cargs,
                SeqExpV::ExternalCall { args: cargs, .. } => cargs,
                _ => Seq::empty(),
            };
            &&& match (e, let_chain_end(s)) {
                (ExpV::InternalTailCall(f, _, _), SeqExpV::InternalTailCall(g, _, _)) => f == g,
                (ExpV::ExternalCall { fun_name: f, is_tail: a, .. }, SeqExpV::ExternalCall { fun_name: g, is_tail: b, .. }) => f == g && a == b,
                _ => false,
            }
            &&& cargs.len() == args.len()
            &&& forall|k: int| 0 <= k < args.len() ==> {
                &&& #[trigger] cargs[k] is Var
                &&& chain_binding(s, cargs[k]->Var_0) == Some(seq_v(args[k]))
            }
        }),
{
    match e {
        ExpV::InternalTailCall(f, args, t) => {
            let inner = SeqExpV::InternalTailCall(f, arg_vars(t, args.len()), ());
            lemma_seq_args_chain(args, t, inner);
            assert forall|k: int| 0 <= k < args.len() implies #[trigger] arg_vars(t, args.len())[k] == ImmV::Var(arg_name(t, k)) by {}
        },
        ExpV::ExternalCall { fun_name, args, is_tail, ann } => {
            let inner = SeqExpV::ExternalCall { fun_name, args: arg_vars(ann, args.len()), is_tail, ann: () };
            lemma_seq_args_chain(args, ann, inner);
            assert forall|k: int| 0 <= k < args.len() implies #[trigger] arg_vars(ann, args.len())[k] == ImmV::Var(arg_name(ann, k)) by {}
        },
        _ => {},
    }
}

} // verus!

verus! {

proof fn lemma_prim2_names_differ(t: u32)
    ensures
        prim2_name(1, t) != prim2_name(2, t),
{
    reveal_strlit("#prim2_1_");
    reveal_strlit("#prim2_2_");
    assert(prim2_name(1, t)[7] == '1');
    assert(prim2_name(2, t)[7] == '2');
}

/// In the sequential form of an operator with its operands, the operator
/// is applied to one variable per operand, in order, and the leading lets
/// bind the `k`-th of those variables to the sequential form of the `k`-th
/// operand.
pub proof fn lemma_prim_operands_in_order(op: Prim, es: Seq<ExpV<u32>>, t: u32)
    requires
        if is_binary(op) { es.len() >= 2 } else { es.len() >= 1 },
    ensures
        ({
            let s = seq_v(ExpV::Prim(op, es, t));
            let n: int = if is_binary(op) { 2 } else { 1 };
            &&& let_chain_end(s) is Prim
            &&& let_chain_end(s)->Prim_0 == op
            &&& let_chain_end(s)->Prim_1.len() == n
            &&& forall|k: int| 0 <= k < n ==> {
                &&& #[trigger] let_chain_end(s)->Prim_1[k] is Var
                &&& chain_binding(s, let_chain_end(s)->Prim_1[k]->Var_0) == Some(seq_v(es[k]))
            }
        }),
{
    reveal_with_fuel(let_chain_end, 3);
    reveal_with_fuel(chain_binding, 3);
    if is_binary(op) {
        lemma_prim2_names_differ(t);
        let s = seq_v(ExpV::Prim(op, es, t));
        assert(chain_binding(s, prim2_name(2, t)) == Some(seq_v(es[1])));
    }
}

/// In the sequential form of a conditional, the branch is taken on a
/// variable that the leading lets bind to the sequential form of the
/// condition, and the branches are the sequential forms of the source
/// branches, in order.
pub proof fn lemma_if_condition_bound(cond: ExpV<u32>, thn: ExpV<u32>, els: ExpV<u32>, t: u32)
    ensures
        ({
            let s = seq_v(ExpV::If { cond: Box::new(cond), thn: Box::new(thn), els: Box::new(els), ann: t });
            &&& let_chain_end(s) matches SeqExpV::If { cond: c, thn: a, els: b, .. }
            &&& c is Var
            &&& chain_binding(s, c->Var_0) == Some(seq_v(cond))
            &&& *a == seq_v(thn)
            &&& *b == seq_v(els)
        }),
{
    reveal_with_fuel(let_chain_end, 2);
    reveal_with_fuel(chain_binding, 2);
}

} // verus!
