use vstd::prelude::*;

use crate::names::{NameMap, NameSet};
use crate::syntax::{
    DeclV, Exp, ExpV, FunDecl, Name, bindings_view, boxed_exps_view, decl_view, decls_view, exp_view, exps_view,
    names_view,
};

verus! {

broadcast use crate::syntax::group_views;

pub type DeclE = DeclV<ExpV<()>, ()>;

/// What lambda lifting threads through a program: the variables in scope,
/// the functions lifted so far, each function's processed declaration, the
/// variables in scope where each function is defined, and whether the pass
/// has run without panicking.
pub struct LiftSt {
    pub env: Seq<Name>,
    pub lifted: Seq<DeclE>,
    pub decls: Map<Name, DeclE>,
    pub envs: Map<Name, Seq<Name>>,
    pub ok: bool,
}

pub open spec fn with_env(st: LiftSt, env: Seq<Name>) -> LiftSt {
    LiftSt { env, ..st }
}

pub open spec fn failed(st: LiftSt) -> LiftSt {
    LiftSt { ok: false, ..st }
}

/// Name of the copy of function `f` made inside a lifted function.
pub open spec fn copy_name(f: Name) -> Name {
    f + "_copy"@
}

/// Lambda lifting of `e` (in tail position when `t`): every group of
/// definitions loses the functions of `sl`, which go to `lifted` with the
/// variables in scope as extra leading parameters; calls become internal
/// tail calls (tail position, function not lifted) or external calls.
pub open spec fn lift_v<A>(e: ExpV<A>, st: LiftSt, sl: Set<Name>, t: bool) -> (ExpV<()>, LiftSt)
    decreases e,
{
    if !st.ok {
        (ExpV::Num(0, ()), st)
    } else {
    match e {
        ExpV::Num(n, _) => (ExpV::Num(n, ()), st),
        ExpV::Bool(b, _) => (ExpV::Bool(b, ()), st),
        ExpV::Float(f, _) => (ExpV::Float(f, ()), st),
        ExpV::Var(x, _) => (ExpV::Var(x, ()), st),
        ExpV::Prim(p, es, _) => {
            let (xs, s1) = lift_list_v(es, st, sl);
            (ExpV::Prim(p, xs, ()), s1)
        },
        ExpV::Let { bindings, body, .. } => {
            let (bs, s1) = lift_bindings_v(bindings, st, sl);
            let (b, s2) = lift_v(*body, s1, sl, t);
            (ExpV::Let { bindings: bs, body: Box::new(b), ann: () }, with_env(s2, s1.env))
        },
        ExpV::If { cond, thn, els, .. } => {
            let (c, s1) = lift_v(*cond, st, sl, false);
            let (a, s2) = lift_v(*thn, with_env(s1, st.env), sl, t);
            let (b, s3) = lift_v(*els, with_env(s2, st.env), sl, t);
            (ExpV::If { cond: Box::new(c), thn: Box::new(a), els: Box::new(b), ann: () }, with_env(s3, st.env))
        },
        ExpV::FunDefs { decls, body, .. } => {
            let (bodies, nenvs, s1) = lift_decls1_v(decls, st, sl);
            let (kept, s2) = lift_decls2_v(decls, bodies, nenvs, with_env(s1, st.env), sl);
            let (b, s3) = lift_v(*body, with_env(s2, st.env), sl, true);
            (
                if kept.len() == 0 { b } else { ExpV::FunDefs { decls: kept, body: Box::new(b), ann: () } },
                with_env(s3, st.env),
            )
        },
        ExpV::Call(f, args, _) => {
            let (xs, s1) = lift_args_v(args, st, sl);
            (
                if t && !sl.contains(f) {
                    ExpV::InternalTailCall(f, xs, ())
                } else {
                    ExpV::ExternalCall { fun_name: f, args: xs, is_tail: t, ann: () }
                },
                s1,
            )
        },
        ExpV::InternalTailCall(..) => (ExpV::Num(0, ()), failed(st)),
        ExpV::ExternalCall { .. } => (ExpV::Num(0, ()), failed(st)),
    }
    }
}

/// Lifts operands, each with its own copy of the environment.
pub open spec fn lift_list_v<A>(es: Seq<ExpV<A>>, st: LiftSt, sl: Set<Name>) -> (Seq<ExpV<()>>, LiftSt)
    decreases es,
{
    if !st.ok {
        (Seq::empty(), st)
    } else if es.len() == 0 {
        (Seq::empty(), st)
    } else {
        let (xs, s1) = lift_list_v(es.drop_last(), st, sl);
        let (x, s2) = lift_v(es.last(), s1, sl, false);
        (xs.push(x), with_env(s2, s1.env))
    }
}

/// Lifts call arguments, which share (and may extend) the caller's environment.
pub open spec fn lift_args_v<A>(es: Seq<ExpV<A>>, st: LiftSt, sl: Set<Name>) -> (Seq<ExpV<()>>, LiftSt)
    decreases es,
{
    if !st.ok {
        (Seq::empty(), st)
    } else if es.len() == 0 {
        (Seq::empty(), st)
    } else {
        let (xs, s1) = lift_args_v(es.drop_last(), st, sl);
        let (x, s2) = lift_v(es.last(), s1, sl, false);
        (xs.push(x), s2)
    }
}

/// Lifts let bindings; each bound name then joins the environment.
pub open spec fn lift_bindings_v<A>(bs: Seq<(Name, ExpV<A>)>, st: LiftSt, sl: Set<Name>) -> (Seq<(Name, ExpV<()>)>, LiftSt)
    decreases bs,
{
    if !st.ok {
        (Seq::empty(), st)
    } else if bs.len() == 0 {
        (Seq::empty(), st)
    } else {
        let (ys, s1) = lift_bindings_v(bs.drop_last(), st, sl);
        let (x, s2) = lift_v(bs.last().1, s1, sl, false);
        (ys.push((bs.last().0, x)), with_env(s2, s1.env.push(bs.last().0)))
    }
}

/// First pass over a group of definitions: records each function's
/// environment, lifts its body with the environment and its parameters in
/// scope, and records the processed declaration. Returns the bodies and the
/// extended environments.
pub open spec fn lift_decls1_v<A>(ds: Seq<DeclV<ExpV<A>, A>>, st: LiftSt, sl: Set<Name>) -> (Seq<ExpV<()>>, Seq<Seq<Name>>, LiftSt)
    decreases ds,
{
    if !st.ok {
        (Seq::empty(), Seq::empty(), st)
    } else if ds.len() == 0 {
        (Seq::empty(), Seq::empty(), st)
    } else {
        let (bodies, nenvs, s1) = lift_decls1_v(ds.drop_last(), st, sl);
        let d = ds.last();
        let s1a = LiftSt { envs: s1.envs.insert(d.name, s1.env), ok: s1.ok && s1.env.no_duplicates(), ..s1 };
        let ne = s1.env + d.parameters;
        let (b, s2) = lift_v(d.body, with_env(s1a, ne), sl, true);
        let s3 = LiftSt {
            env: s1.env,
            decls: s2.decls.insert(d.name, DeclV { name: d.name, parameters: d.parameters, body: b, ann: () }),
            ..s2
        };
        (bodies.push(b), nenvs.push(ne), s3)
    }
}

/// Second pass: functions of `sl` are lifted (their bodies with copies of the
/// functions they tail-call), the others are kept in the group.
pub open spec fn lift_decls2_v<A>(
    ds: Seq<DeclV<ExpV<A>, A>>,
    bodies: Seq<ExpV<()>>,
    nenvs: Seq<Seq<Name>>,
    st: LiftSt,
    sl: Set<Name>,
) -> (Seq<DeclE>, LiftSt)
    decreases ds.len(),
{
    if !st.ok {
        (Seq::empty(), st)
    } else if ds.len() == 0 {
        (Seq::empty(), st)
    } else {
        let (kept, s1) = lift_decls2_v(ds.drop_last(), bodies, nenvs, st, sl);
        let i = ds.len() - 1;
        let d = ds.last();
        if sl.contains(d.name) {
            let (nb, c2) = copy_v(bodies[i], s1.decls, CopySt { envs: s1.envs, ok: s1.ok });
            (kept, LiftSt {
                lifted: s1.lifted.push(DeclV { name: d.name, parameters: nenvs[i], body: nb, ann: () }),
                envs: c2.envs,
                ok: c2.ok,
                ..s1
            })
        } else {
            (kept.push(DeclV { name: d.name, parameters: d.parameters, body: bodies[i], ann: () }), s1)
        }
    }
}

/// What copying threads: the environment recorded for each function, and
/// whether copying has run without panicking.
pub struct CopySt {
    pub envs: Map<Name, Seq<Name>>,
    pub ok: bool,
}

/// Inside the body of a lifted function, each internal tail call in tail
/// position is redirected to a local copy `f_copy` of its target (taken
/// from the processed declarations `decls`), defined at the first such call.
pub open spec fn copy_v(e: ExpV<()>, decls: Map<Name, DeclE>, cs: CopySt) -> (ExpV<()>, CopySt)
    decreases e,
{
    if !cs.ok {
        (e, cs)
    } else {
    match e {
        ExpV::Let { bindings, body, .. } => {
            let (b, s1) = copy_v(*body, decls, cs);
            (ExpV::Let { bindings, body: Box::new(b), ann: () }, s1)
        },
        ExpV::If { cond, thn, els, .. } => {
            let (a, s1) = copy_v(*thn, decls, cs);
            let (b, s2) = copy_v(*els, decls, s1);
            (ExpV::If { cond, thn: Box::new(a), els: Box::new(b), ann: () }, s2)
        },
        ExpV::FunDefs { decls: ds, body, .. } => {
            let (ds2, s1) = copy_decls_v(ds, decls, cs);
            let (b, s2) = copy_v(*body, decls, s1);
            (ExpV::FunDefs { decls: ds2, body: Box::new(b), ann: () }, s2)
        },
        ExpV::InternalTailCall(f, args, _) =>
            if decls.contains_key(f) {
                let nm = copy_name(decls[f].name);
                if !cs.envs.contains_key(nm) {
                    (
                        ExpV::FunDefs {
                            decls: seq![DeclV { name: nm, parameters: decls[f].parameters, body: decls[f].body, ann: () }],
                            body: Box::new(ExpV::InternalTailCall(nm, args, ())),
                            ann: (),
                        },
                        CopySt { envs: cs.envs.insert(nm, cs.envs[f]), ok: cs.envs.contains_key(f) },
                    )
                } else {
                    (ExpV::InternalTailCall(nm, args, ()), cs)
                }
            } else {
                (e, CopySt { ok: false, ..cs })
            },
        ExpV::Call(..) => (e, CopySt { ok: false, ..cs }),
        _ => (e, cs),
    }
    }
}

pub open spec fn copy_decls_v(ds: Seq<DeclE>, decls: Map<Name, DeclE>, cs: CopySt) -> (Seq<DeclE>, CopySt)
    decreases ds,
{
    if !cs.ok {
        (Seq::empty(), cs)
    } else if ds.len() == 0 {
        (Seq::empty(), cs)
    } else {
        let (xs, s1) = copy_decls_v(ds.drop_last(), decls, cs);
        let (b, s2) = copy_v(ds.last().body, decls, s1);
        (xs.push(DeclV { name: ds.last().name, parameters: ds.last().parameters, body: b, ann: () }), s2)
    }
}

} // verus!

verus! {

/// The state of the pass as the code holds it.
pub open spec fn lift_state(
    env: Seq<String>,
    lifted: Seq<FunDecl<Exp<()>, ()>>,
    decls: Map<Name, DeclE>,
    envs: Map<Name, Seq<Name>>,
) -> LiftSt {
    LiftSt { env: names_view(env), lifted: decls_view(lifted), decls, envs, ok: true }
}

pub proof fn lemma_names_deep_view(v: Vec<String>)
    ensures
        v.deep_view() == names_view(v@),
{
    assert(v.deep_view() =~= names_view(v@));
}

proof fn lemma_copy_mono(e: ExpV<()>, decls: Map<Name, DeclE>, cs: CopySt)
    ensures
        copy_v(e, decls, cs).1.ok ==> cs.ok,
{
}

proof fn lemma_copy_decls_ok(ds: Seq<DeclE>, i: int, decls: Map<Name, DeclE>, cs: CopySt)
    requires
        0 <= i <= ds.len(),
        copy_decls_v(ds, decls, cs).1.ok,
    ensures
        copy_decls_v(ds.take(i), decls, cs).1.ok,
    decreases ds.len() - i,
{
    if i < ds.len() {
        assert(ds.drop_last().take(i) =~= ds.take(i));
        let s1 = copy_decls_v(ds.drop_last(), decls, cs).1;
        lemma_copy_mono(ds.last().body, decls, s1);
        lemma_copy_decls_ok(ds.drop_last(), i, decls, cs);
    } else {
        assert(ds.take(i) =~= ds);
    }
}

/// Redirects the internal tail calls in tail position of a lifted body to
/// copies of their targets (see `copy_v`).
fn copy_def(
    e: &Exp<()>,
    fun_to_decl: &NameMap<FunDecl<Exp<()>, ()>>,
    fun_to_env: &mut NameMap<Vec<String>>,
) -> (res: Exp<()>)
    requires
        copy_v(exp_view(*e), fun_to_decl@, CopySt { envs: old(fun_to_env)@, ok: true }).1.ok,
    ensures
        copy_v(exp_view(*e), fun_to_decl@, CopySt { envs: old(fun_to_env)@, ok: true })
            == (exp_view(res), CopySt { envs: final(fun_to_env)@, ok: true }),
    decreases e, 1nat,
{
    match e {
        Exp::Let { bindings, body, .. } => {
            let b = copy_def(body, fun_to_decl, fun_to_env);
            Exp::Let { bindings: crate::syntax::copy_bindings(bindings), body: Box::new(b), ann: () }
        },
        Exp::If { cond, thn, els, .. } => {
            proof {
                let s1 = copy_v(exp_view(**thn), fun_to_decl@, CopySt { envs: old(fun_to_env)@, ok: true }).1;
                lemma_copy_mono(exp_view(**els), fun_to_decl@, s1);
            }
            let a = copy_def(thn, fun_to_decl, fun_to_env);
            let b = copy_def(els, fun_to_decl, fun_to_env);
            Exp::If { cond: Box::new(crate::syntax::copy_exp(cond)), thn: Box::new(a), els: Box::new(b), ann: () }
        },
        Exp::FunDefs { decls, body, .. } => {
            proof {
                let s1 = copy_decls_v(decls_view(decls@), fun_to_decl@, CopySt { envs: old(fun_to_env)@, ok: true }).1;
                lemma_copy_mono(exp_view(**body), fun_to_decl@, s1);
            }
            let new_decls = copy_decls(decls, fun_to_decl, fun_to_env);
            let b = copy_def(body, fun_to_decl, fun_to_env);
            Exp::FunDefs { decls: new_decls, body: Box::new(b), ann: () }
        },
        Exp::InternalTailCall(fun_name, args, _) => {
            match fun_to_decl.get(fun_name) {
                Some(value) => {
                    let mut new_name = value.name.clone();
                    new_name.append("_copy");
                    if !fun_to_env.contains_key(&new_name) {
                        let new_decl = FunDecl {
                            name: new_name.clone(),
                            parameters: crate::names::copy_names(&value.parameters),
                            body: crate::syntax::copy_exp(&value.body),
                            ann: (),
                        };
                        match fun_to_env.get(fun_name) {
                            Some(found) => {
                                let captured = crate::names::copy_names(found);
                                proof {
                                    lemma_names_deep_view(captured);
                                    lemma_names_deep_view(*found);
                                }
                                fun_to_env.insert(new_name.clone(), captured);
                            },
                            None => vstd::pervasive::unreached(),
                        }
                        let mut ds: Vec<FunDecl<Exp<()>, ()>> = Vec::new();
                        ds.push(new_decl);
                        let r = Exp::FunDefs {
                            decls: ds,
                            body: Box::new(Exp::InternalTailCall(new_name, crate::syntax::copy_exps(args), ())),
                            ann: (),
                        };
                        proof {
                            reveal_with_fuel(exp_view, 2);
                            assert(decls_view(ds@) =~= seq![decl_view(ds@[0])]);
                        }
                        r
                    } else {
                        Exp::InternalTailCall(new_name, crate::syntax::copy_exps(args), ())
                    }
                },
                None => vstd::pervasive::unreached(),
            }
        },
        _ => crate::syntax::copy_exp(e),
    }
}

fn copy_decls(
    decls: &Vec<FunDecl<Exp<()>, ()>>,
    fun_to_decl: &NameMap<FunDecl<Exp<()>, ()>>,
    fun_to_env: &mut NameMap<Vec<String>>,
) -> (res: Vec<FunDecl<Exp<()>, ()>>)
    requires
        copy_decls_v(decls_view(decls@), fun_to_decl@, CopySt { envs: old(fun_to_env)@, ok: true }).1.ok,
    ensures
        copy_decls_v(decls_view(decls@), fun_to_decl@, CopySt { envs: old(fun_to_env)@, ok: true })
            == (decls_view(res@), CopySt { envs: final(fun_to_env)@, ok: true }),
    decreases decls, 0nat,
{
    let ghost ds = decls_view(decls@);
    let ghost cs0 = CopySt { envs: fun_to_env@, ok: true };
    let mut out: Vec<FunDecl<Exp<()>, ()>> = Vec::new();
    let mut i: usize = 0;
    assert(ds.take(0) =~= Seq::<DeclE>::empty());
    assert(decls_view(out@) =~= Seq::<DeclE>::empty());
    while i < decls.len()
        invariant
            i <= decls.len(),
            ds == decls_view(decls@),
            copy_decls_v(ds, fun_to_decl@, cs0).1.ok,
            copy_decls_v(ds.take(i as int), fun_to_decl@, cs0) == (decls_view(out@), CopySt { envs: fun_to_env@, ok: true }),
        decreases decls.len() - i,
    {
        proof {
            lemma_copy_decls_ok(ds, i + 1, fun_to_decl@, cs0);
            crate::syntax::lemma_decls_view(decls@);
            assert(ds.take(i + 1).drop_last() =~= ds.take(i as int));
            assert(ds.take(i + 1).last() == decl_view(decls@[i as int]));
        }
        let decl = &decls[i];
        let b = copy_def(&decl.body, fun_to_decl, fun_to_env);
        let ghost prev = out@;
        let nd = FunDecl { name: decl.name.clone(), parameters: crate::names::copy_names(&decl.parameters), body: b, ann: () };
        assert(decl_view(nd) == DeclV { name: ds[i as int].name, parameters: ds[i as int].parameters, body: exp_view(nd.body), ann: () });
        out.push(nd);
        assert(out@.drop_last() =~= prev);
        assert(decls_view(out@) == decls_view(prev).push(decl_view(nd)));
        i += 1;
    }
    assert(ds.take(decls.len() as int) =~= ds);
    out
}

} // verus!

verus! {

pub open spec fn envs_view(v: Seq<Vec<String>>) -> Seq<Seq<Name>> {
    v.map_values(|x: Vec<String>| names_view(x@))
}

proof fn lemma_lift_mono<A>(e: ExpV<A>, st: LiftSt, sl: Set<Name>, t: bool)
    ensures
        lift_v(e, st, sl, t).1.ok ==> st.ok,
{
}

proof fn lemma_lift_list_ok<A>(es: Seq<ExpV<A>>, i: int, st: LiftSt, sl: Set<Name>)
    requires
        0 <= i <= es.len(),
        lift_list_v(es, st, sl).1.ok,
    ensures
        lift_list_v(es.take(i), st, sl).1.ok,
    decreases es.len() - i,
{
    if i < es.len() {
        assert(es.drop_last().take(i) =~= es.take(i));
        let s1 = lift_list_v(es.drop_last(), st, sl).1;
        lemma_lift_mono(es.last(), s1, sl, false);
        lemma_lift_list_ok(es.drop_last(), i, st, sl);
    } else {
        assert(es.take(i) =~= es);
    }
}

proof fn lemma_lift_args_ok<A>(es: Seq<ExpV<A>>, i: int, st: LiftSt, sl: Set<Name>)
    requires
        0 <= i <= es.len(),
        lift_args_v(es, st, sl).1.ok,
    ensures
        lift_args_v(es.take(i), st, sl).1.ok,
    decreases es.len() - i,
{
    if i < es.len() {
        assert(es.drop_last().take(i) =~= es.take(i));
        let s1 = lift_args_v(es.drop_last(), st, sl).1;
        lemma_lift_mono(es.last(), s1, sl, false);
        lemma_lift_args_ok(es.drop_last(), i, st, sl);
    } else {
        assert(es.take(i) =~= es);
    }
}

proof fn lemma_lift_bindings_ok<A>(bs: Seq<(Name, ExpV<A>)>, i: int, st: LiftSt, sl: Set<Name>)
    requires
        0 <= i <= bs.len(),
        lift_bindings_v(bs, st, sl).1.ok,
    ensures
        lift_bindings_v(bs.take(i), st, sl).1.ok,
    decreases bs.len() - i,
{
    if i < bs.len() {
        assert(bs.drop_last().take(i) =~= bs.take(i));
        let s1 = lift_bindings_v(bs.drop_last(), st, sl).1;
        lemma_lift_mono(bs.last().1, s1, sl, false);
        lemma_lift_bindings_ok(bs.drop_last(), i, st, sl);
    } else {
        assert(bs.take(i) =~= bs);
    }
}

proof fn lemma_lift_decls1_ok<A>(ds: Seq<DeclV<ExpV<A>, A>>, i: int, st: LiftSt, sl: Set<Name>)
    requires
        0 <= i <= ds.len(),
        lift_decls1_v(ds, st, sl).2.ok,
    ensures
        lift_decls1_v(ds.take(i), st, sl).2.ok,
    decreases ds.len() - i,
{
    if i < ds.len() {
        assert(ds.drop_last().take(i) =~= ds.take(i));
        let s1 = lift_decls1_v(ds.drop_last(), st, sl).2;
        let d = ds.last();
        let s1a = LiftSt { envs: s1.envs.insert(d.name, s1.env), ok: s1.ok && s1.env.no_duplicates(), ..s1 };
        lemma_lift_mono(d.body, with_env(s1a, s1.env + d.parameters), sl, true);
        lemma_lift_decls1_ok(ds.drop_last(), i, st, sl);
    } else {
        assert(ds.take(i) =~= ds);
    }
}

proof fn lemma_lift_decls2_ok<A>(ds: Seq<DeclV<ExpV<A>, A>>, bodies: Seq<ExpV<()>>, nenvs: Seq<Seq<Name>>, i: int, st: LiftSt, sl: Set<Name>)
    requires
        0 <= i <= ds.len(),
        lift_decls2_v(ds, bodies, nenvs, st, sl).1.ok,
    ensures
        lift_decls2_v(ds.take(i), bodies, nenvs, st, sl).1.ok,
    decreases ds.len() - i,
{
    if i < ds.len() {
        assert(ds.drop_last().take(i) =~= ds.take(i));
        let s1 = lift_decls2_v(ds.drop_last(), bodies, nenvs, st, sl).1;
        lemma_copy_mono(bodies[ds.len() - 1], s1.decls, CopySt { envs: s1.envs, ok: s1.ok });
        lemma_lift_decls2_ok(ds.drop_last(), bodies, nenvs, i, st, sl);
    } else {
        assert(ds.take(i) =~= ds);
    }
}

/// Lambda lifting of one expression (see `lift_v`): `env` holds the
/// variables in scope, `lifted` collects the lifted functions,
/// `fun_to_decl` the processed declarations and `fun_to_env` the variables
/// in scope where each function is defined.
pub fn lambda_lift_helper<Ann>(
    e: &Exp<Ann>,
    env: &mut Vec<String>,
    lifted: &mut Vec<FunDecl<Exp<()>, ()>>,
    should_lift: &NameSet,
    fun_to_decl: &mut NameMap<FunDecl<Exp<()>, ()>>,
    is_tail: bool,
    fun_to_env: &mut NameMap<Vec<String>>,
) -> (res: Exp<()>)
    requires
        lift_v(exp_view(*e), lift_state(old(env)@, old(lifted)@, old(fun_to_decl)@, old(fun_to_env)@), should_lift@, is_tail).1.ok,
    ensures
        lift_v(exp_view(*e), lift_state(old(env)@, old(lifted)@, old(fun_to_decl)@, old(fun_to_env)@), should_lift@, is_tail)
            == (exp_view(res), lift_state(final(env)@, final(lifted)@, final(fun_to_decl)@, final(fun_to_env)@)),
        exp_view(*e) matches ExpV::FunDefs { decls, body, .. } ==> (
            group_names_apart(decls, *body) && group_fresh(decls, decls_view(old(lifted)@)) ==> lifts_group(
                decls,
                *body,
                lift_state(old(env)@, old(lifted)@, old(fun_to_decl)@, old(fun_to_env)@),
                should_lift@,
                exp_view(res),
                lift_state(final(env)@, final(lifted)@, final(fun_to_decl)@, final(fun_to_env)@),
            )),
    decreases e, 1nat,
{
    let ghost st = lift_state(env@, lifted@, fun_to_decl@, fun_to_env@);
    let ghost sl = should_lift@;
    match e {
        Exp::Num(n, _) => Exp::Num(*n, ()),
        Exp::Bool(b, _) => Exp::Bool(*b, ()),
        Exp::Float(f, _) => Exp::Float(*f, ()),
        Exp::Var(s, _) => Exp::Var(s.clone(), ()),
        Exp::Prim(p, exps, _) => {
            let new_exps = lift_list(exps, env, lifted, should_lift, fun_to_decl, fun_to_env);
            Exp::Prim(*p, new_exps, ())
        },
        Exp::Let { bindings, body, .. } => {
            proof {
                let s1 = lift_bindings_v(bindings_view(bindings@), st, sl).1;
                lemma_lift_mono(exp_view(**body), s1, sl, is_tail);
            }
            let new_bindings = lift_bindings(bindings, env, lifted, should_lift, fun_to_decl, fun_to_env);
            let mut env1 = crate::names::copy_names(env);
            let new_body = lambda_lift_helper(body, &mut env1, lifted, should_lift, fun_to_decl, is_tail, fun_to_env);
            Exp::Let { bindings: new_bindings, body: Box::new(new_body), ann: () }
        },
        Exp::If { cond, thn, els, .. } => {
            proof {
                let (c, s1) = lift_v(exp_view(**cond), st, sl, false);
                let (a, s2) = lift_v(exp_view(**thn), with_env(s1, st.env), sl, is_tail);
                lemma_lift_mono(exp_view(**els), with_env(s2, st.env), sl, is_tail);
                lemma_lift_mono(exp_view(**thn), with_env(s1, st.env), sl, is_tail);
            }
            let mut env1 = crate::names::copy_names(env);
            let c = lambda_lift_helper(cond, &mut env1, lifted, should_lift, fun_to_decl, false, fun_to_env);
            let mut env2 = crate::names::copy_names(env);
            let a = lambda_lift_helper(thn, &mut env2, lifted, should_lift, fun_to_decl, is_tail, fun_to_env);
            let mut env3 = crate::names::copy_names(env);
            let b = lambda_lift_helper(els, &mut env3, lifted, should_lift, fun_to_decl, is_tail, fun_to_env);
            Exp::If { cond: Box::new(c), thn: Box::new(a), els: Box::new(b), ann: () }
        },
        Exp::FunDefs { decls, body, ann } => {
            proof {
                if group_names_apart(decls_view(decls@), exp_view(**body)) && group_fresh(decls_view(decls@), st.lifted) {
                    lemma_lifts_group(decls_view(decls@), exp_view(**body), *ann, st, sl, is_tail);
                }
                let (bodies, nenvs, s1) = lift_decls1_v(decls_view(decls@), st, sl);
                let (kept, s2) = lift_decls2_v(decls_view(decls@), bodies, nenvs, with_env(s1, st.env), sl);
                lemma_lift_mono(exp_view(**body), with_env(s2, st.env), sl, true);
                assert(lift_decls2_v(decls_view(decls@), bodies, nenvs, with_env(s1, st.env), sl).1.ok ==> with_env(s1, st.env).ok);
            }
            let (new_bodies, new_envs) = lift_decls1(decls, env, lifted, should_lift, fun_to_decl, fun_to_env);
            let new_decls = lift_decls2(decls, &new_bodies, &new_envs, env, lifted, should_lift, fun_to_decl, fun_to_env);
            let mut env1 = crate::names::copy_names(env);
            let new_body = lambda_lift_helper(body, &mut env1, lifted, should_lift, fun_to_decl, true, fun_to_env);
            if new_decls.len() == 0 {
                return new_body;
            }
            Exp::FunDefs { decls: new_decls, body: Box::new(new_body), ann: () }
        },
        Exp::Call(fun_name, args, _) => {
            let new_args = lift_args(args, env, lifted, should_lift, fun_to_decl, fun_to_env);
            if is_tail && !should_lift.contains(fun_name) {
                return Exp::InternalTailCall(fun_name.clone(), new_args, ());
            }
            Exp::ExternalCall { fun_name: fun_name.clone(), args: new_args, is_tail, ann: () }
        },
        Exp::InternalTailCall(..) | Exp::ExternalCall { .. } => vstd::pervasive::unreached(),
    }
}

fn lift_list<Ann>(
    exps: &Vec<Box<Exp<Ann>>>,
    env: &Vec<String>,
    lifted: &mut Vec<FunDecl<Exp<()>, ()>>,
    should_lift: &NameSet,
    fun_to_decl: &mut NameMap<FunDecl<Exp<()>, ()>>,
    fun_to_env: &mut NameMap<Vec<String>>,
) -> (res: Vec<Box<Exp<()>>>)
    requires
        lift_list_v(boxed_exps_view(exps@), lift_state(env@, old(lifted)@, old(fun_to_decl)@, old(fun_to_env)@), should_lift@).1.ok,
    ensures
        lift_list_v(boxed_exps_view(exps@), lift_state(env@, old(lifted)@, old(fun_to_decl)@, old(fun_to_env)@), should_lift@)
            == (boxed_exps_view(res@), lift_state(env@, final(lifted)@, final(fun_to_decl)@, final(fun_to_env)@)),
    decreases exps, 0nat,
{
    let ghost es = boxed_exps_view(exps@);
    let ghost st = lift_state(env@, lifted@, fun_to_decl@, fun_to_env@);
    let mut out: Vec<Box<Exp<()>>> = Vec::new();
    let mut i: usize = 0;
    assert(es.take(0) =~= Seq::<ExpV<Ann>>::empty());
    assert(boxed_exps_view(out@) =~= Seq::<ExpV<()>>::empty());
    while i < exps.len()
        invariant
            i <= exps.len(),
            es == boxed_exps_view(exps@),
            lift_list_v(es, st, should_lift@).1.ok,
            lift_list_v(es.take(i as int), st, should_lift@) == (boxed_exps_view(out@), lift_state(env@, lifted@, fun_to_decl@, fun_to_env@)),
        decreases exps.len() - i,
    {
        proof {
            lemma_lift_list_ok(es, i + 1, st, should_lift@);
            assert(es.take(i + 1).drop_last() =~= es.take(i as int));
            assert(es.take(i + 1).last() == exp_view(*exps@[i as int]));
        }
        let mut env1 = crate::names::copy_names(env);
        let x = lambda_lift_helper(&exps[i], &mut env1, lifted, should_lift, fun_to_decl, false, fun_to_env);
        let ghost prev = out@;
        out.push(Box::new(x));
        assert(out@.drop_last() =~= prev);
        i += 1;
    }
    assert(es.take(exps.len() as int) =~= es);
    out
}

fn lift_args<Ann>(
    args: &Vec<Exp<Ann>>,
    env: &mut Vec<String>,
    lifted: &mut Vec<FunDecl<Exp<()>, ()>>,
    should_lift: &NameSet,
    fun_to_decl: &mut NameMap<FunDecl<Exp<()>, ()>>,
    fun_to_env: &mut NameMap<Vec<String>>,
) -> (res: Vec<Exp<()>>)
    requires
        lift_args_v(exps_view(args@), lift_state(old(env)@, old(lifted)@, old(fun_to_decl)@, old(fun_to_env)@), should_lift@).1.ok,
    ensures
        lift_args_v(exps_view(args@), lift_state(old(env)@, old(lifted)@, old(fun_to_decl)@, old(fun_to_env)@), should_lift@)
            == (exps_view(res@), lift_state(final(env)@, final(lifted)@, final(fun_to_decl)@, final(fun_to_env)@)),
    decreases args, 0nat,
{
    let ghost es = exps_view(args@);
    let ghost st = lift_state(env@, lifted@, fun_to_decl@, fun_to_env@);
    let mut out: Vec<Exp<()>> = Vec::new();
    let mut i: usize = 0;
    assert(es.take(0) =~= Seq::<ExpV<Ann>>::empty());
    assert(exps_view(out@) =~= Seq::<ExpV<()>>::empty());
    while i < args.len()
        invariant
            i <= args.len(),
            es == exps_view(args@),
            lift_args_v(es, st, should_lift@).1.ok,
            lift_args_v(es.take(i as int), st, should_lift@) == (exps_view(out@), lift_state(env@, lifted@, fun_to_decl@, fun_to_env@)),
        decreases args.len() - i,
    {
        proof {
            lemma_lift_args_ok(es, i + 1, st, should_lift@);
            assert(es.take(i + 1).drop_last() =~= es.take(i as int));
            assert(es.take(i + 1).last() == exp_view(args@[i as int]));
        }
        let x = lambda_lift_helper(&args[i], env, lifted, should_lift, fun_to_decl, false, fun_to_env);
        let ghost prev = out@;
        out.push(x);
        assert(out@.drop_last() =~= prev);
        i += 1;
    }
    assert(es.take(args.len() as int) =~= es);
    out
}

fn lift_bindings<Ann>(
    bindings: &Vec<(String, Exp<Ann>)>,
    env: &mut Vec<String>,
    lifted: &mut Vec<FunDecl<Exp<()>, ()>>,
    should_lift: &NameSet,
    fun_to_decl: &mut NameMap<FunDecl<Exp<()>, ()>>,
    fun_to_env: &mut NameMap<Vec<String>>,
) -> (res: Vec<(String, Exp<()>)>)
    requires
        lift_bindings_v(bindings_view(bindings@), lift_state(old(env)@, old(lifted)@, old(fun_to_decl)@, old(fun_to_env)@), should_lift@).1.ok,
    ensures
        lift_bindings_v(bindings_view(bindings@), lift_state(old(env)@, old(lifted)@, old(fun_to_decl)@, old(fun_to_env)@), should_lift@)
            == (bindings_view(res@), lift_state(final(env)@, final(lifted)@, final(fun_to_decl)@, final(fun_to_env)@)),
    decreases bindings, 0nat,
{
    let ghost bs = bindings_view(bindings@);
    let ghost st = lift_state(env@, lifted@, fun_to_decl@, fun_to_env@);
    let mut out: Vec<(String, Exp<()>)> = Vec::new();
    let mut i: usize = 0;
    assert(bs.take(0) =~= Seq::<(Name, ExpV<Ann>)>::empty());
    assert(bindings_view(out@) =~= Seq::<(Name, ExpV<()>)>::empty());
    while i < bindings.len()
        invariant
            i <= bindings.len(),
            bs == bindings_view(bindings@),
            lift_bindings_v(bs, st, should_lift@).1.ok,
            lift_bindings_v(bs.take(i as int), st, should_lift@) == (bindings_view(out@), lift_state(env@, lifted@, fun_to_decl@, fun_to_env@)),
        decreases bindings.len() - i,
    {
        proof {
            lemma_lift_bindings_ok(bs, i + 1, st, should_lift@);
            assert(bs.take(i + 1).drop_last() =~= bs.take(i as int));
            assert(bs.take(i + 1).last() == (bindings@[i as int].0@, exp_view(bindings@[i as int].1)));
        }
        let (a, b) = &bindings[i];
        let mut env1 = crate::names::copy_names(env);
        let x = lambda_lift_helper(b, &mut env1, lifted, should_lift, fun_to_decl, false, fun_to_env);
        let ghost prev = out@;
        let ghost prev_env = env@;
        out.push((a.clone(), x));
        env.push(a.clone());
        assert(out@.drop_last() =~= prev);
        assert(names_view(env@) =~= names_view(prev_env).push(a@));
        i += 1;
    }
    assert(bs.take(bindings.len() as int) =~= bs);
    out
}

fn lift_decls1<Ann>(
    decls: &Vec<FunDecl<Exp<Ann>, Ann>>,
    env: &Vec<String>,
    lifted: &mut Vec<FunDecl<Exp<()>, ()>>,
    should_lift: &NameSet,
    fun_to_decl: &mut NameMap<FunDecl<Exp<()>, ()>>,
    fun_to_env: &mut NameMap<Vec<String>>,
) -> (res: (Vec<Exp<()>>, Vec<Vec<String>>))
    requires
        lift_decls1_v(decls_view(decls@), lift_state(env@, old(lifted)@, old(fun_to_decl)@, old(fun_to_env)@), should_lift@).2.ok,
    ensures
        lift_decls1_v(decls_view(decls@), lift_state(env@, old(lifted)@, old(fun_to_decl)@, old(fun_to_env)@), should_lift@)
            == (exps_view(res.0@), envs_view(res.1@), lift_state(env@, final(lifted)@, final(fun_to_decl)@, final(fun_to_env)@)),
        res.0@.len() == decls@.len(),
        res.1@.len() == decls@.len(),
    decreases decls, 0nat,
{
    let ghost ds = decls_view(decls@);
    let ghost st = lift_state(env@, lifted@, fun_to_decl@, fun_to_env@);
    let mut bodies: Vec<Exp<()>> = Vec::new();
    let mut envs: Vec<Vec<String>> = Vec::new();
    let mut i: usize = 0;
    assert(ds.take(0) =~= Seq::<DeclV<ExpV<Ann>, Ann>>::empty());
    assert(exps_view(bodies@) =~= Seq::<ExpV<()>>::empty());
    assert(envs_view(envs@) =~= Seq::<Seq<Name>>::empty());
    while i < decls.len()
        invariant
            i <= decls.len(),
            ds == decls_view(decls@),
            lift_decls1_v(ds, st, should_lift@).2.ok,
            lift_decls1_v(ds.take(i as int), st, should_lift@)
                == (exps_view(bodies@), envs_view(envs@), lift_state(env@, lifted@, fun_to_decl@, fun_to_env@)),
            bodies@.len() == i,
            envs@.len() == i,
        decreases decls.len() - i,
    {
        proof {
            lemma_lift_decls1_ok(ds, i + 1, st, should_lift@);
            crate::syntax::lemma_decls_view(decls@);
            assert(ds.take(i + 1).drop_last() =~= ds.take(i as int));
            assert(ds.take(i + 1).last() == decl_view(decls@[i as int]));
        }
        let decl = &decls[i];
        let captured = crate::names::copy_names(env);
        proof { lemma_names_deep_view(captured); }
        fun_to_env.insert(decl.name.clone(), captured);
        let mut new_env = crate::names::copy_names(env);
        let mut k: usize = 0;
        while k < decl.parameters.len()
            invariant
                k <= decl.parameters.len(),
                names_view(new_env@) =~= names_view(env@) + names_view(decl.parameters@).take(k as int),
            decreases decl.parameters.len() - k,
        {
            let ghost prev_env = new_env@;
            new_env.push(decl.parameters[k].clone());
            assert(names_view(new_env@) =~= names_view(prev_env).push(decl.parameters@[k as int]@));
            assert(names_view(decl.parameters@).take(k + 1) =~= names_view(decl.parameters@).take(k as int).push(decl.parameters@[k as int]@));
            k += 1;
        }
        assert(names_view(decl.parameters@).take(decl.parameters.len() as int) =~= names_view(decl.parameters@));
        let mut env1 = crate::names::copy_names(&new_env);
        proof {
            let s1 = lift_decls1_v(ds.take(i as int), st, should_lift@).2;
            let d = ds[i as int];
            let s1a = LiftSt { envs: s1.envs.insert(d.name, s1.env), ok: s1.ok && s1.env.no_duplicates(), ..s1 };
            lemma_lift_mono(d.body, with_env(s1a, s1.env + d.parameters), should_lift@, true);
            assert(s1a.ok);
            assert(with_env(s1a, s1.env + d.parameters) == lift_state(env1@, lifted@, fun_to_decl@, fun_to_env@));
        }
        let new_body = lambda_lift_helper(&decl.body, &mut env1, lifted, should_lift, fun_to_decl, true, fun_to_env);
        let stored = FunDecl {
            name: decl.name.clone(),
            parameters: crate::names::copy_names(&decl.parameters),
            body: crate::syntax::copy_exp(&new_body),
            ann: (),
        };
        fun_to_decl.insert(decl.name.clone(), stored);
        let ghost prev_bodies = bodies@;
        let ghost prev_envs = envs@;
        bodies.push(new_body);
        envs.push(new_env);
        assert(bodies@.drop_last() =~= prev_bodies);
        assert(envs_view(envs@) =~= envs_view(prev_envs).push(names_view(envs@.last()@)));
        i += 1;
    }
    assert(ds.take(decls.len() as int) =~= ds);
    (bodies, envs)
}

fn lift_decls2<Ann>(
    decls: &Vec<FunDecl<Exp<Ann>, Ann>>,
    bodies: &Vec<Exp<()>>,
    envs: &Vec<Vec<String>>,
    env: &Vec<String>,
    lifted: &mut Vec<FunDecl<Exp<()>, ()>>,
    should_lift: &NameSet,
    fun_to_decl: &NameMap<FunDecl<Exp<()>, ()>>,
    fun_to_env: &mut NameMap<Vec<String>>,
) -> (res: Vec<FunDecl<Exp<()>, ()>>)
    requires
        lift_decls2_v(decls_view(decls@), exps_view(bodies@), envs_view(envs@),
            lift_state(env@, old(lifted)@, fun_to_decl@, old(fun_to_env)@), should_lift@).1.ok,
        bodies@.len() == decls@.len(),
        envs@.len() == decls@.len(),
    ensures
        lift_decls2_v(decls_view(decls@), exps_view(bodies@), envs_view(envs@),
            lift_state(env@, old(lifted)@, fun_to_decl@, old(fun_to_env)@), should_lift@)
            == (decls_view(res@), lift_state(env@, final(lifted)@, fun_to_decl@, final(fun_to_env)@)),
{
    let ghost ds = decls_view(decls@);
    let ghost bv = exps_view(bodies@);
    let ghost ev = envs_view(envs@);
    let ghost st = lift_state(env@, lifted@, fun_to_decl@, fun_to_env@);
    let mut kept: Vec<FunDecl<Exp<()>, ()>> = Vec::new();
    let mut i: usize = 0;
    assert(ds.take(0) =~= Seq::<DeclV<ExpV<Ann>, Ann>>::empty());
    assert(decls_view(kept@) =~= Seq::<DeclE>::empty());
    while i < decls.len()
        invariant
            i <= decls.len(),
            ds == decls_view(decls@),
            bv == exps_view(bodies@),
            ev == envs_view(envs@),
            bodies@.len() == decls@.len(),
            envs@.len() == decls@.len(),
            lift_decls2_v(ds, bv, ev, st, should_lift@).1.ok,
            lift_decls2_v(ds.take(i as int), bv, ev, st, should_lift@)
                == (decls_view(kept@), lift_state(env@, lifted@, fun_to_decl@, fun_to_env@)),
        decreases decls.len() - i,
    {
        proof {
            lemma_lift_decls2_ok(ds, bv, ev, i + 1, st, should_lift@);
            crate::syntax::lemma_decls_view(decls@);
            crate::syntax::lemma_exps_view(bodies@);
            assert(ds.take(i + 1).drop_last() =~= ds.take(i as int));
            assert(ds.take(i + 1).last() == decl_view(decls@[i as int]));
            assert(bv[i as int] == exp_view(bodies@[i as int]));
            assert(ev[i as int] == names_view(envs@[i as int]@));
        }
        let decl = &decls[i];
        if should_lift.contains(&decl.name) {
            let nb = copy_def(&bodies[i], fun_to_decl, fun_to_env);
            let ghost prev = lifted@;
            let nd = FunDecl { name: decl.name.clone(), parameters: crate::names::copy_names(&envs[i]), body: nb, ann: () };
            lifted.push(nd);
            assert(lifted@.drop_last() =~= prev);
            assert(decls_view(lifted@) == decls_view(prev).push(decl_view(nd)));
        } else {
            let ghost prev = kept@;
            let nd = FunDecl {
                name: decl.name.clone(),
                parameters: crate::names::copy_names(&decl.parameters),
                body: crate::syntax::copy_exp(&bodies[i]),
                ann: (),
            };
            kept.push(nd);
            assert(kept@.drop_last() =~= prev);
            assert(decls_view(kept@) == decls_view(prev).push(decl_view(nd)));
        }
        i += 1;
    }
    assert(ds.take(decls.len() as int) =~= ds);
    kept
}

} // verus!

verus! {

/// Every function lifted so far is one of `sl`.
pub open spec fn lifted_from(st: LiftSt, sl: Set<Name>) -> bool {
    forall|i: int| 0 <= i < st.lifted.len() ==> sl.contains(#[trigger] st.lifted[i].name)
}

/// Lambda lifting lifts only functions of the lift set: if every function
/// lifted before is in `sl`, so is every function lifted after.
pub proof fn lemma_lift_only_from_set<A>(e: ExpV<A>, st: LiftSt, sl: Set<Name>, t: bool)
    requires
        lifted_from(st, sl),
    ensures
        lifted_from(lift_v(e, st, sl, t).1, sl),
    decreases e,
{
    if st.ok {
        match e {
            ExpV::Prim(_, es, _) => lemma_lift_list_only_from_set(es, st, sl),
            ExpV::Let { bindings, body, .. } => {
                let (bs, s1) = lift_bindings_v(bindings, st, sl);
                lemma_lift_bindings_only_from_set(bindings, st, sl);
                lemma_lift_only_from_set(*body, s1, sl, t);
            },
            ExpV::If { cond, thn, els, .. } => {
                let (c, s1) = lift_v(*cond, st, sl, false);
                lemma_lift_only_from_set(*cond, st, sl, false);
                let (a, s2) = lift_v(*thn, with_env(s1, st.env), sl, t);
                lemma_lift_only_from_set(*thn, with_env(s1, st.env), sl, t);
                lemma_lift_only_from_set(*els, with_env(s2, st.env), sl, t);
            },
            ExpV::FunDefs { decls, body, .. } => {
                let (bodies, nenvs, s1) = lift_decls1_v(decls, st, sl);
                lemma_lift_decls1_only_from_set(decls, st, sl);
                let (kept, s2) = lift_decls2_v(decls, bodies, nenvs, with_env(s1, st.env), sl);
                lemma_lift_decls2_only_from_set(decls, bodies, nenvs, with_env(s1, st.env), sl);
                lemma_lift_only_from_set(*body, with_env(s2, st.env), sl, true);
            },
            ExpV::Call(_, args, _) => lemma_lift_args_only_from_set(args, st, sl),
            _ => {},
        }
    }
}

proof fn lemma_lift_list_only_from_set<A>(es: Seq<ExpV<A>>, st: LiftSt, sl: Set<Name>)
    requires
        lifted_from(st, sl),
    ensures
        lifted_from(lift_list_v(es, st, sl).1, sl),
    decreases es,
{
    if st.ok && es.len() > 0 {
        let (xs, s1) = lift_list_v(es.drop_last(), st, sl);
        lemma_lift_list_only_from_set(es.drop_last(), st, sl);
        lemma_lift_only_from_set(es.last(), s1, sl, false);
    }
}

proof fn lemma_lift_args_only_from_set<A>(es: Seq<ExpV<A>>, st: LiftSt, sl: Set<Name>)
    requires
        lifted_from(st, sl),
    ensures
        lifted_from(lift_args_v(es, st, sl).1, sl),
    decreases es,
{
    if st.ok && es.len() > 0 {
        let (xs, s1) = lift_args_v(es.drop_last(), st, sl);
        lemma_lift_args_only_from_set(es.drop_last(), st, sl);
        lemma_lift_only_from_set(es.last(), s1, sl, false);
    }
}

proof fn lemma_lift_bindings_only_from_set<A>(bs: Seq<(Name, ExpV<A>)>, st: LiftSt, sl: Set<Name>)
    requires
        lifted_from(st, sl),
    ensures
        lifted_from(lift_bindings_v(bs, st, sl).1, sl),
    decreases bs,
{
    if st.ok && bs.len() > 0 {
        let (ys, s1) = lift_bindings_v(bs.drop_last(), st, sl);
        lemma_lift_bindings_only_from_set(bs.drop_last(), st, sl);
        lemma_lift_only_from_set(bs.last().1, s1, sl, false);
    }
}

proof fn lemma_lift_decls1_only_from_set<A>(ds: Seq<DeclV<ExpV<A>, A>>, st: LiftSt, sl: Set<Name>)
    requires
        lifted_from(st, sl),
    ensures
        lifted_from(lift_decls1_v(ds, st, sl).2, sl),
    decreases ds,
{
    if st.ok && ds.len() > 0 {
        let (bodies, nenvs, s1) = lift_decls1_v(ds.drop_last(), st, sl);
        lemma_lift_decls1_only_from_set(ds.drop_last(), st, sl);
        let d = ds.last();
        let s1a = LiftSt { envs: s1.envs.insert(d.name, s1.env), ok: s1.ok && s1.env.no_duplicates(), ..s1 };
        lemma_lift_only_from_set(d.body, with_env(s1a, s1.env + d.parameters), sl, true);
    }
}

proof fn lemma_lift_decls2_only_from_set<A>(
    ds: Seq<DeclV<ExpV<A>, A>>,
    bodies: Seq<ExpV<()>>,
    nenvs: Seq<Seq<Name>>,
    st: LiftSt,
    sl: Set<Name>,
)
    requires
        lifted_from(st, sl),
    ensures
        lifted_from(lift_decls2_v(ds, bodies, nenvs, st, sl).1, sl),
    decreases ds.len(),
{
    if st.ok && ds.len() > 0 {
        lemma_lift_decls2_only_from_set(ds.drop_last(), bodies, nenvs, st, sl);
    }
}

} // verus!

verus! {

/// A definition's name and parameters.
pub open spec fn name_params(d: DeclE) -> (Name, Seq<Name>) {
    (d.name, d.parameters)
}

/// The definitions of a group that go to the globals (those of `sl`), each
/// with the variables `env` in scope where the group stands, then its own
/// parameters.
pub open spec fn group_lifted<A>(ds: Seq<DeclV<ExpV<A>, A>>, env: Seq<Name>, sl: Set<Name>) -> Seq<(Name, Seq<Name>)>
    decreases ds.len(),
{
    if ds.len() == 0 {
        Seq::empty()
    } else if sl.contains(ds.last().name) {
        group_lifted(ds.drop_last(), env, sl).push((ds.last().name, env + ds.last().parameters))
    } else {
        group_lifted(ds.drop_last(), env, sl)
    }
}

/// The definitions of a group that stay in it, with their own parameters.
pub open spec fn group_kept<A>(ds: Seq<DeclV<ExpV<A>, A>>, sl: Set<Name>) -> Seq<(Name, Seq<Name>)>
    decreases ds.len(),
{
    if ds.len() == 0 {
        Seq::empty()
    } else if sl.contains(ds.last().name) {
        group_kept(ds.drop_last(), sl)
    } else {
        group_kept(ds.drop_last(), sl).push((ds.last().name, ds.last().parameters))
    }
}

proof fn lemma_decls1_envs<A>(ds: Seq<DeclV<ExpV<A>, A>>, st: LiftSt, sl: Set<Name>)
    requires
        lift_decls1_v(ds, st, sl).2.ok,
    ensures
        lift_decls1_v(ds, st, sl).0.len() == ds.len(),
        lift_decls1_v(ds, st, sl).1.len() == ds.len(),
        lift_decls1_v(ds, st, sl).2.env == st.env,
        forall|i: int| 0 <= i < ds.len() ==> #[trigger] lift_decls1_v(ds, st, sl).1[i] == st.env + ds[i].parameters,
    decreases ds,
{
    if ds.len() > 0 {
        lemma_lift_decls1_ok(ds, ds.len() - 1, st, sl);
        assert(ds.take(ds.len() - 1) =~= ds.drop_last());
        lemma_decls1_envs(ds.drop_last(), st, sl);
        let r = lift_decls1_v(ds.drop_last(), st, sl);
        let out = lift_decls1_v(ds, st, sl);
        assert forall|i: int| 0 <= i < ds.len() implies #[trigger] out.1[i] == st.env + ds[i].parameters by {
            if i < ds.len() - 1 {
                assert(out.1[i] == r.1[i]);
                assert(ds.drop_last()[i] == ds[i]);
            }
        }
    }
}

proof fn lemma_decls2_group<A>(
    ds: Seq<DeclV<ExpV<A>, A>>,
    bodies: Seq<ExpV<()>>,
    nenvs: Seq<Seq<Name>>,
    st: LiftSt,
    sl: Set<Name>,
    env: Seq<Name>,
)
    requires
        lift_decls2_v(ds, bodies, nenvs, st, sl).1.ok,
        nenvs.len() == ds.len(),
        forall|i: int| 0 <= i < ds.len() ==> #[trigger] nenvs[i] == env + ds[i].parameters,
    ensures
        ({
            let (kept, s2) = lift_decls2_v(ds, bodies, nenvs, st, sl);
            &&& st.lifted.len() <= s2.lifted.len()
            &&& s2.lifted.subrange(0, st.lifted.len() as int) == st.lifted
            &&& s2.lifted.subrange(st.lifted.len() as int, s2.lifted.len() as int).map_values(|d: DeclE| name_params(d))
                == group_lifted(ds, env, sl)
            &&& kept.map_values(|d: DeclE| name_params(d)) == group_kept(ds, sl)
        }),
    decreases ds.len(),
{
    if ds.len() > 0 {
        lemma_lift_decls2_ok(ds, bodies, nenvs, ds.len() - 1, st, sl);
        assert(ds.take(ds.len() - 1) =~= ds.drop_last());
        let init = ds.drop_last();
        let nenvs0 = nenvs.take(ds.len() - 1);
        assert forall|i: int| 0 <= i < init.len() implies #[trigger] nenvs[i] == env + init[i].parameters by {
            assert(init[i] == ds[i]);
        }
        lemma_decls2_group_prefix(ds, bodies, nenvs, st, sl, env);
    } else {
        let s2 = lift_decls2_v(ds, bodies, nenvs, st, sl).1;
        assert(s2.lifted.subrange(0, st.lifted.len() as int) =~= st.lifted);
        assert(s2.lifted.subrange(st.lifted.len() as int, s2.lifted.len() as int).map_values(|d: DeclE| name_params(d))
            =~= Seq::<(Name, Seq<Name>)>::empty());
        assert(lift_decls2_v(ds, bodies, nenvs, st, sl).0.map_values(|d: DeclE| name_params(d)) =~= Seq::<(Name, Seq<Name>)>::empty());
    }
}

proof fn lemma_decls2_group_prefix<A>(
    ds: Seq<DeclV<ExpV<A>, A>>,
    bodies: Seq<ExpV<()>>,
    nenvs: Seq<Seq<Name>>,
    st: LiftSt,
    sl: Set<Name>,
    env: Seq<Name>,
)
    requires
        ds.len() > 0,
        lift_decls2_v(ds, bodies, nenvs, st, sl).1.ok,
        lift_decls2_v(ds.drop_last(), bodies, nenvs, st, sl).1.ok,
        forall|i: int| 0 <= i < ds.len() ==> #[trigger] nenvs[i] == env + ds[i].parameters,
    ensures
        ({
            let (kept, s2) = lift_decls2_v(ds, bodies, nenvs, st, sl);
            &&& st.lifted.len() <= s2.lifted.len()
            &&& s2.lifted.subrange(0, st.lifted.len() as int) == st.lifted
            &&& s2.lifted.subrange(st.lifted.len() as int, s2.lifted.len() as int).map_values(|d: DeclE| name_params(d))
                == group_lifted(ds, env, sl)
            &&& kept.map_values(|d: DeclE| name_params(d)) == group_kept(ds, sl)
        }),
    decreases ds.len(),
{
    let init = ds.drop_last();
    if init.len() > 0 {
        lemma_lift_decls2_ok(init, bodies, nenvs, init.len() - 1, st, sl);
        assert(init.take(init.len() - 1) =~= init.drop_last());
    }
    assert forall|i: int| 0 <= i < init.len() implies #[trigger] nenvs[i] == env + init[i].parameters by {
        assert(init[i] == ds[i]);
    }
    if init.len() > 0 {
        lemma_decls2_group_prefix(init, bodies, nenvs, st, sl, env);
    } else {
        let s0 = lift_decls2_v(init, bodies, nenvs, st, sl).1;
        assert(s0.lifted.subrange(0, st.lifted.len() as int) =~= st.lifted);
        assert(s0.lifted.subrange(st.lifted.len() as int, s0.lifted.len() as int).map_values(|d: DeclE| name_params(d))
            =~= Seq::<(Name, Seq<Name>)>::empty());
        assert(lift_decls2_v(init, bodies, nenvs, st, sl).0.map_values(|d: DeclE| name_params(d)) =~= Seq::<(Name, Seq<Name>)>::empty());
    }
    let (kept0, s1) = lift_decls2_v(init, bodies, nenvs, st, sl);
    let (kept, s2) = lift_decls2_v(ds, bodies, nenvs, st, sl);
    let i = ds.len() - 1;
    let d = ds.last();
    let n0 = st.lifted.len() as int;
    if sl.contains(d.name) {
        assert(s2.lifted == s1.lifted.push(DeclV { name: d.name, parameters: nenvs[i], body: s2.lifted.last().body, ann: () }));
        assert(s2.lifted.subrange(0, n0) =~= s1.lifted.subrange(0, n0));
        assert(s2.lifted.subrange(n0, s2.lifted.len() as int) =~= s1.lifted.subrange(n0, s1.lifted.len() as int).push(s2.lifted.last()));
        assert(s2.lifted.subrange(n0, s2.lifted.len() as int).map_values(|d: DeclE| name_params(d))
            =~= s1.lifted.subrange(n0, s1.lifted.len() as int).map_values(|d: DeclE| name_params(d)).push((d.name, env + d.parameters)));
        assert(kept == kept0);
        assert(group_lifted(ds, env, sl) == group_lifted(init, env, sl).push((d.name, env + d.parameters)));
        assert(group_kept(ds, sl) == group_kept(init, sl));
    } else {
        assert(s2 == s1);
        assert(kept == kept0.push(DeclV { name: d.name, parameters: d.parameters, body: bodies[i], ann: () }));
        assert(kept.map_values(|d: DeclE| name_params(d)) =~= kept0.map_values(|d: DeclE| name_params(d)).push((d.name, d.parameters)));
        assert(group_lifted(ds, env, sl) == group_lifted(init, env, sl));
        assert(group_kept(ds, sl) == group_kept(init, sl).push((d.name, d.parameters)));
    }
}

/// Lifting a group of definitions: each definition of the lift set goes to
/// the globals, after those lifted before, under its own name and with the
/// variables in scope where the group stands followed by its own
/// parameters; the others stay in the group with their own parameters;
/// every body is lifted with those same variables and its parameters in
/// scope; and when no definition stays, the group's body alone remains.
pub proof fn lemma_lift_group<A>(decls: Seq<DeclV<ExpV<A>, A>>, body: ExpV<A>, ann: A, st: LiftSt, sl: Set<Name>, t: bool)
    requires
        lift_v(ExpV::FunDefs { decls, body: Box::new(body), ann }, st, sl, t).1.ok,
    ensures
        ({
            let (bodies, nenvs, s1) = lift_decls1_v(decls, st, sl);
            let (kept, s2) = lift_decls2_v(decls, bodies, nenvs, with_env(s1, st.env), sl);
            let (b, s3) = lift_v(body, with_env(s2, st.env), sl, true);
            &&& forall|i: int| 0 <= i < decls.len() ==> #[trigger] nenvs[i] == st.env + decls[i].parameters
            &&& s1.lifted.len() <= s2.lifted.len()
            &&& s2.lifted.subrange(0, s1.lifted.len() as int) == s1.lifted
            &&& s2.lifted.subrange(s1.lifted.len() as int, s2.lifted.len() as int).map_values(|d: DeclE| name_params(d))
                == group_lifted(decls, st.env, sl)
            &&& kept.map_values(|d: DeclE| name_params(d)) == group_kept(decls, sl)
            &&& lift_v(ExpV::FunDefs { decls, body: Box::new(body), ann }, st, sl, t).0
                == if kept.len() == 0 { b } else { ExpV::FunDefs { decls: kept, body: Box::new(b), ann: () } }
        }),
{
    let (bodies, nenvs, s1) = lift_decls1_v(decls, st, sl);
    let (kept, s2) = lift_decls2_v(decls, bodies, nenvs, with_env(s1, st.env), sl);
    lemma_lift_mono(body, with_env(s2, st.env), sl, true);
    lemma_decls2_mono(decls, bodies, nenvs, with_env(s1, st.env), sl);
    lemma_decls1_envs(decls, st, sl);
    lemma_decls2_group(decls, bodies, nenvs, with_env(s1, st.env), sl, st.env);
}

proof fn lemma_decls2_mono<A>(ds: Seq<DeclV<ExpV<A>, A>>, bodies: Seq<ExpV<()>>, nenvs: Seq<Seq<Name>>, st: LiftSt, sl: Set<Name>)
    ensures
        lift_decls2_v(ds, bodies, nenvs, st, sl).1.ok ==> st.ok,
{
}

} // verus!

verus! {

/// The names of the functions that the groups of definitions in `e` define.
pub open spec fn fun_defs<A>(e: ExpV<A>) -> Set<Name>
    decreases e,
{
    match e {
        ExpV::Prim(_, es, _) => list_defs(es),
        ExpV::Let { bindings, body, .. } => bindings_defs(bindings) + fun_defs(*body),
        ExpV::If { cond, thn, els, .. } => fun_defs(*cond) + fun_defs(*thn) + fun_defs(*els),
        ExpV::FunDefs { decls, body, .. } => decls_defs(decls) + fun_defs(*body),
        ExpV::Call(_, args, _) => list_defs(args),
        _ => Set::empty(),
    }
}

pub open spec fn list_defs<A>(es: Seq<ExpV<A>>) -> Set<Name>
    decreases es,
{
    if es.len() == 0 { Set::empty() } else { list_defs(es.drop_last()) + fun_defs(es.last()) }
}

pub open spec fn bindings_defs<A>(bs: Seq<(Name, ExpV<A>)>) -> Set<Name>
    decreases bs,
{
    if bs.len() == 0 { Set::empty() } else { bindings_defs(bs.drop_last()) + fun_defs(bs.last().1) }
}

pub open spec fn decls_defs<A>(ds: Seq<DeclV<ExpV<A>, A>>) -> Set<Name>
    decreases ds,
{
    if ds.len() == 0 {
        Set::empty()
    } else {
        decls_defs(ds.drop_last()) + set![ds.last().name] + fun_defs(ds.last().body)
    }
}

/// Every function environment recorded in `before` outside the names `ns`
/// is still recorded, unchanged, in `after`.
pub open spec fn envs_kept(before: Map<Name, Seq<Name>>, after: Map<Name, Seq<Name>>, ns: Set<Name>) -> bool {
    forall|k: Name| #[trigger] before.contains_key(k) && !ns.contains(k) ==> after.contains_key(k) && after[k] == before[k]
}

proof fn lemma_envs_kept_trans(a: Map<Name, Seq<Name>>, b: Map<Name, Seq<Name>>, c: Map<Name, Seq<Name>>, s: Set<Name>, t: Set<Name>)
    requires
        envs_kept(a, b, s),
        envs_kept(b, c, t),
    ensures
        envs_kept(a, c, s + t),
{
    assert forall|k: Name| #[trigger] a.contains_key(k) && !(s + t).contains(k) implies c.contains_key(k) && c[k] == a[k] by {
        assert(b.contains_key(k));
    }
}

proof fn lemma_envs_kept_widen(a: Map<Name, Seq<Name>>, b: Map<Name, Seq<Name>>, s: Set<Name>, t: Set<Name>)
    requires
        envs_kept(a, b, s),
        s.subset_of(t),
    ensures
        envs_kept(a, b, t),
{
}

/// Copying only adds environments for new copies.
proof fn lemma_copy_keeps_envs(e: ExpV<()>, decls: Map<Name, DeclE>, cs: CopySt)
    ensures
        envs_kept(cs.envs, copy_v(e, decls, cs).1.envs, Set::empty()),
    decreases e,
{
    if cs.ok {
        match e {
            ExpV::Let { bindings, body, .. } => lemma_copy_keeps_envs(*body, decls, cs),
            ExpV::If { cond, thn, els, .. } => {
                let (a, s1) = copy_v(*thn, decls, cs);
                lemma_copy_keeps_envs(*thn, decls, cs);
                lemma_copy_keeps_envs(*els, decls, s1);
                lemma_envs_kept_trans(cs.envs, s1.envs, copy_v(*els, decls, s1).1.envs, Set::empty(), Set::empty());
                assert(Set::<Name>::empty() + Set::<Name>::empty() =~= Set::<Name>::empty());
            },
            ExpV::FunDefs { decls: ds, body, .. } => {
                let (ds2, s1) = copy_decls_v(ds, decls, cs);
                lemma_copy_decls_keeps_envs(ds, decls, cs);
                lemma_copy_keeps_envs(*body, decls, s1);
                lemma_envs_kept_trans(cs.envs, s1.envs, copy_v(*body, decls, s1).1.envs, Set::empty(), Set::empty());
                assert(Set::<Name>::empty() + Set::<Name>::empty() =~= Set::<Name>::empty());
            },
            _ => {},
        }
    }
}

proof fn lemma_copy_decls_keeps_envs(ds: Seq<DeclE>, decls: Map<Name, DeclE>, cs: CopySt)
    ensures
        envs_kept(cs.envs, copy_decls_v(ds, decls, cs).1.envs, Set::empty()),
    decreases ds,
{
    if cs.ok && ds.len() > 0 {
        let (xs, s1) = copy_decls_v(ds.drop_last(), decls, cs);
        lemma_copy_decls_keeps_envs(ds.drop_last(), decls, cs);
        lemma_copy_keeps_envs(ds.last().body, decls, s1);
        lemma_envs_kept_trans(cs.envs, s1.envs, copy_v(ds.last().body, decls, s1).1.envs, Set::empty(), Set::empty());
        assert(Set::<Name>::empty() + Set::<Name>::empty() =~= Set::<Name>::empty());
    }
}

} // verus!

verus! {

/// Lifting `e` records environments only for the functions `e` defines:
/// every other recorded environment is left as it was.
proof fn lemma_lift_keeps_envs<A>(e: ExpV<A>, st: LiftSt, sl: Set<Name>, t: bool)
    ensures
        envs_kept(st.envs, lift_v(e, st, sl, t).1.envs, fun_defs(e)),
    decreases e,
{
    if st.ok {
        match e {
            ExpV::Prim(_, es, _) => lemma_list_keeps_envs(es, st, sl),
            ExpV::Let { bindings, body, .. } => {
                let (bs, s1) = lift_bindings_v(bindings, st, sl);
                lemma_bindings_keeps_envs(bindings, st, sl);
                lemma_lift_keeps_envs(*body, s1, sl, t);
                lemma_envs_kept_trans(st.envs, s1.envs, lift_v(*body, s1, sl, t).1.envs, bindings_defs(bindings), fun_defs(*body));
            },
            ExpV::If { cond, thn, els, .. } => {
                let (c, s1) = lift_v(*cond, st, sl, false);
                lemma_lift_keeps_envs(*cond, st, sl, false);
                let (a, s2) = lift_v(*thn, with_env(s1, st.env), sl, t);
                lemma_lift_keeps_envs(*thn, with_env(s1, st.env), sl, t);
                let s3 = lift_v(*els, with_env(s2, st.env), sl, t).1;
                lemma_lift_keeps_envs(*els, with_env(s2, st.env), sl, t);
                lemma_envs_kept_trans(st.envs, s1.envs, s2.envs, fun_defs(*cond), fun_defs(*thn));
                lemma_envs_kept_trans(st.envs, s2.envs, s3.envs, fun_defs(*cond) + fun_defs(*thn), fun_defs(*els));
            },
            ExpV::FunDefs { decls, body, .. } => {
                let (bodies, nenvs, s1) = lift_decls1_v(decls, st, sl);
                lemma_decls1_keeps_envs(decls, st, sl);
                let (kept, s2) = lift_decls2_v(decls, bodies, nenvs, with_env(s1, st.env), sl);
                lemma_decls2_keeps_envs(decls, bodies, nenvs, with_env(s1, st.env), sl);
                let s3 = lift_v(*body, with_env(s2, st.env), sl, true).1;
                lemma_lift_keeps_envs(*body, with_env(s2, st.env), sl, true);
                lemma_envs_kept_trans(st.envs, s1.envs, s2.envs, decls_defs(decls), Set::empty());
                lemma_envs_kept_trans(st.envs, s2.envs, s3.envs, decls_defs(decls) + Set::empty(), fun_defs(*body));
                lemma_envs_kept_widen(st.envs, s3.envs, decls_defs(decls) + Set::empty() + fun_defs(*body), fun_defs(e));
            },
            ExpV::Call(_, args, _) => lemma_args_keeps_envs(args, st, sl),
            _ => {},
        }
    }
}

proof fn lemma_list_keeps_envs<A>(es: Seq<ExpV<A>>, st: LiftSt, sl: Set<Name>)
    ensures
        envs_kept(st.envs, lift_list_v(es, st, sl).1.envs, list_defs(es)),
    decreases es,
{
    if st.ok && es.len() > 0 {
        let (xs, s1) = lift_list_v(es.drop_last(), st, sl);
        lemma_list_keeps_envs(es.drop_last(), st, sl);
        lemma_lift_keeps_envs(es.last(), s1, sl, false);
        lemma_envs_kept_trans(st.envs, s1.envs, lift_v(es.last(), s1, sl, false).1.envs, list_defs(es.drop_last()), fun_defs(es.last()));
    }
}

proof fn lemma_args_keeps_envs<A>(es: Seq<ExpV<A>>, st: LiftSt, sl: Set<Name>)
    ensures
        envs_kept(st.envs, lift_args_v(es, st, sl).1.envs, list_defs(es)),
    decreases es,
{
    if st.ok && es.len() > 0 {
        let (xs, s1) = lift_args_v(es.drop_last(), st, sl);
        lemma_args_keeps_envs(es.drop_last(), st, sl);
        lemma_lift_keeps_envs(es.last(), s1, sl, false);
        lemma_envs_kept_trans(st.envs, s1.envs, lift_v(es.last(), s1, sl, false).1.envs, list_defs(es.drop_last()), fun_defs(es.last()));
    }
}

proof fn lemma_bindings_keeps_envs<A>(bs: Seq<(Name, ExpV<A>)>, st: LiftSt, sl: Set<Name>)
    ensures
        envs_kept(st.envs, lift_bindings_v(bs, st, sl).1.envs, bindings_defs(bs)),
    decreases bs,
{
    if st.ok && bs.len() > 0 {
        let (ys, s1) = lift_bindings_v(bs.drop_last(), st, sl);
        lemma_bindings_keeps_envs(bs.drop_last(), st, sl);
        lemma_lift_keeps_envs(bs.last().1, s1, sl, false);
        lemma_envs_kept_trans(st.envs, s1.envs, lift_v(bs.last().1, s1, sl, false).1.envs, bindings_defs(bs.drop_last()), fun_defs(bs.last().1));
    }
}

proof fn lemma_decls1_keeps_envs<A>(ds: Seq<DeclV<ExpV<A>, A>>, st: LiftSt, sl: Set<Name>)
    ensures
        envs_kept(st.envs, lift_decls1_v(ds, st, sl).2.envs, decls_defs(ds)),
    decreases ds,
{
    if st.ok && ds.len() > 0 {
        let (bodies, nenvs, s1) = lift_decls1_v(ds.drop_last(), st, sl);
        lemma_decls1_keeps_envs(ds.drop_last(), st, sl);
        let d = ds.last();
        let s1a = LiftSt { envs: s1.envs.insert(d.name, s1.env), ok: s1.ok && s1.env.no_duplicates(), ..s1 };
        assert(envs_kept(s1.envs, s1a.envs, set![d.name]));
        lemma_envs_kept_trans(st.envs, s1.envs, s1a.envs, decls_defs(ds.drop_last()), set![d.name]);
        lemma_lift_keeps_envs(d.body, with_env(s1a, s1.env + d.parameters), sl, true);
        let s2 = lift_v(d.body, with_env(s1a, s1.env + d.parameters), sl, true).1;
        lemma_envs_kept_trans(st.envs, s1a.envs, s2.envs, decls_defs(ds.drop_last()) + set![d.name], fun_defs(d.body));
    }
}

proof fn lemma_decls2_keeps_envs<A>(
    ds: Seq<DeclV<ExpV<A>, A>>,
    bodies: Seq<ExpV<()>>,
    nenvs: Seq<Seq<Name>>,
    st: LiftSt,
    sl: Set<Name>,
)
    ensures
        envs_kept(st.envs, lift_decls2_v(ds, bodies, nenvs, st, sl).1.envs, Set::empty()),
    decreases ds.len(),
{
    if st.ok && ds.len() > 0 {
        let (kept, s1) = lift_decls2_v(ds.drop_last(), bodies, nenvs, st, sl);
        lemma_decls2_keeps_envs(ds.drop_last(), bodies, nenvs, st, sl);
        let i = ds.len() - 1;
        if sl.contains(ds.last().name) {
            let cs = CopySt { envs: s1.envs, ok: s1.ok };
            lemma_copy_keeps_envs(bodies[i], s1.decls, cs);
            lemma_envs_kept_trans(st.envs, s1.envs, copy_v(bodies[i], s1.decls, cs).1.envs, Set::empty(), Set::empty());
            assert(Set::<Name>::empty() + Set::<Name>::empty() =~= Set::<Name>::empty());
        }
    }
}

} // verus!

verus! {

/// The functions of a group have distinct names, and no group of
/// definitions nested in their bodies or in the group's body reuses them.
pub open spec fn group_names_apart<A>(decls: Seq<DeclV<ExpV<A>, A>>, body: ExpV<A>) -> bool {
    &&& forall|i: int, j: int| 0 <= i < j < decls.len() ==> decls[i].name != decls[j].name
    &&& forall|i: int, j: int|
        0 <= i < decls.len() && 0 <= j < decls.len() ==> !fun_defs(#[trigger] decls[j].body).contains(#[trigger] decls[i].name)
    &&& forall|i: int| 0 <= i < decls.len() ==> !fun_defs(body).contains(#[trigger] decls[i].name)
}

proof fn lemma_decls1_records_envs<A>(ds: Seq<DeclV<ExpV<A>, A>>, st: LiftSt, sl: Set<Name>)
    requires
        lift_decls1_v(ds, st, sl).2.ok,
        forall|i: int, j: int| 0 <= i < j < ds.len() ==> ds[i].name != ds[j].name,
        forall|i: int, j: int|
            0 <= i < ds.len() && 0 <= j < ds.len() ==> !fun_defs(#[trigger] ds[j].body).contains(#[trigger] ds[i].name),
    ensures
        forall|i: int| 0 <= i < ds.len() ==> {
            let s = lift_decls1_v(ds, st, sl).2;
            s.envs.contains_key(#[trigger] ds[i].name) && s.envs[ds[i].name] == st.env
        },
    decreases ds,
{
    if ds.len() > 0 {
        let n = ds.len() - 1;
        lemma_lift_decls1_ok(ds, n, st, sl);
        assert(ds.take(n) =~= ds.drop_last());
        let pre = ds.drop_last();
        assert forall|i: int, j: int| 0 <= i < pre.len() && 0 <= j < pre.len() implies !fun_defs(#[trigger] pre[j].body).contains(#[trigger] pre[i].name) by {
            assert(pre[j] == ds[j] && pre[i] == ds[i]);
        }
        lemma_decls1_records_envs(pre, st, sl);
        lemma_decls1_envs(pre, st, sl);
        let (bodies, nenvs, s1) = lift_decls1_v(pre, st, sl);
        let d = ds.last();
        let s1a = LiftSt { envs: s1.envs.insert(d.name, s1.env), ok: s1.ok && s1.env.no_duplicates(), ..s1 };
        lemma_lift_keeps_envs(d.body, with_env(s1a, s1.env + d.parameters), sl, true);
        let s = lift_decls1_v(ds, st, sl).2;
        assert forall|i: int| 0 <= i < ds.len() implies s.envs.contains_key(#[trigger] ds[i].name) && s.envs[ds[i].name] == st.env by {
            assert(!fun_defs(ds[n].body).contains(ds[i].name));
            if i < n {
                assert(pre[i] == ds[i]);
                assert(s1.envs.contains_key(ds[i].name));
                assert(s1a.envs.contains_key(ds[i].name));
            } else {
                assert(s1a.envs.contains_key(d.name));
            }
        }
    }
}

/// Lambda lifting a group of definitions records, for each function of the
/// group, the variables in scope at the group as its environment, and keeps
/// that record to the end, provided no nested group reuses the function's
/// name.
pub proof fn lemma_lift_group_envs<A>(decls: Seq<DeclV<ExpV<A>, A>>, body: ExpV<A>, ann: A, st: LiftSt, sl: Set<Name>, t: bool)
    requires
        lift_v(ExpV::FunDefs { decls, body: Box::new(body), ann }, st, sl, t).1.ok,
        group_names_apart(decls, body),
    ensures
        forall|i: int| 0 <= i < decls.len() ==> {
            let s = lift_v(ExpV::FunDefs { decls, body: Box::new(body), ann }, st, sl, t).1;
            s.envs.contains_key(#[trigger] decls[i].name) && s.envs[decls[i].name] == st.env
        },
{
    let (bodies, nenvs, s1) = lift_decls1_v(decls, st, sl);
    let (kept, s2) = lift_decls2_v(decls, bodies, nenvs, with_env(s1, st.env), sl);
    lemma_lift_mono(body, with_env(s2, st.env), sl, true);
    lemma_decls2_mono(decls, bodies, nenvs, with_env(s1, st.env), sl);
    lemma_decls1_records_envs(decls, st, sl);
    lemma_decls2_keeps_envs(decls, bodies, nenvs, with_env(s1, st.env), sl);
    lemma_lift_keeps_envs(body, with_env(s2, st.env), sl, true);
    let s3 = lift_v(body, with_env(s2, st.env), sl, true).1;
    assert forall|i: int| 0 <= i < decls.len() implies s3.envs.contains_key(#[trigger] decls[i].name)
        && s3.envs[decls[i].name] == st.env by {
        assert(s1.envs.contains_key(decls[i].name));
        assert(s2.envs.contains_key(decls[i].name));
        assert(!fun_defs(body).contains(decls[i].name));
    }
}

} // verus!

verus! {

/// `after` extends `before`, and every function added is named in `ns`.
pub open spec fn lifted_grows(before: Seq<DeclE>, after: Seq<DeclE>, ns: Set<Name>) -> bool {
    &&& before.len() <= after.len()
    &&& forall|k: int| 0 <= k < before.len() ==> #[trigger] after[k] == before[k]
    &&& forall|k: int| before.len() <= k < after.len() ==> ns.contains(#[trigger] after[k].name)
}

proof fn lemma_grows_trans(a: Seq<DeclE>, b: Seq<DeclE>, c: Seq<DeclE>, s: Set<Name>, t: Set<Name>)
    requires
        lifted_grows(a, b, s),
        lifted_grows(b, c, t),
    ensures
        lifted_grows(a, c, s + t),
{
    assert forall|k: int| 0 <= k < a.len() implies #[trigger] c[k] == a[k] by {
        assert(c[k] == b[k]);
    }
    assert forall|k: int| a.len() <= k < c.len() implies (s + t).contains(#[trigger] c[k].name) by {
        if k < b.len() {
            assert(c[k] == b[k]);
        }
    }
}

proof fn lemma_grows_widen(a: Seq<DeclE>, b: Seq<DeclE>, s: Set<Name>, t: Set<Name>)
    requires
        lifted_grows(a, b, s),
        s.subset_of(t),
    ensures
        lifted_grows(a, b, t),
{
}

/// The names of the groups of definitions nested in the bodies of `ds`.
pub open spec fn bodies_defs<A>(ds: Seq<DeclV<ExpV<A>, A>>) -> Set<Name>
    decreases ds,
{
    if ds.len() == 0 { Set::empty() } else { bodies_defs(ds.drop_last()) + fun_defs(ds.last().body) }
}

proof fn lemma_bodies_defs<A>(ds: Seq<DeclV<ExpV<A>, A>>, x: Name)
    ensures
        bodies_defs(ds).subset_of(decls_defs(ds)),
        bodies_defs(ds).contains(x) ==> exists|j: int| 0 <= j < ds.len() && fun_defs(#[trigger] ds[j].body).contains(x),
    decreases ds,
{
    if ds.len() > 0 {
        lemma_bodies_defs(ds.drop_last(), x);
        if bodies_defs(ds.drop_last()).contains(x) {
            let j = choose|j: int| 0 <= j < ds.drop_last().len() && fun_defs(#[trigger] ds.drop_last()[j].body).contains(x);
            assert(ds.drop_last()[j] == ds[j]);
        } else if fun_defs(ds.last().body).contains(x) {
            assert(ds[ds.len() - 1] == ds.last());
        }
    }
}

/// Lifting `e` only appends to the lifted functions, and only functions
/// that `e` defines.
proof fn lemma_lift_grows<A>(e: ExpV<A>, st: LiftSt, sl: Set<Name>, t: bool)
    ensures
        lifted_grows(st.lifted, lift_v(e, st, sl, t).1.lifted, fun_defs(e)),
    decreases e,
{
    if st.ok {
        match e {
            ExpV::Prim(_, es, _) => lemma_list_grows(es, st, sl),
            ExpV::Let { bindings, body, .. } => {
                let (bs, s1) = lift_bindings_v(bindings, st, sl);
                lemma_bindings_grows(bindings, st, sl);
                lemma_lift_grows(*body, s1, sl, t);
                lemma_grows_trans(st.lifted, s1.lifted, lift_v(*body, s1, sl, t).1.lifted, bindings_defs(bindings), fun_defs(*body));
            },
            ExpV::If { cond, thn, els, .. } => {
                let (c, s1) = lift_v(*cond, st, sl, false);
                lemma_lift_grows(*cond, st, sl, false);
                let (a, s2) = lift_v(*thn, with_env(s1, st.env), sl, t);
                lemma_lift_grows(*thn, with_env(s1, st.env), sl, t);
                let s3 = lift_v(*els, with_env(s2, st.env), sl, t).1;
                lemma_lift_grows(*els, with_env(s2, st.env), sl, t);
                lemma_grows_trans(st.lifted, s1.lifted, s2.lifted, fun_defs(*cond), fun_defs(*thn));
                lemma_grows_trans(st.lifted, s2.lifted, s3.lifted, fun_defs(*cond) + fun_defs(*thn), fun_defs(*els));
            },
            ExpV::FunDefs { decls, body, .. } => {
                let (bodies, nenvs, s1) = lift_decls1_v(decls, st, sl);
                lemma_decls1_grows(decls, st, sl);
                let (kept, s2) = lift_decls2_v(decls, bodies, nenvs, with_env(s1, st.env), sl);
                lemma_decls2_grows(decls, bodies, nenvs, with_env(s1, st.env), sl);
                let s3 = lift_v(*body, with_env(s2, st.env), sl, true).1;
                lemma_lift_grows(*body, with_env(s2, st.env), sl, true);
                lemma_grows_trans(st.lifted, s1.lifted, s2.lifted, bodies_defs(decls), decls_defs(decls));
                lemma_grows_trans(st.lifted, s2.lifted, s3.lifted, bodies_defs(decls) + decls_defs(decls), fun_defs(*body));
                lemma_bodies_defs(decls, Name::empty());
                lemma_grows_widen(st.lifted, s3.lifted, bodies_defs(decls) + decls_defs(decls) + fun_defs(*body), fun_defs(e));
            },
            ExpV::Call(_, args, _) => lemma_args_grows(args, st, sl),
            _ => {},
        }
    }
}

proof fn lemma_list_grows<A>(es: Seq<ExpV<A>>, st: LiftSt, sl: Set<Name>)
    ensures
        lifted_grows(st.lifted, lift_list_v(es, st, sl).1.lifted, list_defs(es)),
    decreases es,
{
    if st.ok && es.len() > 0 {
        let (xs, s1) = lift_list_v(es.drop_last(), st, sl);
        lemma_list_grows(es.drop_last(), st, sl);
        lemma_lift_grows(es.last(), s1, sl, false);
        lemma_grows_trans(st.lifted, s1.lifted, lift_v(es.last(), s1, sl, false).1.lifted, list_defs(es.drop_last()), fun_defs(es.last()));
    }
}

proof fn lemma_args_grows<A>(es: Seq<ExpV<A>>, st: LiftSt, sl: Set<Name>)
    ensures
        lifted_grows(st.lifted, lift_args_v(es, st, sl).1.lifted, list_defs(es)),
    decreases es,
{
    if st.ok && es.len() > 0 {
        let (xs, s1) = lift_args_v(es.drop_last(), st, sl);
        lemma_args_grows(es.drop_last(), st, sl);
        lemma_lift_grows(es.last(), s1, sl, false);
        lemma_grows_trans(st.lifted, s1.lifted, lift_v(es.last(), s1, sl, false).1.lifted, list_defs(es.drop_last()), fun_defs(es.last()));
    }
}

proof fn lemma_bindings_grows<A>(bs: Seq<(Name, ExpV<A>)>, st: LiftSt, sl: Set<Name>)
    ensures
        lifted_grows(st.lifted, lift_bindings_v(bs, st, sl).1.lifted, bindings_defs(bs)),
    decreases bs,
{
    if st.ok && bs.len() > 0 {
        let (ys, s1) = lift_bindings_v(bs.drop_last(), st, sl);
        lemma_bindings_grows(bs.drop_last(), st, sl);
        lemma_lift_grows(bs.last().1, s1, sl, false);
        lemma_grows_trans(st.lifted, s1.lifted, lift_v(bs.last().1, s1, sl, false).1.lifted, bindings_defs(bs.drop_last()), fun_defs(bs.last().1));
    }
}

proof fn lemma_decls1_grows<A>(ds: Seq<DeclV<ExpV<A>, A>>, st: LiftSt, sl: Set<Name>)
    ensures
        lifted_grows(st.lifted, lift_decls1_v(ds, st, sl).2.lifted, bodies_defs(ds)),
    decreases ds,
{
    if st.ok && ds.len() > 0 {
        let (bodies, nenvs, s1) = lift_decls1_v(ds.drop_last(), st, sl);
        lemma_decls1_grows(ds.drop_last(), st, sl);
        let d = ds.last();
        let s1a = LiftSt { envs: s1.envs.insert(d.name, s1.env), ok: s1.ok && s1.env.no_duplicates(), ..s1 };
        lemma_lift_grows(d.body, with_env(s1a, s1.env + d.parameters), sl, true);
        let s2 = lift_v(d.body, with_env(s1a, s1.env + d.parameters), sl, true).1;
        lemma_grows_trans(st.lifted, s1.lifted, s2.lifted, bodies_defs(ds.drop_last()), fun_defs(d.body));
    }
}

proof fn lemma_decls2_grows<A>(
    ds: Seq<DeclV<ExpV<A>, A>>,
    bodies: Seq<ExpV<()>>,
    nenvs: Seq<Seq<Name>>,
    st: LiftSt,
    sl: Set<Name>,
)
    ensures
        lifted_grows(st.lifted, lift_decls2_v(ds, bodies, nenvs, st, sl).1.lifted, decls_defs(ds)),
    decreases ds.len(),
{
    if st.ok && ds.len() > 0 {
        let (kept, s1) = lift_decls2_v(ds.drop_last(), bodies, nenvs, st, sl);
        lemma_decls2_grows(ds.drop_last(), bodies, nenvs, st, sl);
        lemma_grows_widen(st.lifted, s1.lifted, decls_defs(ds.drop_last()), decls_defs(ds));
        let r = lift_decls2_v(ds, bodies, nenvs, st, sl).1;
        if sl.contains(ds.last().name) {
            assert(r.lifted == s1.lifted.push(r.lifted.last()));
            assert(lifted_grows(s1.lifted, r.lifted, set![ds.last().name]));
            lemma_grows_trans(st.lifted, s1.lifted, r.lifted, decls_defs(ds), set![ds.last().name]);
            lemma_grows_widen(st.lifted, r.lifted, decls_defs(ds) + set![ds.last().name], decls_defs(ds));
        }
    }
}

} // verus!

verus! {

/// `entry` is a function of `ds` in `sl`, with `env` then its parameters.
pub open spec fn from_group<A>(ds: Seq<DeclV<ExpV<A>, A>>, env: Seq<Name>, sl: Set<Name>, entry: (Name, Seq<Name>)) -> bool {
    exists|j: int| #![trigger ds[j]] 0 <= j < ds.len() && sl.contains(ds[j].name) && entry == (ds[j].name, env + ds[j].parameters)
}

proof fn lemma_group_lifted_push<A>(ds: Seq<DeclV<ExpV<A>, A>>, env: Seq<Name>, sl: Set<Name>)
    requires
        ds.len() > 0,
    ensures
        group_lifted(ds, env, sl) == if sl.contains(ds.last().name) {
            group_lifted(ds.drop_last(), env, sl).push((ds.last().name, env + ds.last().parameters))
        } else {
            group_lifted(ds.drop_last(), env, sl)
        },
{
}

proof fn lemma_group_lifted_from<A>(ds: Seq<DeclV<ExpV<A>, A>>, env: Seq<Name>, sl: Set<Name>, m: int)
    requires
        0 <= m < group_lifted(ds, env, sl).len(),
    ensures
        from_group(ds, env, sl, group_lifted(ds, env, sl)[m]),
    decreases ds.len(),
{
    let pre = ds.drop_last();
    let n = ds.len() - 1;
    lemma_group_lifted_push(ds, env, sl);
    let g0 = group_lifted(pre, env, sl);
    if m < g0.len() {
        lemma_group_lifted_from(pre, env, sl, m);
        let j = choose|j: int| #![trigger pre[j]] 0 <= j < pre.len() && sl.contains(pre[j].name) && g0[m] == (pre[j].name, env + pre[j].parameters);
        assert(pre[j] == ds[j]);
    } else {
        assert(ds[n] == ds.last());
    }
}

proof fn lemma_group_lifted_has<A>(ds: Seq<DeclV<ExpV<A>, A>>, env: Seq<Name>, sl: Set<Name>, j: int)
    requires
        0 <= j < ds.len(),
        sl.contains(ds[j].name),
    ensures
        exists|m: int| 0 <= m < group_lifted(ds, env, sl).len() && group_lifted(ds, env, sl)[m].0 == ds[j].name,
    decreases ds.len(),
{
    let pre = ds.drop_last();
    let n = ds.len() - 1;
    lemma_group_lifted_push(ds, env, sl);
    let g0 = group_lifted(pre, env, sl);
    let g = group_lifted(ds, env, sl);
    if j < n {
        assert(pre[j] == ds[j]);
        lemma_group_lifted_has(pre, env, sl, j);
        let m = choose|m: int| 0 <= m < g0.len() && g0[m].0 == pre[j].name;
        assert(g[m] == g0[m]);
    } else {
        assert(g[g.len() - 1] == (ds[n].name, env + ds[n].parameters));
    }
}

proof fn lemma_group_lifted_distinct<A>(ds: Seq<DeclV<ExpV<A>, A>>, env: Seq<Name>, sl: Set<Name>, m1: int, m2: int)
    requires
        forall|i: int, j: int| 0 <= i < j < ds.len() ==> ds[i].name != ds[j].name,
        0 <= m1 < m2 < group_lifted(ds, env, sl).len(),
    ensures
        group_lifted(ds, env, sl)[m1].0 != group_lifted(ds, env, sl)[m2].0,
    decreases ds.len(),
{
    let pre = ds.drop_last();
    let n = ds.len() - 1;
    lemma_group_lifted_push(ds, env, sl);
    let g0 = group_lifted(pre, env, sl);
    let g = group_lifted(ds, env, sl);
    if m2 < g0.len() {
        assert forall|i: int, j: int| 0 <= i < j < pre.len() implies pre[i].name != pre[j].name by {
            assert(pre[i] == ds[i] && pre[j] == ds[j]);
        }
        lemma_group_lifted_distinct(pre, env, sl, m1, m2);
        assert(g[m1] == g0[m1] && g[m2] == g0[m2]);
    } else {
        assert(g[m1] == g0[m1]);
        lemma_group_lifted_from(pre, env, sl, m1);
        let j = choose|j: int| #![trigger pre[j]] 0 <= j < pre.len() && sl.contains(pre[j].name) && g0[m1] == (pre[j].name, env + pre[j].parameters);
        assert(pre[j] == ds[j]);
        assert(g[m2] == (ds[n].name, env + ds[n].parameters));
    }
}

proof fn lemma_group_lifted_facts<A>(ds: Seq<DeclV<ExpV<A>, A>>, env: Seq<Name>, sl: Set<Name>)
    requires
        forall|i: int, j: int| 0 <= i < j < ds.len() ==> ds[i].name != ds[j].name,
    ensures
        forall|m: int| 0 <= m < group_lifted(ds, env, sl).len() ==> from_group(ds, env, sl, #[trigger] group_lifted(ds, env, sl)[m]),
        forall|j: int| 0 <= j < ds.len() && sl.contains(#[trigger] ds[j].name) ==> exists|m: int|
            0 <= m < group_lifted(ds, env, sl).len() && group_lifted(ds, env, sl)[m].0 == ds[j].name,
        forall|m1: int, m2: int| 0 <= m1 < m2 < group_lifted(ds, env, sl).len()
            ==> #[trigger] group_lifted(ds, env, sl)[m1].0 != #[trigger] group_lifted(ds, env, sl)[m2].0,
{
    assert forall|m: int| 0 <= m < group_lifted(ds, env, sl).len() implies from_group(ds, env, sl, #[trigger] group_lifted(ds, env, sl)[m]) by {
        lemma_group_lifted_from(ds, env, sl, m);
    }
    assert forall|j: int| 0 <= j < ds.len() && sl.contains(#[trigger] ds[j].name) implies exists|m: int|
        0 <= m < group_lifted(ds, env, sl).len() && group_lifted(ds, env, sl)[m].0 == ds[j].name by {
        lemma_group_lifted_has(ds, env, sl, j);
    }
    assert forall|m1: int, m2: int| 0 <= m1 < m2 < group_lifted(ds, env, sl).len()
        implies #[trigger] group_lifted(ds, env, sl)[m1].0 != #[trigger] group_lifted(ds, env, sl)[m2].0 by {
        lemma_group_lifted_distinct(ds, env, sl, m1, m2);
    }
}

/// No function already lifted has the name of a function of the group.
pub open spec fn group_fresh<A>(decls: Seq<DeclV<ExpV<A>, A>>, lifted: Seq<DeclE>) -> bool {
    forall|i: int, k: int| 0 <= i < decls.len() && 0 <= k < lifted.len() ==> #[trigger] lifted[k].name != #[trigger] decls[i].name
}

/// The state once the declarations of a group are processed, before its body.
pub open spec fn after_group_decls<A>(decls: Seq<DeclV<ExpV<A>, A>>, st: LiftSt, sl: Set<Name>) -> LiftSt {
    let (bodies, nenvs, s1) = lift_decls1_v(decls, st, sl);
    with_env(lift_decls2_v(decls, bodies, nenvs, with_env(s1, st.env), sl).1, st.env)
}

/// The lifted functions went from `before` to `after`: those of `before`
/// stay, in front; each function of the group in `sl` appears exactly once,
/// with `env` followed by its own parameters; no other function of the
/// group appears.
pub open spec fn lifted_as_group<A>(
    decls: Seq<DeclV<ExpV<A>, A>>,
    env: Seq<Name>,
    sl: Set<Name>,
    before: Seq<DeclE>,
    after: Seq<DeclE>,
) -> bool {
    &&& before.len() <= after.len()
    &&& forall|k: int| 0 <= k < before.len() ==> #[trigger] after[k] == before[k]
    &&& forall|i: int| 0 <= i < decls.len() ==> (sl.contains(#[trigger] decls[i].name)
        <==> exists|k: int| 0 <= k < after.len() && after[k].name == decls[i].name)
    &&& forall|i: int, k: int| 0 <= i < decls.len() && 0 <= k < after.len() && #[trigger] after[k].name == #[trigger] decls[i].name
        ==> after[k].parameters == env + decls[i].parameters
    &&& forall|i: int, k1: int, k2: int|
        #![trigger after[k1], after[k2], decls[i]]
        0 <= i < decls.len() && 0 <= k1 < after.len() && 0 <= k2 < after.len()
            && after[k1].name == decls[i].name && after[k2].name == decls[i].name
        ==> k1 == k2
}

/// What lifting a group of definitions `decls` with body `body` from state
/// `st` gives (result `res`, final state `s`): the functions lifted before
/// stay, in front; each function of `sl` appears exactly once among the
/// lifted functions, with the variables in scope at the group followed by
/// its own parameters, and no other function of the group appears there;
/// every function of the group has those variables recorded as its
/// environment; the others stay in a group around the lifted body, with
/// their own parameters, and when none stays the result is the lifted body.
pub open spec fn lifts_group<A>(
    decls: Seq<DeclV<ExpV<A>, A>>,
    body: ExpV<A>,
    st: LiftSt,
    sl: Set<Name>,
    res: ExpV<()>,
    s: LiftSt,
) -> bool {
    let b = lift_v(body, after_group_decls(decls, st, sl), sl, true).0;
    &&& lifted_as_group(decls, st.env, sl, st.lifted, s.lifted)
    &&& forall|i: int| 0 <= i < decls.len() ==> s.envs.contains_key(#[trigger] decls[i].name) && s.envs[decls[i].name] == st.env
    &&& group_kept(decls, sl).len() == 0 ==> res == b
    &&& group_kept(decls, sl).len() > 0 ==> (res matches ExpV::FunDefs { decls: ks, body: rb, .. }
        && ks.map_values(|d: DeclE| name_params(d)) == group_kept(decls, sl) && *rb == b)
}

} // verus!

verus! {

/// Lambda lifting a group of definitions does what `lifts_group` says,
/// when the group's names are distinct, reused by no nested group, and not
/// among the functions already lifted.
pub proof fn lemma_lifts_group<A>(decls: Seq<DeclV<ExpV<A>, A>>, body: ExpV<A>, ann: A, st: LiftSt, sl: Set<Name>, t: bool)
    requires
        lift_v(ExpV::FunDefs { decls, body: Box::new(body), ann }, st, sl, t).1.ok,
        group_names_apart(decls, body),
        group_fresh(decls, st.lifted),
    ensures
        lifts_group(
            decls,
            body,
            st,
            sl,
            lift_v(ExpV::FunDefs { decls, body: Box::new(body), ann }, st, sl, t).0,
            lift_v(ExpV::FunDefs { decls, body: Box::new(body), ann }, st, sl, t).1,
        ),
{
    let (bodies, nenvs, s1) = lift_decls1_v(decls, st, sl);
    let (kept, s2) = lift_decls2_v(decls, bodies, nenvs, with_env(s1, st.env), sl);
    let s3 = lift_v(body, with_env(s2, st.env), sl, true).1;
    let s = lift_v(ExpV::FunDefs { decls, body: Box::new(body), ann }, st, sl, t).1;
    assert(s.lifted == s3.lifted);
    lemma_lift_group(decls, body, ann, st, sl, t);
    lemma_lift_group_envs(decls, body, ann, st, sl, t);
    lemma_decls1_grows(decls, st, sl);
    lemma_lift_grows(body, with_env(s2, st.env), sl, true);
    let l1 = s1.lifted.len() as int;
    assert(s2.lifted.subrange(0, l1) == s1.lifted);
    lemma_group_slots(decls, body, st.env, sl, st.lifted, s1.lifted, s2.lifted, s.lifted);
    assert(kept.len() == group_kept(decls, sl).len());
}

} // verus!

verus! {

proof fn lemma_group_slot<A>(
    decls: Seq<DeclV<ExpV<A>, A>>,
    body: ExpV<A>,
    env: Seq<Name>,
    sl: Set<Name>,
    l0s: Seq<DeclE>,
    l1s: Seq<DeclE>,
    l2s: Seq<DeclE>,
    fin: Seq<DeclE>,
    i: int,
    k: int,
)
    requires
        group_names_apart(decls, body),
        group_fresh(decls, l0s),
        lifted_grows(l0s, l1s, bodies_defs(decls)),
        l1s.len() <= l2s.len(),
        forall|k: int| 0 <= k < l1s.len() ==> #[trigger] l2s[k] == l1s[k],
        group_lifted(decls, env, sl).len() == l2s.len() - l1s.len(),
        forall|m: int| 0 <= m < group_lifted(decls, env, sl).len()
            ==> #[trigger] group_lifted(decls, env, sl)[m] == name_params(l2s[l1s.len() + m]),
        forall|m: int| 0 <= m < group_lifted(decls, env, sl).len() ==> from_group(decls, env, sl, #[trigger] group_lifted(decls, env, sl)[m]),
        lifted_grows(l2s, fin, fun_defs(body)),
        0 <= i < decls.len(),
        0 <= k < fin.len(),
        fin[k].name == decls[i].name,
    ensures
        l1s.len() <= k < l2s.len(),
        sl.contains(decls[i].name),
        group_lifted(decls, env, sl)[k - l1s.len()] == (decls[i].name, env + decls[i].parameters),
        fin[k] == l2s[k],
{
    let gl = group_lifted(decls, env, sl);
    let l0 = l0s.len() as int;
    let l1 = l1s.len() as int;
    let l2 = l2s.len() as int;
    if k < l1 {
        assert(fin[k] == l2s[k]);
        assert(l2s[k] == l1s[k]);
        if k < l0 {
            assert(l1s[k] == l0s[k]);
        } else {
            assert(bodies_defs(decls).contains(l1s[k].name));
            lemma_bodies_defs(decls, decls[i].name);
            let j = choose|j: int| 0 <= j < decls.len() && fun_defs(#[trigger] decls[j].body).contains(decls[i].name);
        }
    } else if k >= l2 {
        assert(fun_defs(body).contains(fin[k].name));
    } else {
        assert(fin[k] == l2s[k]);
        let m = k - l1;
        assert(gl[m] == name_params(l2s[l1 + m]));
        assert(from_group(decls, env, sl, gl[m]));
        let j = choose|j: int| #![trigger decls[j]] 0 <= j < decls.len() && sl.contains(decls[j].name) && gl[m] == (decls[j].name, env + decls[j].parameters);
        if j < i {
            assert(decls[j].name != decls[i].name);
        } else if i < j {
            assert(decls[i].name != decls[j].name);
        }
    }
}

proof fn lemma_group_found<A>(
    decls: Seq<DeclV<ExpV<A>, A>>,
    body: ExpV<A>,
    env: Seq<Name>,
    sl: Set<Name>,
    l0s: Seq<DeclE>,
    l1s: Seq<DeclE>,
    l2s: Seq<DeclE>,
    fin: Seq<DeclE>,
)
    requires
        group_names_apart(decls, body),
        group_fresh(decls, l0s),
        lifted_grows(l0s, l1s, bodies_defs(decls)),
        l1s.len() <= l2s.len(),
        forall|k: int| 0 <= k < l1s.len() ==> #[trigger] l2s[k] == l1s[k],
        group_lifted(decls, env, sl).len() == l2s.len() - l1s.len(),
        forall|m: int| 0 <= m < group_lifted(decls, env, sl).len()
            ==> #[trigger] group_lifted(decls, env, sl)[m] == name_params(l2s[l1s.len() + m]),
        forall|m: int| 0 <= m < group_lifted(decls, env, sl).len() ==> from_group(decls, env, sl, #[trigger] group_lifted(decls, env, sl)[m]),
        forall|j: int| 0 <= j < decls.len() && sl.contains(#[trigger] decls[j].name) ==> exists|m: int|
            0 <= m < group_lifted(decls, env, sl).len() && group_lifted(decls, env, sl)[m].0 == decls[j].name,
        forall|m1: int, m2: int| 0 <= m1 < m2 < group_lifted(decls, env, sl).len()
            ==> #[trigger] group_lifted(decls, env, sl)[m1].0 != #[trigger] group_lifted(decls, env, sl)[m2].0,
        lifted_grows(l2s, fin, fun_defs(body)),
    ensures
        forall|i: int| 0 <= i < decls.len() ==> (sl.contains(#[trigger] decls[i].name)
            <==> exists|k: int| 0 <= k < fin.len() && fin[k].name == decls[i].name),
{
    let gl = group_lifted(decls, env, sl);
    let l1 = l1s.len() as int;
    assert forall|i: int| 0 <= i < decls.len() implies (sl.contains(#[trigger] decls[i].name)
        <==> exists|k: int| 0 <= k < fin.len() && fin[k].name == decls[i].name) by {
        if sl.contains(decls[i].name) {
            let m = choose|m: int| 0 <= m < gl.len() && gl[m].0 == decls[i].name;
            assert(gl[m] == name_params(l2s[l1 + m]));
            assert(fin[l1 + m] == l2s[l1 + m]);
            assert(fin[l1 + m].name == decls[i].name);
        } else {
            if exists|k: int| 0 <= k < fin.len() && fin[k].name == decls[i].name {
                let k = choose|k: int| 0 <= k < fin.len() && fin[k].name == decls[i].name;
                lemma_group_slot(decls, body, env, sl, l0s, l1s, l2s, fin, i, k);
            }
        }
    }
}

proof fn lemma_group_once<A>(
    decls: Seq<DeclV<ExpV<A>, A>>,
    body: ExpV<A>,
    env: Seq<Name>,
    sl: Set<Name>,
    l0s: Seq<DeclE>,
    l1s: Seq<DeclE>,
    l2s: Seq<DeclE>,
    fin: Seq<DeclE>,
)
    requires
        group_names_apart(decls, body),
        group_fresh(decls, l0s),
        lifted_grows(l0s, l1s, bodies_defs(decls)),
        l1s.len() <= l2s.len(),
        forall|k: int| 0 <= k < l1s.len() ==> #[trigger] l2s[k] == l1s[k],
        group_lifted(decls, env, sl).len() == l2s.len() - l1s.len(),
        forall|m: int| 0 <= m < group_lifted(decls, env, sl).len()
            ==> #[trigger] group_lifted(decls, env, sl)[m] == name_params(l2s[l1s.len() + m]),
        forall|m: int| 0 <= m < group_lifted(decls, env, sl).len() ==> from_group(decls, env, sl, #[trigger] group_lifted(decls, env, sl)[m]),
        forall|j: int| 0 <= j < decls.len() && sl.contains(#[trigger] decls[j].name) ==> exists|m: int|
            0 <= m < group_lifted(decls, env, sl).len() && group_lifted(decls, env, sl)[m].0 == decls[j].name,
        forall|m1: int, m2: int| 0 <= m1 < m2 < group_lifted(decls, env, sl).len()
            ==> #[trigger] group_lifted(decls, env, sl)[m1].0 != #[trigger] group_lifted(decls, env, sl)[m2].0,
        lifted_grows(l2s, fin, fun_defs(body)),
    ensures
        forall|i: int, k1: int, k2: int|
            #![trigger fin[k1], fin[k2], decls[i]]
            0 <= i < decls.len() && 0 <= k1 < fin.len() && 0 <= k2 < fin.len()
                && fin[k1].name == decls[i].name && fin[k2].name == decls[i].name
            ==> k1 == k2,
        forall|i: int, k: int| 0 <= i < decls.len() && 0 <= k < fin.len() && #[trigger] fin[k].name == #[trigger] decls[i].name
            ==> fin[k].parameters == env + decls[i].parameters,
{
    let gl = group_lifted(decls, env, sl);
    let l1 = l1s.len() as int;
    assert forall|i: int, k1: int, k2: int|
        #![trigger fin[k1], fin[k2], decls[i]]
        0 <= i < decls.len() && 0 <= k1 < fin.len() && 0 <= k2 < fin.len()
            && fin[k1].name == decls[i].name && fin[k2].name == decls[i].name
        implies k1 == k2 by {
        lemma_group_slot(decls, body, env, sl, l0s, l1s, l2s, fin, i, k1);
        lemma_group_slot(decls, body, env, sl, l0s, l1s, l2s, fin, i, k2);
        if k1 < k2 {
            assert(gl[k1 - l1].0 != gl[k2 - l1].0);
        } else if k2 < k1 {
            assert(gl[k2 - l1].0 != gl[k1 - l1].0);
        }
    }
    assert forall|i: int, k: int| 0 <= i < decls.len() && 0 <= k < fin.len() && #[trigger] fin[k].name == #[trigger] decls[i].name
        implies fin[k].parameters == env + decls[i].parameters by {
        lemma_group_slot(decls, body, env, sl, l0s, l1s, l2s, fin, i, k);
        assert(gl[k - l1] == name_params(l2s[l1 + (k - l1)]));
    }
}

proof fn lemma_group_slots<A>(
    decls: Seq<DeclV<ExpV<A>, A>>,
    body: ExpV<A>,
    env: Seq<Name>,
    sl: Set<Name>,
    l0s: Seq<DeclE>,
    l1s: Seq<DeclE>,
    l2s: Seq<DeclE>,
    fin: Seq<DeclE>,
)
    requires
        group_names_apart(decls, body),
        group_fresh(decls, l0s),
        lifted_grows(l0s, l1s, bodies_defs(decls)),
        l1s.len() <= l2s.len(),
        l2s.subrange(0, l1s.len() as int) == l1s,
        l2s.subrange(l1s.len() as int, l2s.len() as int).map_values(|d: DeclE| name_params(d)) == group_lifted(decls, env, sl),
        lifted_grows(l2s, fin, fun_defs(body)),
    ensures
        lifted_as_group(decls, env, sl, l0s, fin),
{
    lemma_group_lifted_facts(decls, env, sl);
    let gl = group_lifted(decls, env, sl);
    let l1 = l1s.len() as int;
    let l2 = l2s.len() as int;
    let seg = l2s.subrange(l1, l2);
    assert(seg.map_values(|d: DeclE| name_params(d)).len() == gl.len());
    assert forall|m: int| 0 <= m < gl.len() implies #[trigger] gl[m] == name_params(l2s[l1 + m]) by {
        assert(seg.map_values(|d: DeclE| name_params(d))[m] == name_params(seg[m]));
    }
    assert forall|k: int| 0 <= k < l1 implies #[trigger] l2s[k] == l1s[k] by {
        assert(l2s.subrange(0, l1)[k] == l2s[k]);
    }
    lemma_group_found(decls, body, env, sl, l0s, l1s, l2s, fin);
    lemma_group_once(decls, body, env, sl, l0s, l1s, l2s, fin);
    assert forall|k: int| 0 <= k < l0s.len() implies #[trigger] fin[k] == l0s[k] by {
        assert(fin[k] == l2s[k]);
        assert(l2s[k] == l1s[k]);
    }
}

} // verus!
