use vstd::prelude::*;

use crate::names::NameSet;
use crate::syntax::{DeclV, Exp, ExpV, FunDecl, Name, exp_view, boxed_exps_view, bindings_view, decls_view, exps_view};

verus! {

broadcast use crate::syntax::group_views;

/// `e` is a surface program: it holds no call form that only later passes introduce.
pub open spec fn is_surface<A>(e: ExpV<A>) -> bool
    decreases e,
{
    match e {
        ExpV::Num(..) | ExpV::Bool(..) | ExpV::Float(..) | ExpV::Var(..) => true,
        ExpV::Prim(_, es, _) => surface_list(es),
        ExpV::Let { bindings, body, .. } => surface_bindings(bindings) && is_surface(*body),
        ExpV::If { cond, thn, els, .. } => is_surface(*cond) && is_surface(*thn) && is_surface(*els),
        ExpV::FunDefs { decls, body, .. } => surface_decls(decls) && is_surface(*body),
        ExpV::Call(_, args, _) => surface_list(args),
        ExpV::InternalTailCall(..) | ExpV::ExternalCall { .. } => false,
    }
}

pub open spec fn surface_list<A>(es: Seq<ExpV<A>>) -> bool
    decreases es,
{
    es.len() == 0 || (surface_list(es.drop_last()) && is_surface(es.last()))
}

pub open spec fn surface_bindings<A>(bs: Seq<(Name, ExpV<A>)>) -> bool
    decreases bs,
{
    bs.len() == 0 || (surface_bindings(bs.drop_last()) && is_surface(bs.last().1))
}

pub open spec fn surface_decls<A>(ds: Seq<DeclV<ExpV<A>, A>>) -> bool
    decreases ds,
{
    ds.len() == 0 || (surface_decls(ds.drop_last()) && is_surface(ds.last().body))
}

pub proof fn lemma_surface_list<A>(es: Seq<ExpV<A>>)
    requires
        surface_list(es),
    ensures
        forall|i: int| 0 <= i < es.len() ==> is_surface(#[trigger] es[i]),
    decreases es.len(),
{
    if es.len() > 0 {
        lemma_surface_list(es.drop_last());
        assert forall|i: int| 0 <= i < es.len() implies is_surface(#[trigger] es[i]) by {
            if i < es.len() - 1 {
                assert(es[i] == es.drop_last()[i]);
            }
        }
    }
}

pub proof fn lemma_surface_bindings<A>(bs: Seq<(Name, ExpV<A>)>)
    requires
        surface_bindings(bs),
    ensures
        forall|i: int| 0 <= i < bs.len() ==> is_surface(#[trigger] bs[i].1),
    decreases bs.len(),
{
    if bs.len() > 0 {
        lemma_surface_bindings(bs.drop_last());
        assert forall|i: int| 0 <= i < bs.len() implies is_surface(#[trigger] bs[i].1) by {
            if i < bs.len() - 1 {
                assert(bs[i] == bs.drop_last()[i]);
            }
        }
    }
}

pub proof fn lemma_surface_decls<A>(ds: Seq<DeclV<ExpV<A>, A>>)
    requires
        surface_decls(ds),
    ensures
        forall|i: int| 0 <= i < ds.len() ==> is_surface(#[trigger] ds[i].body),
    decreases ds.len(),
{
    if ds.len() > 0 {
        lemma_surface_decls(ds.drop_last());
        assert forall|i: int| 0 <= i < ds.len() implies is_surface(#[trigger] ds[i].body) by {
            if i < ds.len() - 1 {
                assert(ds[i] == ds.drop_last()[i]);
            }
        }
    }
}

/// `e`, in tail position when `is_tail`, calls `n` somewhere outside tail position.
pub open spec fn calls_non_tail<A>(e: ExpV<A>, is_tail: bool, n: Name) -> bool
    decreases e,
{
    match e {
        ExpV::Prim(_, es, _) => calls_list(es, false, n),
        ExpV::Let { bindings, body, .. } => calls_bindings(bindings, n) || calls_non_tail(*body, is_tail, n),
        ExpV::If { cond, thn, els, .. } =>
            calls_non_tail(*cond, false, n) || calls_non_tail(*thn, is_tail, n) || calls_non_tail(*els, is_tail, n),
        ExpV::FunDefs { decls, body, .. } => calls_decls(decls, is_tail, n) || calls_non_tail(*body, true, n),
        ExpV::Call(f, args, _) => (!is_tail && f == n) || calls_list(args, false, n),
        _ => false,
    }
}

pub open spec fn calls_list<A>(es: Seq<ExpV<A>>, t: bool, n: Name) -> bool
    decreases es,
{
    es.len() > 0 && (calls_list(es.drop_last(), t, n) || calls_non_tail(es.last(), t, n))
}

pub open spec fn calls_bindings<A>(bs: Seq<(Name, ExpV<A>)>, n: Name) -> bool
    decreases bs,
{
    bs.len() > 0 && (calls_bindings(bs.drop_last(), n) || calls_non_tail(bs.last().1, false, n))
}

pub open spec fn calls_decls<A>(ds: Seq<DeclV<ExpV<A>, A>>, t: bool, n: Name) -> bool
    decreases ds,
{
    ds.len() > 0 && (calls_decls(ds.drop_last(), t, n) || calls_non_tail(ds.last().body, t, n))
}

/// The names of the functions that `e` calls outside tail position.
pub open spec fn non_tail_calls<A>(e: ExpV<A>, is_tail: bool) -> Set<Name> {
    Set::new(|n: Name| calls_non_tail(e, is_tail, n))
}

fn lift_list_boxed<Ann>(exps: &Vec<Box<Exp<Ann>>>, hashset: &mut NameSet)
    requires
        surface_list(boxed_exps_view(exps@)),
    ensures
        final(hashset)@ == old(hashset)@.union(Set::new(|n: Name| calls_list(boxed_exps_view(exps@), false, n))),
    decreases exps, 0nat,
{
    let ghost es = boxed_exps_view(exps@);
    proof { lemma_surface_list(es); }
    assert(old(hashset)@ =~= old(hashset)@.union(Set::new(|n: Name| calls_list(es.take(0), false, n))));
    let mut i: usize = 0;
    while i < exps.len()
        invariant
            i <= exps.len(),
            es == boxed_exps_view(exps@),
            forall|k: int| 0 <= k < es.len() ==> is_surface(#[trigger] es[k]),
            hashset@ == old(hashset)@.union(Set::new(|n: Name| calls_list(es.take(i as int), false, n))),
        decreases exps.len() - i,
    {
        proof { crate::syntax::lemma_boxed_exps_view(exps@); }
        assert(es[i as int] == exp_view(*exps@[i as int]));
        should_lift_helper(&exps[i], hashset, false);
        assert(es.take(i + 1).drop_last() =~= es.take(i as int));
        assert(hashset@ =~= old(hashset)@.union(Set::new(|n: Name| calls_list(es.take(i + 1), false, n))));
        i += 1;
    }
    assert(es.take(exps.len() as int) =~= es);
}

fn lift_list<Ann>(exps: &Vec<Exp<Ann>>, hashset: &mut NameSet)
    requires
        surface_list(exps_view(exps@)),
    ensures
        final(hashset)@ == old(hashset)@.union(Set::new(|n: Name| calls_list(exps_view(exps@), false, n))),
    decreases exps, 0nat,
{
    let ghost es = exps_view(exps@);
    proof { lemma_surface_list(es); }
    assert(old(hashset)@ =~= old(hashset)@.union(Set::new(|n: Name| calls_list(es.take(0), false, n))));
    let mut i: usize = 0;
    while i < exps.len()
        invariant
            i <= exps.len(),
            es == exps_view(exps@),
            forall|k: int| 0 <= k < es.len() ==> is_surface(#[trigger] es[k]),
            hashset@ == old(hashset)@.union(Set::new(|n: Name| calls_list(es.take(i as int), false, n))),
        decreases exps.len() - i,
    {
        proof { crate::syntax::lemma_exps_view(exps@); }
        assert(es[i as int] == exp_view(exps@[i as int]));
        should_lift_helper(&exps[i], hashset, false);
        assert(es.take(i + 1).drop_last() =~= es.take(i as int));
        assert(hashset@ =~= old(hashset)@.union(Set::new(|n: Name| calls_list(es.take(i + 1), false, n))));
        i += 1;
    }
    assert(es.take(exps.len() as int) =~= es);
}

fn lift_bindings<Ann>(bindings: &Vec<(String, Exp<Ann>)>, hashset: &mut NameSet)
    requires
        surface_bindings(bindings_view(bindings@)),
    ensures
        final(hashset)@ == old(hashset)@.union(Set::new(|n: Name| calls_bindings(bindings_view(bindings@), n))),
    decreases bindings, 0nat,
{
    let ghost bs = bindings_view(bindings@);
    proof { lemma_surface_bindings(bs); }
    assert(old(hashset)@ =~= old(hashset)@.union(Set::new(|n: Name| calls_bindings(bs.take(0), n))));
    let mut i: usize = 0;
    while i < bindings.len()
        invariant
            i <= bindings.len(),
            bs == bindings_view(bindings@),
            forall|k: int| 0 <= k < bs.len() ==> is_surface(#[trigger] bs[k].1),
            hashset@ == old(hashset)@.union(Set::new(|n: Name| calls_bindings(bs.take(i as int), n))),
        decreases bindings.len() - i,
    {
        assert(bs[i as int].1 == exp_view(bindings@[i as int].1));
        should_lift_helper(&bindings[i].1, hashset, false);
        assert(bs.take(i + 1).drop_last() =~= bs.take(i as int));
        assert(hashset@ =~= old(hashset)@.union(Set::new(|n: Name| calls_bindings(bs.take(i + 1), n))));
        i += 1;
    }
    assert(bs.take(bindings.len() as int) =~= bs);
}

fn lift_decls<Ann>(decls: &Vec<FunDecl<Exp<Ann>, Ann>>, hashset: &mut NameSet, is_tail: bool)
    requires
        surface_decls(decls_view(decls@)),
    ensures
        final(hashset)@ == old(hashset)@.union(Set::new(|n: Name| calls_decls(decls_view(decls@), is_tail, n))),
    decreases decls, 0nat,
{
    let ghost ds = decls_view(decls@);
    proof { lemma_surface_decls(ds); }
    assert(old(hashset)@ =~= old(hashset)@.union(Set::new(|n: Name| calls_decls(ds.take(0), is_tail, n))));
    let mut i: usize = 0;
    while i < decls.len()
        invariant
            i <= decls.len(),
            ds == decls_view(decls@),
            forall|k: int| 0 <= k < ds.len() ==> is_surface(#[trigger] ds[k].body),
            hashset@ == old(hashset)@.union(Set::new(|n: Name| calls_decls(ds.take(i as int), is_tail, n))),
        decreases decls.len() - i,
    {
        proof { crate::syntax::lemma_decls_view(decls@); }
        assert(ds[i as int].body == exp_view(decls@[i as int].body));
        should_lift_helper(&decls[i].body, hashset, is_tail);
        assert(ds.take(i + 1).drop_last() =~= ds.take(i as int));
        assert(hashset@ =~= old(hashset)@.union(Set::new(|n: Name| calls_decls(ds.take(i + 1), is_tail, n))));
        i += 1;
    }
    assert(ds.take(decls.len() as int) =~= ds);
}

/// Adds to `hashset` the functions that `p` calls outside tail position;
/// `is_tail` says whether `p` itself stands in tail position.
pub fn should_lift_helper<Ann>(p: &Exp<Ann>, hashset: &mut NameSet, is_tail: bool)
    requires
        is_surface(exp_view(*p)),
    ensures
        final(hashset)@ == old(hashset)@.union(non_tail_calls(exp_view(*p), is_tail)),
    decreases p, 1nat,
{
    let ghost ev = exp_view(*p);
    match p {
        Exp::Prim(_, exps, _) => {
            lift_list_boxed(exps, hashset);
        },
        Exp::Let { bindings, body, .. } => {
            lift_bindings(bindings, hashset);
            should_lift_helper(body, hashset, is_tail);
        },
        Exp::If { cond, thn, els, .. } => {
            should_lift_helper(cond, hashset, false);
            should_lift_helper(thn, hashset, is_tail);
            should_lift_helper(els, hashset, is_tail);
        },
        Exp::FunDefs { decls, body, .. } => {
            lift_decls(decls, hashset, is_tail);
            should_lift_helper(body, hashset, true);
        },
        Exp::Call(fun_name, args, _) => {
            if !is_tail {
                hashset.insert(fun_name.clone());
            }
            lift_list(args, hashset);
        },
        Exp::Num(_, _) | Exp::Bool(_, _) | Exp::Var(_, _) | Exp::Float(_, _) => {},
        Exp::InternalTailCall(..) | Exp::ExternalCall { .. } => vstd::pervasive::unreached(),
    }
    assert(hashset@ =~= old(hashset)@.union(non_tail_calls(ev, is_tail)));
}

} // verus!

verus! {

/// Every call of `e` with whether it stands in tail position: `e` itself is
/// in tail position when `t`; let bodies, branches, definition bodies and
/// group bodies inherit the position of their node; operands, bound
/// expressions, conditions and arguments are never in tail position.
pub open spec fn call_sites<A>(e: ExpV<A>, t: bool) -> Seq<(Name, bool)>
    decreases e,
{
    match e {
        ExpV::Prim(_, es, _) => list_sites(es),
        ExpV::Let { bindings, body, .. } => bindings_sites(bindings) + call_sites(*body, t),
        ExpV::If { cond, thn, els, .. } => call_sites(*cond, false) + call_sites(*thn, t) + call_sites(*els, t),
        ExpV::FunDefs { decls, body, .. } => decls_sites(decls, t) + call_sites(*body, t),
        ExpV::Call(f, args, _) => seq![(f, t)] + list_sites(args),
        _ => Seq::empty(),
    }
}

pub open spec fn list_sites<A>(es: Seq<ExpV<A>>) -> Seq<(Name, bool)>
    decreases es,
{
    if es.len() == 0 { Seq::empty() } else { list_sites(es.drop_last()) + call_sites(es.last(), false) }
}

pub open spec fn bindings_sites<A>(bs: Seq<(Name, ExpV<A>)>) -> Seq<(Name, bool)>
    decreases bs,
{
    if bs.len() == 0 { Seq::empty() } else { bindings_sites(bs.drop_last()) + call_sites(bs.last().1, false) }
}

pub open spec fn decls_sites<A>(ds: Seq<DeclV<ExpV<A>, A>>, t: bool) -> Seq<(Name, bool)>
    decreases ds,
{
    if ds.len() == 0 { Seq::empty() } else { decls_sites(ds.drop_last(), t) + call_sites(ds.last().body, t) }
}

/// Every group of definitions in `e` stands in tail position.
pub open spec fn groups_in_tail<A>(e: ExpV<A>, t: bool) -> bool
    decreases e,
{
    match e {
        ExpV::Prim(_, es, _) => list_groups_in_tail(es),
        ExpV::Let { bindings, body, .. } => bindings_groups_in_tail(bindings) && groups_in_tail(*body, t),
        ExpV::If { cond, thn, els, .. } => groups_in_tail(*cond, false) && groups_in_tail(*thn, t) && groups_in_tail(*els, t),
        ExpV::FunDefs { decls, body, .. } => t && decls_groups_in_tail(decls, t) && groups_in_tail(*body, t),
        ExpV::Call(_, args, _) => list_groups_in_tail(args),
        _ => true,
    }
}

pub open spec fn list_groups_in_tail<A>(es: Seq<ExpV<A>>) -> bool
    decreases es,
{
    es.len() == 0 || (list_groups_in_tail(es.drop_last()) && groups_in_tail(es.last(), false))
}

pub open spec fn bindings_groups_in_tail<A>(bs: Seq<(Name, ExpV<A>)>) -> bool
    decreases bs,
{
    bs.len() == 0 || (bindings_groups_in_tail(bs.drop_last()) && groups_in_tail(bs.last().1, false))
}

pub open spec fn decls_groups_in_tail<A>(ds: Seq<DeclV<ExpV<A>, A>>, t: bool) -> bool
    decreases ds,
{
    ds.len() == 0 || (decls_groups_in_tail(ds.drop_last(), t) && groups_in_tail(ds.last().body, t))
}

proof fn lemma_contains_concat<T>(a: Seq<T>, b: Seq<T>, x: T)
    ensures
        (a + b).contains(x) == (a.contains(x) || b.contains(x)),
{
    if a.contains(x) {
        let i = choose|i: int| 0 <= i < a.len() && a[i] == x;
        assert((a + b)[i] == x);
    }
    if b.contains(x) {
        let i = choose|i: int| 0 <= i < b.len() && b[i] == x;
        assert((a + b)[a.len() + i] == x);
    }
    if (a + b).contains(x) {
        let i = choose|i: int| 0 <= i < (a + b).len() && (a + b)[i] == x;
        if i < a.len() {
            assert(a[i] == x);
        } else {
            assert(b[i - a.len()] == x);
        }
    }
}

/// When every group of definitions stands in tail position, the functions
/// that `should_lift_helper` collects are exactly those of the calls that
/// stand outside tail position.
pub proof fn lemma_non_tail_calls_are_call_sites<A>(e: ExpV<A>, t: bool, n: Name)
    requires
        groups_in_tail(e, t),
    ensures
        non_tail_calls(e, t).contains(n) == call_sites(e, t).contains((n, false)),
    decreases e,
{
    lemma_calls_sites(e, t, n);
}

proof fn lemma_calls_sites<A>(e: ExpV<A>, t: bool, n: Name)
    requires
        groups_in_tail(e, t),
    ensures
        calls_non_tail(e, t, n) == call_sites(e, t).contains((n, false)),
    decreases e,
{
    match e {
        ExpV::Prim(_, es, _) => lemma_list_sites(es, n),
        ExpV::Let { bindings, body, .. } => {
            lemma_bindings_sites(bindings, n);
            lemma_calls_sites(*body, t, n);
            lemma_contains_concat(bindings_sites(bindings), call_sites(*body, t), (n, false));
        },
        ExpV::If { cond, thn, els, .. } => {
            lemma_calls_sites(*cond, false, n);
            lemma_calls_sites(*thn, t, n);
            lemma_calls_sites(*els, t, n);
            lemma_contains_concat(call_sites(*cond, false), call_sites(*thn, t), (n, false));
            lemma_contains_concat(call_sites(*cond, false) + call_sites(*thn, t), call_sites(*els, t), (n, false));
        },
        ExpV::FunDefs { decls, body, .. } => {
            lemma_decls_sites(decls, t, n);
            lemma_calls_sites(*body, t, n);
            lemma_contains_concat(decls_sites(decls, t), call_sites(*body, t), (n, false));
        },
        ExpV::Call(f, args, _) => {
            lemma_list_sites(args, n);
            lemma_contains_concat(seq![(f, t)], list_sites(args), (n, false));
            assert(seq![(f, t)].contains((n, false)) == (!t && f == n)) by {
                if seq![(f, t)].contains((n, false)) {
                    let i = choose|i: int| 0 <= i < 1 && seq![(f, t)][i] == (n, false);
                }
                if !t && f == n {
                    assert(seq![(f, t)][0] == (n, false));
                }
            }
        },
        _ => {},
    }
}

proof fn lemma_list_sites<A>(es: Seq<ExpV<A>>, n: Name)
    requires
        list_groups_in_tail(es),
    ensures
        calls_list(es, false, n) == list_sites(es).contains((n, false)),
    decreases es,
{
    if es.len() > 0 {
        lemma_list_sites(es.drop_last(), n);
        lemma_calls_sites(es.last(), false, n);
        lemma_contains_concat(list_sites(es.drop_last()), call_sites(es.last(), false), (n, false));
    }
}

proof fn lemma_bindings_sites<A>(bs: Seq<(Name, ExpV<A>)>, n: Name)
    requires
        bindings_groups_in_tail(bs),
    ensures
        calls_bindings(bs, n) == bindings_sites(bs).contains((n, false)),
    decreases bs,
{
    if bs.len() > 0 {
        lemma_bindings_sites(bs.drop_last(), n);
        lemma_calls_sites(bs.last().1, false, n);
        lemma_contains_concat(bindings_sites(bs.drop_last()), call_sites(bs.last().1, false), (n, false));
    }
}

proof fn lemma_decls_sites<A>(ds: Seq<DeclV<ExpV<A>, A>>, t: bool, n: Name)
    requires
        decls_groups_in_tail(ds, t),
    ensures
        calls_decls(ds, t, n) == decls_sites(ds, t).contains((n, false)),
    decreases ds,
{
    if ds.len() > 0 {
        lemma_decls_sites(ds.drop_last(), t, n);
        lemma_calls_sites(ds.last().body, t, n);
        lemma_contains_concat(decls_sites(ds.drop_last(), t), call_sites(ds.last().body, t), (n, false));
    }
}

} // verus!
