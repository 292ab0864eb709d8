use vstd::prelude::*;

use crate::names::NameMap;
use crate::syntax::{
    DeclV, Exp, ExpV, FunDecl, ImmExp, Name, SeqExp, SeqExpV, SeqFunDecl, SurfProg,
    bindings_view, boxed_exps_view, decls_view, exp_view, exps_view, names_view,
    seq_decls_view, seq_view,
};
use crate::text::{lemma_suffixed_number, name_with_suffix, suffixed, trailing_number};

verus! {

broadcast use crate::syntax::group_views;

/// Result of tagging: the tagged value, the counter and name map after it,
/// and whether the pass runs without panicking (no counter overflow, every
/// renamed call finds its function).
pub struct TagOut<T> {
    pub val: T,
    pub counter: int,
    pub map: Map<Name, Name>,
    pub ok: bool,
}

/// One step of the counter: `c + 1`, defined when `c + 1` fits in a `u32`.
pub open spec fn bump_ok(c: int) -> bool {
    c + 1 <= u32::MAX
}

/// The name given to a function `f` defined when the counter is `c`.
pub open spec fn fun_name_at(f: Name, c: int) -> Name {
    suffixed("fun_"@ + f, c)
}

/// Tags every node of `e` with a fresh number in post-order, starting at `c`.
/// When `u` holds, let-bound variables, functions and parameters are renamed
/// apart (`x` becomes `x_<counter>`, `f` becomes `fun_f_<counter>`) and
/// uses are renamed through the map `m`.
pub open spec fn tag_v<S>(e: ExpV<S>, c: int, m: Map<Name, Name>, u: bool) -> TagOut<ExpV<u32>>
    decreases e,
{
    match e {
        ExpV::Num(n, _) => TagOut { val: ExpV::Num(n, c as u32), counter: c + 1, map: m, ok: bump_ok(c) },
        ExpV::Bool(b, _) => TagOut { val: ExpV::Bool(b, c as u32), counter: c + 1, map: m, ok: bump_ok(c) },
        ExpV::Float(f, _) => TagOut { val: ExpV::Float(f, c as u32), counter: c + 1, map: m, ok: bump_ok(c) },
        ExpV::Var(x, _) => TagOut {
            val: ExpV::Var(if u && m.contains_key(x) { m[x] } else { x }, c as u32),
            counter: c + 1,
            map: m,
            ok: bump_ok(c),
        },
        ExpV::Prim(p, es, _) => {
            let r = tag_list_v(es, c, m, u);
            TagOut { val: ExpV::Prim(p, r.val, r.counter as u32), counter: r.counter + 1, map: r.map, ok: r.ok && bump_ok(r.counter) }
        },
        ExpV::Let { bindings, body, .. } => {
            let r = tag_bindings_v(bindings, c, m, u);
            let b = tag_v(*body, r.counter, r.map, u);
            TagOut {
                val: ExpV::Let { bindings: r.val, body: Box::new(b.val), ann: b.counter as u32 },
                counter: b.counter + 1,
                map: b.map,
                ok: r.ok && b.ok && bump_ok(b.counter),
            }
        },
        ExpV::If { cond, thn, els, .. } => {
            let r1 = tag_v(*cond, c, m, u);
            let r2 = tag_v(*thn, r1.counter, r1.map, u);
            let r3 = tag_v(*els, r2.counter, r2.map, u);
            TagOut {
                val: ExpV::If { cond: Box::new(r1.val), thn: Box::new(r2.val), els: Box::new(r3.val), ann: r3.counter as u32 },
                counter: r3.counter + 1,
                map: r3.map,
                ok: r1.ok && r2.ok && r3.ok && bump_ok(r3.counter),
            }
        },
        ExpV::FunDefs { decls, body, .. } => {
            let r1 = tag_fun_names_v(decls, c, m);
            let r2 = tag_fun_bodies_v(decls, r1.val, r1.counter, r1.map, u);
            let r3 = tag_v(*body, r2.counter, r1.map, u);
            TagOut {
                val: ExpV::FunDefs { decls: r2.val, body: Box::new(r3.val), ann: r3.counter as u32 },
                counter: r3.counter + 1,
                map: r3.map,
                ok: r1.ok && r2.ok && r3.ok && bump_ok(r3.counter),
            }
        },
        ExpV::Call(f, args, _) => {
            let r = tag_list_v(args, c, m, u);
            TagOut {
                val: ExpV::Call(if u { r.map[f] } else { f }, r.val, r.counter as u32),
                counter: r.counter + 1,
                map: r.map,
                ok: r.ok && bump_ok(r.counter) && (u ==> r.map.contains_key(f)),
            }
        },
        ExpV::InternalTailCall(f, args, _) => {
            let r = tag_list_v(args, c, m, u);
            TagOut {
                val: ExpV::InternalTailCall(f, r.val, r.counter as u32),
                counter: r.counter + 1,
                map: r.map,
                ok: r.ok && bump_ok(r.counter) && !u,
            }
        },
        ExpV::ExternalCall { fun_name, args, is_tail, .. } => {
            let r = tag_list_v(args, c, m, u);
            TagOut {
                val: ExpV::ExternalCall { fun_name, args: r.val, is_tail, ann: r.counter as u32 },
                counter: r.counter + 1,
                map: r.map,
                ok: r.ok && bump_ok(r.counter) && !u,
            }
        },
    }
}

/// Tags a list of expressions from left to right, threading counter and map.
pub open spec fn tag_list_v<S>(es: Seq<ExpV<S>>, c: int, m: Map<Name, Name>, u: bool) -> TagOut<Seq<ExpV<u32>>>
    decreases es,
{
    if es.len() == 0 {
        TagOut { val: Seq::empty(), counter: c, map: m, ok: true }
    } else {
        let r = tag_list_v(es.drop_last(), c, m, u);
        let x = tag_v(es.last(), r.counter, r.map, u);
        TagOut { val: r.val.push(x.val), counter: x.counter, map: x.map, ok: r.ok && x.ok }
    }
}

/// Tags the bindings of a let; after its bound expression, each name `x` is
/// mapped to `x_<counter>`, which names the binding when `u` holds.
pub open spec fn tag_bindings_v<S>(bs: Seq<(Name, ExpV<S>)>, c: int, m: Map<Name, Name>, u: bool) -> TagOut<Seq<(Name, ExpV<u32>)>>
    decreases bs,
{
    if bs.len() == 0 {
        TagOut { val: Seq::empty(), counter: c, map: m, ok: true }
    } else {
        let r = tag_bindings_v(bs.drop_last(), c, m, u);
        let x = bs.last().0;
        let e = tag_v(bs.last().1, r.counter, r.map, u);
        let new_x = suffixed(x, e.counter);
        TagOut {
            val: r.val.push((if u { new_x } else { x }, e.val)),
            counter: e.counter,
            map: e.map.insert(x, new_x),
            ok: r.ok && e.ok,
        }
    }
}

/// Gives each function of a group its new name, one counter step each.
pub open spec fn tag_fun_names_v<S>(ds: Seq<DeclV<ExpV<S>, S>>, c: int, m: Map<Name, Name>) -> TagOut<Seq<Name>>
    decreases ds.len(),
{
    if ds.len() == 0 {
        TagOut { val: Seq::empty(), counter: c, map: m, ok: true }
    } else {
        let r = tag_fun_names_v(ds.drop_last(), c, m);
        let f = ds.last().name;
        let g = fun_name_at(f, r.counter);
        TagOut { val: r.val.push(g), counter: r.counter + 1, map: r.map.insert(f, g), ok: r.ok && bump_ok(r.counter) }
    }
}

/// Renames parameters, one counter step each.
pub open spec fn tag_params_v(ps: Seq<Name>, c: int, m: Map<Name, Name>) -> TagOut<Seq<Name>>
    decreases ps.len(),
{
    if ps.len() == 0 {
        TagOut { val: Seq::empty(), counter: c, map: m, ok: true }
    } else {
        let r = tag_params_v(ps.drop_last(), c, m);
        let q = suffixed(ps.last(), r.counter);
        TagOut { val: r.val.push(q), counter: r.counter + 1, map: r.map.insert(ps.last(), q), ok: r.ok && bump_ok(r.counter) }
    }
}

/// Tags the definitions of a group; each body sees the group's map extended
/// with its own parameters.
pub open spec fn tag_fun_bodies_v<S>(ds: Seq<DeclV<ExpV<S>, S>>, names: Seq<Name>, c: int, m: Map<Name, Name>, u: bool) -> TagOut<Seq<DeclV<ExpV<u32>, u32>>>
    decreases ds,
{
    if ds.len() == 0 {
        TagOut { val: Seq::empty(), counter: c, map: m, ok: true }
    } else {
        let r = tag_fun_bodies_v(ds.drop_last(), names, c, m, u);
        let d = ds.last();
        let p = tag_params_v(d.parameters, r.counter, m);
        let b = tag_v(d.body, p.counter, p.map, u);
        let nd = DeclV {
            name: if u { names[ds.len() - 1] } else { d.name },
            parameters: if u { p.val } else { d.parameters },
            body: b.val,
            ann: b.counter as u32,
        };
        TagOut { val: r.val.push(nd), counter: b.counter + 1, map: m, ok: r.ok && p.ok && b.ok && bump_ok(b.counter) }
    }
}

} // verus!

verus! {

proof fn lemma_tag_list_ok<S>(es: Seq<ExpV<S>>, i: int, c: int, m: Map<Name, Name>, u: bool)
    requires
        0 <= i <= es.len(),
        tag_list_v(es, c, m, u).ok,
    ensures
        tag_list_v(es.take(i), c, m, u).ok,
    decreases es.len() - i,
{
    if i < es.len() {
        assert(es.drop_last().take(i) =~= es.take(i));
        lemma_tag_list_ok(es.drop_last(), i, c, m, u);
    } else {
        assert(es.take(i) =~= es);
    }
}

proof fn lemma_tag_bindings_ok<S>(bs: Seq<(Name, ExpV<S>)>, i: int, c: int, m: Map<Name, Name>, u: bool)
    requires
        0 <= i <= bs.len(),
        tag_bindings_v(bs, c, m, u).ok,
    ensures
        tag_bindings_v(bs.take(i), c, m, u).ok,
    decreases bs.len() - i,
{
    if i < bs.len() {
        assert(bs.drop_last().take(i) =~= bs.take(i));
        lemma_tag_bindings_ok(bs.drop_last(), i, c, m, u);
    } else {
        assert(bs.take(i) =~= bs);
    }
}

proof fn lemma_tag_fun_names_ok<S>(ds: Seq<DeclV<ExpV<S>, S>>, i: int, c: int, m: Map<Name, Name>)
    requires
        0 <= i <= ds.len(),
        tag_fun_names_v(ds, c, m).ok,
    ensures
        tag_fun_names_v(ds.take(i), c, m).ok,
    decreases ds.len() - i,
{
    if i < ds.len() {
        assert(ds.drop_last().take(i) =~= ds.take(i));
        lemma_tag_fun_names_ok(ds.drop_last(), i, c, m);
    } else {
        assert(ds.take(i) =~= ds);
    }
}

proof fn lemma_tag_params_ok(ps: Seq<Name>, i: int, c: int, m: Map<Name, Name>)
    requires
        0 <= i <= ps.len(),
        tag_params_v(ps, c, m).ok,
    ensures
        tag_params_v(ps.take(i), c, m).ok,
    decreases ps.len() - i,
{
    if i < ps.len() {
        assert(ps.drop_last().take(i) =~= ps.take(i));
        lemma_tag_params_ok(ps.drop_last(), i, c, m);
    } else {
        assert(ps.take(i) =~= ps);
    }
}

proof fn lemma_tag_fun_bodies_ok<S>(ds: Seq<DeclV<ExpV<S>, S>>, names: Seq<Name>, i: int, c: int, m: Map<Name, Name>, u: bool)
    requires
        0 <= i <= ds.len(),
        tag_fun_bodies_v(ds, names, c, m, u).ok,
    ensures
        tag_fun_bodies_v(ds.take(i), names, c, m, u).ok,
    decreases ds.len() - i,
{
    if i < ds.len() {
        assert(ds.drop_last().take(i) =~= ds.take(i));
        lemma_tag_fun_bodies_ok(ds.drop_last(), names, i, c, m, u);
    } else {
        assert(ds.take(i) =~= ds);
    }
}

/// Numbers the nodes of `e` in post-order from `*counter` and, when
/// `is_uniquify`, renames variables, functions and parameters apart.
pub fn tag_exp<Span>(
    e: &SurfProg<Span>,
    counter: &mut u32,
    fun_map: &mut NameMap<String>,
    is_uniquify: bool,
) -> (res: Exp<u32>)
    requires
        tag_v(exp_view(*e), *old(counter) as int, old(fun_map)@, is_uniquify).ok,
    ensures
        exp_view(res) == tag_v(exp_view(*e), *old(counter) as int, old(fun_map)@, is_uniquify).val,
        *final(counter) as int == tag_v(exp_view(*e), *old(counter) as int, old(fun_map)@, is_uniquify).counter,
        final(fun_map)@ == tag_v(exp_view(*e), *old(counter) as int, old(fun_map)@, is_uniquify).map,
        *final(counter) > *old(counter),
        ann_rising(exp_anns(exp_view(res)), *old(counter) as int, *final(counter) as int),
        exp_root_ann(exp_view(res)) == *final(counter) - 1,
        !is_uniquify ==> erase(exp_view(res)) == erase(exp_view(*e)),
        is_uniquify ==> var_binders(exp_view(res)).no_duplicates(),
    decreases e, 1nat,
{
    proof {
        lemma_tag_anns(exp_view(*e), *old(counter) as int, old(fun_map)@, is_uniquify);
        lemma_tag_keeps_program(exp_view(*e), *old(counter) as int, old(fun_map)@);
        if is_uniquify {
            lemma_tag_binders(exp_view(*e), *old(counter) as int, old(fun_map)@);
            lemma_rising_distinct(var_binders(tag_v(exp_view(*e), *old(counter) as int, old(fun_map)@, true).val),
                *old(counter) as int, tag_v(exp_view(*e), *old(counter) as int, old(fun_map)@, true).counter);
        }
    }
    let result = match e {
        Exp::Num(n, _) => Exp::Num(*n, *counter),
        Exp::Bool(b, _) => Exp::Bool(*b, *counter),
        Exp::Float(f, _) => Exp::Float(*f, *counter),
        Exp::Var(x, _) => {
            if is_uniquify {
                match fun_map.get(x) {
                    Some(value) => Exp::Var(value.clone(), *counter),
                    None => Exp::Var(x.clone(), *counter),
                }
            } else {
                Exp::Var(x.clone(), *counter)
            }
        },
        Exp::Prim(p, exps, _) => {
            let new_exps = tag_list_boxed(exps, counter, fun_map, is_uniquify);
            Exp::Prim(*p, new_exps, *counter)
        },
        Exp::Let { bindings, body, .. } => {
            let new_bindings = tag_bindings(bindings, counter, fun_map, is_uniquify);
            let new_body = tag_exp(body, counter, fun_map, is_uniquify);
            Exp::Let { bindings: new_bindings, body: Box::new(new_body), ann: *counter }
        },
        Exp::If { cond, thn, els, .. } => {
            let c = tag_exp(cond, counter, fun_map, is_uniquify);
            let t = tag_exp(thn, counter, fun_map, is_uniquify);
            let f = tag_exp(els, counter, fun_map, is_uniquify);
            Exp::If { cond: Box::new(c), thn: Box::new(t), els: Box::new(f), ann: *counter }
        },
        Exp::FunDefs { decls, body, .. } => {
            let new_names = tag_fun_names(decls, counter, fun_map);
            let new_decls = tag_fun_bodies(decls, &new_names, counter, fun_map, is_uniquify);
            let new_body = tag_exp(body, counter, fun_map, is_uniquify);
            Exp::FunDefs { decls: new_decls, body: Box::new(new_body), ann: *counter }
        },
        Exp::Call(fun_name, args, _) => {
            let new_args = tag_list(args, counter, fun_map, is_uniquify);
            if is_uniquify {
                match fun_map.get(fun_name) {
                    Some(value) => Exp::Call(value.clone(), new_args, *counter),
                    None => vstd::pervasive::unreached(),
                }
            } else {
                Exp::Call(fun_name.clone(), new_args, *counter)
            }
        },
        Exp::InternalTailCall(fun_name, args, _) => {
            let new_args = tag_list(args, counter, fun_map, is_uniquify);
            Exp::InternalTailCall(fun_name.clone(), new_args, *counter)
        },
        Exp::ExternalCall { fun_name, args, is_tail, .. } => {
            let new_args = tag_list(args, counter, fun_map, is_uniquify);
            Exp::ExternalCall { fun_name: fun_name.clone(), args: new_args, is_tail: *is_tail, ann: *counter }
        },
    };
    *counter += 1;
    result
}

fn tag_list_boxed<Span>(
    exps: &Vec<Box<Exp<Span>>>,
    counter: &mut u32,
    fun_map: &mut NameMap<String>,
    u: bool,
) -> (res: Vec<Box<Exp<u32>>>)
    requires
        tag_list_v(boxed_exps_view(exps@), *old(counter) as int, old(fun_map)@, u).ok,
    ensures
        boxed_exps_view(res@) == tag_list_v(boxed_exps_view(exps@), *old(counter) as int, old(fun_map)@, u).val,
        *final(counter) as int == tag_list_v(boxed_exps_view(exps@), *old(counter) as int, old(fun_map)@, u).counter,
        final(fun_map)@ == tag_list_v(boxed_exps_view(exps@), *old(counter) as int, old(fun_map)@, u).map,
    decreases exps, 0nat,
{
    let ghost es = boxed_exps_view(exps@);
    let ghost c0 = *counter as int;
    let ghost m0 = fun_map@;
    let mut out: Vec<Box<Exp<u32>>> = Vec::new();
    let mut i: usize = 0;
    assert(es.take(0) =~= Seq::<ExpV<Span>>::empty());
    assert(boxed_exps_view(out@) =~= Seq::<ExpV<u32>>::empty());
    while i < exps.len()
        invariant
            i <= exps.len(),
            es == boxed_exps_view(exps@),
            tag_list_v(es, c0, m0, u).ok,
            boxed_exps_view(out@) == tag_list_v(es.take(i as int), c0, m0, u).val,
            *counter as int == tag_list_v(es.take(i as int), c0, m0, u).counter,
            fun_map@ == tag_list_v(es.take(i as int), c0, m0, u).map,
        decreases exps.len() - i,
    {
        proof {
            lemma_tag_list_ok(es, i + 1, c0, m0, u);
            assert(es.take(i + 1).drop_last() =~= es.take(i as int));
            assert(es.take(i + 1).last() == exp_view(*exps@[i as int]));
        }
        let x = tag_exp(&exps[i], counter, fun_map, u);
        let ghost prev = out@;
        out.push(Box::new(x));
        assert(out@.drop_last() =~= prev);
        i += 1;
    }
    assert(es.take(exps.len() as int) =~= es);
    out
}


fn tag_list<Span>(
    exps: &Vec<Exp<Span>>,
    counter: &mut u32,
    fun_map: &mut NameMap<String>,
    u: bool,
) -> (res: Vec<Exp<u32>>)
    requires
        tag_list_v(exps_view(exps@), *old(counter) as int, old(fun_map)@, u).ok,
    ensures
        exps_view(res@) == tag_list_v(exps_view(exps@), *old(counter) as int, old(fun_map)@, u).val,
        *final(counter) as int == tag_list_v(exps_view(exps@), *old(counter) as int, old(fun_map)@, u).counter,
        final(fun_map)@ == tag_list_v(exps_view(exps@), *old(counter) as int, old(fun_map)@, u).map,
    decreases exps, 0nat,
{
    let ghost es = exps_view(exps@);
    let ghost c0 = *counter as int;
    let ghost m0 = fun_map@;
    let mut out: Vec<Exp<u32>> = Vec::new();
    let mut i: usize = 0;
    assert(es.take(0) =~= Seq::<ExpV<Span>>::empty());
    assert(exps_view(out@) =~= Seq::<ExpV<u32>>::empty());
    while i < exps.len()
        invariant
            i <= exps.len(),
            es == exps_view(exps@),
            tag_list_v(es, c0, m0, u).ok,
            exps_view(out@) == tag_list_v(es.take(i as int), c0, m0, u).val,
            *counter as int == tag_list_v(es.take(i as int), c0, m0, u).counter,
            fun_map@ == tag_list_v(es.take(i as int), c0, m0, u).map,
        decreases exps.len() - i,
    {
        proof {
            lemma_tag_list_ok(es, i + 1, c0, m0, u);
            assert(es.take(i + 1).drop_last() =~= es.take(i as int));
            assert(es.take(i + 1).last() == exp_view(exps@[i as int]));
        }
        let x = tag_exp(&exps[i], counter, fun_map, u);
        let ghost prev = out@;
        out.push(x);
        assert(out@.drop_last() =~= prev);
        i += 1;
    }
    assert(es.take(exps.len() as int) =~= es);
    out
}

fn tag_bindings<Span>(
    bindings: &Vec<(String, Exp<Span>)>,
    counter: &mut u32,
    fun_map: &mut NameMap<String>,
    u: bool,
) -> (res: Vec<(String, Exp<u32>)>)
    requires
        tag_bindings_v(bindings_view(bindings@), *old(counter) as int, old(fun_map)@, u).ok,
    ensures
        bindings_view(res@) == tag_bindings_v(bindings_view(bindings@), *old(counter) as int, old(fun_map)@, u).val,
        *final(counter) as int == tag_bindings_v(bindings_view(bindings@), *old(counter) as int, old(fun_map)@, u).counter,
        final(fun_map)@ == tag_bindings_v(bindings_view(bindings@), *old(counter) as int, old(fun_map)@, u).map,
    decreases bindings, 0nat,
{
    let ghost bs = bindings_view(bindings@);
    let ghost c0 = *counter as int;
    let ghost m0 = fun_map@;
    let mut out: Vec<(String, Exp<u32>)> = Vec::new();
    let mut i: usize = 0;
    assert(bs.take(0) =~= Seq::<(Name, ExpV<Span>)>::empty());
    assert(bindings_view(out@) =~= Seq::<(Name, ExpV<u32>)>::empty());
    while i < bindings.len()
        invariant
            i <= bindings.len(),
            bs == bindings_view(bindings@),
            tag_bindings_v(bs, c0, m0, u).ok,
            bindings_view(out@) == tag_bindings_v(bs.take(i as int), c0, m0, u).val,
            *counter as int == tag_bindings_v(bs.take(i as int), c0, m0, u).counter,
            fun_map@ == tag_bindings_v(bs.take(i as int), c0, m0, u).map,
        decreases bindings.len() - i,
    {
        proof {
            lemma_tag_bindings_ok(bs, i + 1, c0, m0, u);
            assert(bs.take(i + 1).drop_last() =~= bs.take(i as int));
            assert(bs.take(i + 1).last() == (bindings@[i as int].0@, exp_view(bindings@[i as int].1)));
        }
        let (x, e) = &bindings[i];
        let new_exp = tag_exp(e, counter, fun_map, u);
        let new_x = name_with_suffix(x.as_str(), *counter as u64);
        fun_map.insert(x.clone(), new_x.clone());
        let ghost prev = out@;
        if u {
            out.push((new_x, new_exp));
        } else {
            out.push((x.clone(), new_exp));
        }
        assert(out@.drop_last() =~= prev);
        i += 1;
    }
    assert(bs.take(bindings.len() as int) =~= bs);
    out
}

fn tag_fun_names<Span>(
    decls: &Vec<FunDecl<Exp<Span>, Span>>,
    counter: &mut u32,
    fun_map: &mut NameMap<String>,
) -> (res: Vec<String>)
    requires
        tag_fun_names_v(decls_view(decls@), *old(counter) as int, old(fun_map)@).ok,
    ensures
        names_view(res@) == tag_fun_names_v(decls_view(decls@), *old(counter) as int, old(fun_map)@).val,
        *final(counter) as int == tag_fun_names_v(decls_view(decls@), *old(counter) as int, old(fun_map)@).counter,
        final(fun_map)@ == tag_fun_names_v(decls_view(decls@), *old(counter) as int, old(fun_map)@).map,
        res@.len() == decls@.len(),
{
    let ghost ds = decls_view(decls@);
    let ghost c0 = *counter as int;
    let ghost m0 = fun_map@;
    let mut out: Vec<String> = Vec::new();
    let mut i: usize = 0;
    assert(ds.take(0) =~= Seq::<DeclV<ExpV<Span>, Span>>::empty());
    assert(names_view(out@) =~= Seq::<Name>::empty());
    while i < decls.len()
        invariant
            i <= decls.len(),
            ds == decls_view(decls@),
            tag_fun_names_v(ds, c0, m0).ok,
            names_view(out@) == tag_fun_names_v(ds.take(i as int), c0, m0).val,
            out@.len() == i,
            *counter as int == tag_fun_names_v(ds.take(i as int), c0, m0).counter,
            fun_map@ == tag_fun_names_v(ds.take(i as int), c0, m0).map,
        decreases decls.len() - i,
    {
        proof {
            lemma_tag_fun_names_ok(ds, i + 1, c0, m0);
            crate::syntax::lemma_decls_view(decls@);
            assert(ds.take(i + 1).drop_last() =~= ds.take(i as int));
            assert(ds.take(i + 1).last().name == decls@[i as int].name@);
        }
        let decl = &decls[i];
        let mut prefix = String::from_str("fun_");
        prefix.append(decl.name.as_str());
        let new_name = name_with_suffix(prefix.as_str(), *counter as u64);
        let ghost prev = out@;
        out.push(new_name.clone());
        assert(out@.drop_last() =~= prev);
        *counter += 1;
        fun_map.insert(decl.name.clone(), new_name);
        proof {
            assert(names_view(out@) =~= names_view(prev).push(new_name@));
        }
        i += 1;
    }
    assert(ds.take(decls.len() as int) =~= ds);
    out
}

fn tag_params(
    params: &Vec<String>,
    counter: &mut u32,
    fun_map: &mut NameMap<String>,
) -> (res: Vec<String>)
    requires
        tag_params_v(names_view(params@), *old(counter) as int, old(fun_map)@).ok,
    ensures
        names_view(res@) == tag_params_v(names_view(params@), *old(counter) as int, old(fun_map)@).val,
        *final(counter) as int == tag_params_v(names_view(params@), *old(counter) as int, old(fun_map)@).counter,
        final(fun_map)@ == tag_params_v(names_view(params@), *old(counter) as int, old(fun_map)@).map,
{
    let ghost ps = names_view(params@);
    let ghost c0 = *counter as int;
    let ghost m0 = fun_map@;
    let mut out: Vec<String> = Vec::new();
    let mut i: usize = 0;
    assert(ps.take(0) =~= Seq::<Name>::empty());
    assert(names_view(out@) =~= Seq::<Name>::empty());
    while i < params.len()
        invariant
            i <= params.len(),
            ps == names_view(params@),
            tag_params_v(ps, c0, m0).ok,
            names_view(out@) == tag_params_v(ps.take(i as int), c0, m0).val,
            *counter as int == tag_params_v(ps.take(i as int), c0, m0).counter,
            fun_map@ == tag_params_v(ps.take(i as int), c0, m0).map,
        decreases params.len() - i,
    {
        proof {
            lemma_tag_params_ok(ps, i + 1, c0, m0);
            assert(ps.take(i + 1).drop_last() =~= ps.take(i as int));
            assert(ps.take(i + 1).last() == params@[i as int]@);
        }
        let para = &params[i];
        let new_para = name_with_suffix(para.as_str(), *counter as u64);
        *counter += 1;
        fun_map.insert(para.clone(), new_para.clone());
        let ghost prev = out@;
        out.push(new_para);
        assert(out@.drop_last() =~= prev);
        proof {
            assert(names_view(out@) =~= names_view(prev).push(out@.last()@));
        }
        i += 1;
    }
    assert(ps.take(params.len() as int) =~= ps);
    out
}

fn tag_fun_bodies<Span>(
    decls: &Vec<FunDecl<Exp<Span>, Span>>,
    new_names: &Vec<String>,
    counter: &mut u32,
    fun_map: &NameMap<String>,
    u: bool,
) -> (res: Vec<FunDecl<Exp<u32>, u32>>)
    requires
        tag_fun_bodies_v(decls_view(decls@), names_view(new_names@), *old(counter) as int, fun_map@, u).ok,
        new_names@.len() == decls@.len(),
    ensures
        decls_view(res@) == tag_fun_bodies_v(decls_view(decls@), names_view(new_names@), *old(counter) as int, fun_map@, u).val,
        *final(counter) as int == tag_fun_bodies_v(decls_view(decls@), names_view(new_names@), *old(counter) as int, fun_map@, u).counter,
    decreases decls, 0nat,
{
    let ghost ds = decls_view(decls@);
    let ghost ns = names_view(new_names@);
    let ghost c0 = *counter as int;
    let mut out: Vec<FunDecl<Exp<u32>, u32>> = Vec::new();
    let mut i: usize = 0;
    assert(ds.take(0) =~= Seq::<DeclV<ExpV<Span>, Span>>::empty());
    assert(decls_view(out@) =~= Seq::<DeclV<ExpV<u32>, u32>>::empty());
    while i < decls.len()
        invariant
            i <= decls.len(),
            ds == decls_view(decls@),
            ns == names_view(new_names@),
            new_names@.len() == decls@.len(),
            tag_fun_bodies_v(ds, ns, c0, fun_map@, u).ok,
            decls_view(out@) == tag_fun_bodies_v(ds.take(i as int), ns, c0, fun_map@, u).val,
            *counter as int == tag_fun_bodies_v(ds.take(i as int), ns, c0, fun_map@, u).counter,
        decreases decls.len() - i,
    {
        proof {
            lemma_tag_fun_bodies_ok(ds, ns, i + 1, c0, fun_map@, u);
            crate::syntax::lemma_decls_view(decls@);
            assert(ds.take(i + 1).drop_last() =~= ds.take(i as int));
            assert(ds.take(i + 1).last() == crate::syntax::decl_view(decls@[i as int]));
        }
        let decl = &decls[i];
        let mut new_fun_map = fun_map.duplicate();
        let new_parameters = tag_params(&decl.parameters, counter, &mut new_fun_map);
        let new_body = tag_exp(&decl.body, counter, &mut new_fun_map, u);
        let new_decl = FunDecl {
            name: if u { new_names[i].clone() } else { decl.name.clone() },
            parameters: if u { new_parameters } else { crate::names::copy_names(&decl.parameters) },
            body: new_body,
            ann: *counter,
        };
        let ghost prev = out@;
        out.push(new_decl);
        assert(out@.drop_last() =~= prev);
        *counter += 1;
        i += 1;
    }
    assert(ds.take(decls.len() as int) =~= ds);
    out
}

} // verus!

verus! {

/// Result of tagging a sequential expression: tagged value, counter after it,
/// and whether the counter never overflows.
pub struct SeqTagOut<T> {
    pub val: T,
    pub counter: int,
    pub ok: bool,
}

/// Numbers the nodes of a sequential expression in post-order from `c`.
pub open spec fn tag_seq_v<S>(e: SeqExpV<S>, c: int) -> SeqTagOut<SeqExpV<u32>>
    decreases e,
{
    match e {
        SeqExpV::Imm(i, _) => SeqTagOut { val: SeqExpV::Imm(i, c as u32), counter: c + 1, ok: bump_ok(c) },
        SeqExpV::Prim(p, is, _) => SeqTagOut { val: SeqExpV::Prim(p, is, c as u32), counter: c + 1, ok: bump_ok(c) },
        SeqExpV::If { cond, thn, els, .. } => {
            let t = tag_seq_v(*thn, c);
            let f = tag_seq_v(*els, t.counter);
            SeqTagOut {
                val: SeqExpV::If { cond, thn: Box::new(t.val), els: Box::new(f.val), ann: f.counter as u32 },
                counter: f.counter + 1,
                ok: t.ok && f.ok && bump_ok(f.counter),
            }
        },
        SeqExpV::Let { var, bound_exp, body, .. } => {
            let b = tag_seq_v(*bound_exp, c);
            let d = tag_seq_v(*body, b.counter);
            SeqTagOut {
                val: SeqExpV::Let { var, bound_exp: Box::new(b.val), body: Box::new(d.val), ann: d.counter as u32 },
                counter: d.counter + 1,
                ok: b.ok && d.ok && bump_ok(d.counter),
            }
        },
        SeqExpV::FunDefs { decls, body, .. } => {
            let ds = tag_seq_decls_v(decls, c);
            let b = tag_seq_v(*body, ds.counter);
            SeqTagOut {
                val: SeqExpV::FunDefs { decls: ds.val, body: Box::new(b.val), ann: b.counter as u32 },
                counter: b.counter + 1,
                ok: ds.ok && b.ok && bump_ok(b.counter),
            }
        },
        SeqExpV::InternalTailCall(f, args, _) => SeqTagOut {
            val: SeqExpV::InternalTailCall(f, args, c as u32),
            counter: c + 1,
            ok: bump_ok(c),
        },
        SeqExpV::ExternalCall { fun_name, args, is_tail, .. } => SeqTagOut {
            val: SeqExpV::ExternalCall { fun_name, args, is_tail, ann: c as u32 },
            counter: c + 1,
            ok: bump_ok(c),
        },
    }
}

/// Tags the bodies of a list of definitions in order; each definition is
/// annotated with the counter after its body, then the counter steps once.
pub open spec fn tag_seq_decls_v<S>(ds: Seq<DeclV<SeqExpV<S>, S>>, c: int) -> SeqTagOut<Seq<DeclV<SeqExpV<u32>, u32>>>
    decreases ds,
{
    if ds.len() == 0 {
        SeqTagOut { val: Seq::empty(), counter: c, ok: true }
    } else {
        let r = tag_seq_decls_v(ds.drop_last(), c);
        let d = ds.last();
        let b = tag_seq_v(d.body, r.counter);
        SeqTagOut {
            val: r.val.push(DeclV { name: d.name, parameters: d.parameters, body: b.val, ann: b.counter as u32 }),
            counter: b.counter + 1,
            ok: r.ok && b.ok && bump_ok(b.counter),
        }
    }
}

proof fn lemma_tag_seq_decls_ok<S>(ds: Seq<DeclV<SeqExpV<S>, S>>, i: int, c: int)
    requires
        0 <= i <= ds.len(),
        tag_seq_decls_v(ds, c).ok,
    ensures
        tag_seq_decls_v(ds.take(i), c).ok,
    decreases ds.len() - i,
{
    if i < ds.len() {
        assert(ds.drop_last().take(i) =~= ds.take(i));
        lemma_tag_seq_decls_ok(ds.drop_last(), i, c);
    } else {
        assert(ds.take(i) =~= ds);
    }
}

/// Numbers the nodes of a sequential expression in post-order from `*counter`.
pub fn tag_seq<Span>(e: &SeqExp<Span>, counter: &mut u32) -> (res: SeqExp<u32>)
    requires
        tag_seq_v(seq_view(*e), *old(counter) as int).ok,
    ensures
        seq_view(res) == tag_seq_v(seq_view(*e), *old(counter) as int).val,
        *final(counter) as int == tag_seq_v(seq_view(*e), *old(counter) as int).counter,
        *final(counter) == *old(counter) + seq_nodes(seq_view(*e)),
        erase_seq(seq_view(res)) == erase_seq(seq_view(*e)),
        seq_anns(seq_view(res)) == numbered(*old(counter) as int, seq_nodes(seq_view(*e)) as int),
        seq_root_ann(seq_view(res)) == *final(counter) - 1,
    decreases e, 1nat,
{
    proof {
        lemma_tag_seq_count(seq_view(*e), *old(counter) as int);
        lemma_tag_seq_numbers(seq_view(*e), *old(counter) as int);
        lemma_tag_seq_keeps_program(seq_view(*e), *old(counter) as int);
    }
    let result = match e {
        SeqExp::Imm(ie, _) => match ie {
            ImmExp::Num(n) => SeqExp::Imm(ImmExp::Num(*n), *counter),
            ImmExp::Var(x) => SeqExp::Imm(ImmExp::Var(x.clone()), *counter),
            ImmExp::Bool(b) => SeqExp::Imm(ImmExp::Bool(*b), *counter),
            ImmExp::Float(f) => SeqExp::Imm(ImmExp::Float(*f), *counter),
        },
        SeqExp::Prim(p, ies, _) => SeqExp::Prim(*p, crate::syntax::copy_imms(ies), *counter),
        SeqExp::If { cond, thn, els, .. } => {
            let t = tag_seq(thn, counter);
            let f = tag_seq(els, counter);
            SeqExp::If { cond: crate::syntax::copy_imm(cond), thn: Box::new(t), els: Box::new(f), ann: *counter }
        },
        SeqExp::Let { var, bound_exp, body, .. } => {
            let b = tag_seq(bound_exp, counter);
            let d = tag_seq(body, counter);
            SeqExp::Let { var: var.clone(), bound_exp: Box::new(b), body: Box::new(d), ann: *counter }
        },
        SeqExp::FunDefs { decls, body, ann: _ } => {
            let new_decls = tag_seq_decls(decls, counter);
            let b = tag_seq(body, counter);
            SeqExp::FunDefs { decls: new_decls, body: Box::new(b), ann: *counter }
        },
        SeqExp::InternalTailCall(fun_name, args, _) => {
            SeqExp::InternalTailCall(fun_name.clone(), crate::syntax::copy_imms(args), *counter)
        },
        SeqExp::ExternalCall { fun_name, args, is_tail, .. } => SeqExp::ExternalCall {
            fun_name: fun_name.clone(),
            args: crate::syntax::copy_imms(args),
            is_tail: *is_tail,
            ann: *counter,
        },
    };
    *counter += 1;
    result
}

fn tag_seq_decls<Span>(decls: &Vec<FunDecl<SeqExp<Span>, Span>>, counter: &mut u32) -> (res: Vec<SeqFunDecl<u32>>)
    requires
        tag_seq_decls_v(seq_decls_view(decls@), *old(counter) as int).ok,
    ensures
        seq_decls_view(res@) == tag_seq_decls_v(seq_decls_view(decls@), *old(counter) as int).val,
        *final(counter) as int == tag_seq_decls_v(seq_decls_view(decls@), *old(counter) as int).counter,
    decreases decls, 0nat,
{
    let ghost ds = seq_decls_view(decls@);
    let ghost c0 = *counter as int;
    let mut new_funs: Vec<SeqFunDecl<u32>> = Vec::new();
    let mut i: usize = 0;
    assert(ds.take(0) =~= Seq::<DeclV<SeqExpV<Span>, Span>>::empty());
    assert(seq_decls_view(new_funs@) =~= Seq::<DeclV<SeqExpV<u32>, u32>>::empty());
    while i < decls.len()
        invariant
            i <= decls.len(),
            ds == seq_decls_view(decls@),
            tag_seq_decls_v(ds, c0).ok,
            seq_decls_view(new_funs@) == tag_seq_decls_v(ds.take(i as int), c0).val,
            *counter as int == tag_seq_decls_v(ds.take(i as int), c0).counter,
        decreases decls.len() - i,
    {
        proof {
            lemma_tag_seq_decls_ok(ds, i + 1, c0);
            crate::syntax::lemma_seq_decls_view(decls@);
            assert(ds.take(i + 1).drop_last() =~= ds.take(i as int));
            assert(ds.take(i + 1).last() == crate::syntax::seq_decl_view(decls@[i as int]));
        }
        let fun = &decls[i];
        let body = tag_seq(&fun.body, counter);
        let ghost prev = new_funs@;
        new_funs.push(FunDecl {
            name: fun.name.clone(),
            parameters: crate::names::copy_names(&fun.parameters),
            body,
            ann: *counter,
        });
        assert(new_funs@.drop_last() =~= prev);
        *counter += 1;
        i += 1;
    }
    assert(ds.take(decls.len() as int) =~= ds);
    new_funs
}

/// Numbers the bodies of global functions, continuing from `*counter`.
pub fn tag_funs(funs: &Vec<SeqFunDecl<()>>, counter: &mut u32) -> (res: Vec<SeqFunDecl<u32>>)
    requires
        tag_seq_decls_v(seq_decls_view(funs@), *old(counter) as int).ok,
    ensures
        seq_decls_view(res@) == tag_seq_decls_v(seq_decls_view(funs@), *old(counter) as int).val,
        *final(counter) as int == tag_seq_decls_v(seq_decls_view(funs@), *old(counter) as int).counter,
{
    tag_seq_decls(funs, counter)
}

} // verus!

verus! {

/// The tags of a sequential expression in post-order.
pub open spec fn seq_anns(e: SeqExpV<u32>) -> Seq<u32>
    decreases e,
{
    match e {
        SeqExpV::Imm(_, a) => seq![a],
        SeqExpV::Prim(_, _, a) => seq![a],
        SeqExpV::InternalTailCall(_, _, a) => seq![a],
        SeqExpV::ExternalCall { ann, .. } => seq![ann],
        SeqExpV::If { thn, els, ann, .. } => seq_anns(*thn) + seq_anns(*els) + seq![ann],
        SeqExpV::Let { bound_exp, body, ann, .. } => seq_anns(*bound_exp) + seq_anns(*body) + seq![ann],
        SeqExpV::FunDefs { decls, body, ann } => decls_anns(decls) + seq_anns(*body) + seq![ann],
    }
}

/// The tags of a list of definitions: each body's, then the definition's own.
pub open spec fn decls_anns(ds: Seq<DeclV<SeqExpV<u32>, u32>>) -> Seq<u32>
    decreases ds,
{
    if ds.len() == 0 {
        Seq::empty()
    } else {
        decls_anns(ds.drop_last()) + seq_anns(ds.last().body) + seq![ds.last().ann]
    }
}

/// The `n` consecutive numbers from `c`.
pub open spec fn numbered(c: int, n: int) -> Seq<u32> {
    Seq::new(n as nat, |i: int| (c + i) as u32)
}

proof fn lemma_numbered_concat(c: int, a: int, b: int)
    requires
        0 <= a,
        0 <= b,
    ensures
        numbered(c, a) + numbered(c + a, b) == numbered(c, a + b),
{
    assert(numbered(c, a) + numbered(c + a, b) =~= numbered(c, a + b));
}

/// Tagging numbers the nodes of a sequential expression in post-order with
/// consecutive numbers from the counter: the tags, read in post-order, are
/// exactly `c, c + 1, ...` up to the counter after tagging.
pub proof fn lemma_tag_seq_numbers<S>(e: SeqExpV<S>, c: int)
    requires
        0 <= c,
        tag_seq_v(e, c).ok,
    ensures
        c < tag_seq_v(e, c).counter,
        seq_anns(tag_seq_v(e, c).val) == numbered(c, tag_seq_v(e, c).counter - c),
    decreases e,
{
    let r = tag_seq_v(e, c);
    match e {
        SeqExpV::If { thn, els, .. } => {
            let t = tag_seq_v(*thn, c);
            let f = tag_seq_v(*els, t.counter);
            lemma_tag_seq_numbers(*thn, c);
            lemma_tag_seq_numbers(*els, t.counter);
            lemma_numbered_concat(c, t.counter - c, f.counter - t.counter);
            lemma_numbered_concat(c, f.counter - c, 1);
        },
        SeqExpV::Let { bound_exp, body, .. } => {
            let b = tag_seq_v(*bound_exp, c);
            let d = tag_seq_v(*body, b.counter);
            lemma_tag_seq_numbers(*bound_exp, c);
            lemma_tag_seq_numbers(*body, b.counter);
            lemma_numbered_concat(c, b.counter - c, d.counter - b.counter);
            lemma_numbered_concat(c, d.counter - c, 1);
        },
        SeqExpV::FunDefs { decls, body, .. } => {
            let ds = tag_seq_decls_v(decls, c);
            let b = tag_seq_v(*body, ds.counter);
            lemma_tag_seq_decls_numbers(decls, c);
            lemma_tag_seq_numbers(*body, ds.counter);
            lemma_numbered_concat(c, ds.counter - c, b.counter - ds.counter);
            lemma_numbered_concat(c, b.counter - c, 1);
        },
        _ => {
            assert(seq_anns(r.val) =~= numbered(c, 1));
        },
    }
}

/// The same for a list of definitions: bodies and definitions together are
/// numbered consecutively from the counter.
pub proof fn lemma_tag_seq_decls_numbers<S>(ds: Seq<DeclV<SeqExpV<S>, S>>, c: int)
    requires
        0 <= c,
        tag_seq_decls_v(ds, c).ok,
    ensures
        c <= tag_seq_decls_v(ds, c).counter,
        decls_anns(tag_seq_decls_v(ds, c).val) == numbered(c, tag_seq_decls_v(ds, c).counter - c),
    decreases ds,
{
    if ds.len() == 0 {
        assert(decls_anns(tag_seq_decls_v(ds, c).val) =~= numbered(c, 0));
    } else {
        let r = tag_seq_decls_v(ds.drop_last(), c);
        let d = ds.last();
        let b = tag_seq_v(d.body, r.counter);
        lemma_tag_seq_decls_numbers(ds.drop_last(), c);
        lemma_tag_seq_numbers(d.body, r.counter);
        let out = tag_seq_decls_v(ds, c);
        assert(out.val.drop_last() == r.val);
        lemma_numbered_concat(c, r.counter - c, b.counter - r.counter);
        lemma_numbered_concat(c, b.counter - c, 1);
    }
}

} // verus!

verus! {

/// An expression with its annotations dropped.
pub open spec fn erase<S>(e: ExpV<S>) -> ExpV<()>
    decreases e,
{
    match e {
        ExpV::Num(n, _) => ExpV::Num(n, ()),
        ExpV::Bool(b, _) => ExpV::Bool(b, ()),
        ExpV::Float(f, _) => ExpV::Float(f, ()),
        ExpV::Var(x, _) => ExpV::Var(x, ()),
        ExpV::Prim(p, es, _) => ExpV::Prim(p, erase_list(es), ()),
        ExpV::Let { bindings, body, .. } => ExpV::Let { bindings: erase_bindings(bindings), body: Box::new(erase(*body)), ann: () },
        ExpV::If { cond, thn, els, .. } => ExpV::If {
            cond: Box::new(erase(*cond)),
            thn: Box::new(erase(*thn)),
            els: Box::new(erase(*els)),
            ann: (),
        },
        ExpV::FunDefs { decls, body, .. } => ExpV::FunDefs { decls: erase_decls(decls), body: Box::new(erase(*body)), ann: () },
        ExpV::Call(f, args, _) => ExpV::Call(f, erase_list(args), ()),
        ExpV::InternalTailCall(f, args, _) => ExpV::InternalTailCall(f, erase_list(args), ()),
        ExpV::ExternalCall { fun_name, args, is_tail, .. } =>
            ExpV::ExternalCall { fun_name, args: erase_list(args), is_tail, ann: () },
    }
}

pub open spec fn erase_list<S>(es: Seq<ExpV<S>>) -> Seq<ExpV<()>>
    decreases es,
{
    if es.len() == 0 { Seq::empty() } else { erase_list(es.drop_last()).push(erase(es.last())) }
}

pub open spec fn erase_bindings<S>(bs: Seq<(Name, ExpV<S>)>) -> Seq<(Name, ExpV<()>)>
    decreases bs,
{
    if bs.len() == 0 { Seq::empty() } else { erase_bindings(bs.drop_last()).push((bs.last().0, erase(bs.last().1))) }
}

pub open spec fn erase_decls<S>(ds: Seq<DeclV<ExpV<S>, S>>) -> Seq<DeclV<ExpV<()>, ()>>
    decreases ds,
{
    if ds.len() == 0 {
        Seq::empty()
    } else {
        erase_decls(ds.drop_last()).push(
            DeclV { name: ds.last().name, parameters: ds.last().parameters, body: erase(ds.last().body), ann: () },
        )
    }
}

/// Without renaming, tagging changes only the annotations: the tagged
/// program, annotations dropped, is the program it started from.
pub proof fn lemma_tag_keeps_program<S>(e: ExpV<S>, c: int, m: Map<Name, Name>)
    ensures
        erase(tag_v(e, c, m, false).val) == erase(e),
    decreases e,
{
    match e {
        ExpV::Prim(p, es, _) => lemma_tag_list_keeps(es, c, m),
        ExpV::Let { bindings, body, .. } => {
            let r = tag_bindings_v(bindings, c, m, false);
            lemma_tag_bindings_keeps(bindings, c, m);
            lemma_tag_keeps_program(*body, r.counter, r.map);
        },
        ExpV::If { cond, thn, els, .. } => {
            let r1 = tag_v(*cond, c, m, false);
            let r2 = tag_v(*thn, r1.counter, r1.map, false);
            lemma_tag_keeps_program(*cond, c, m);
            lemma_tag_keeps_program(*thn, r1.counter, r1.map);
            lemma_tag_keeps_program(*els, r2.counter, r2.map);
        },
        ExpV::FunDefs { decls, body, .. } => {
            let r1 = tag_fun_names_v(decls, c, m);
            let r2 = tag_fun_bodies_v(decls, r1.val, r1.counter, r1.map, false);
            lemma_tag_bodies_keeps(decls, r1.val, r1.counter, r1.map);
            lemma_tag_keeps_program(*body, r2.counter, r1.map);
        },
        ExpV::Call(_, args, _) => lemma_tag_list_keeps(args, c, m),
        ExpV::InternalTailCall(_, args, _) => lemma_tag_list_keeps(args, c, m),
        ExpV::ExternalCall { args, .. } => lemma_tag_list_keeps(args, c, m),
        _ => {},
    }
}

proof fn lemma_tag_list_keeps<S>(es: Seq<ExpV<S>>, c: int, m: Map<Name, Name>)
    ensures
        erase_list(tag_list_v(es, c, m, false).val) == erase_list(es),
    decreases es,
{
    if es.len() > 0 {
        let r = tag_list_v(es.drop_last(), c, m, false);
        lemma_tag_list_keeps(es.drop_last(), c, m);
        lemma_tag_keeps_program(es.last(), r.counter, r.map);
        let v = tag_list_v(es, c, m, false).val;
        assert(v.drop_last() =~= r.val);
    }
}

proof fn lemma_tag_bindings_keeps<S>(bs: Seq<(Name, ExpV<S>)>, c: int, m: Map<Name, Name>)
    ensures
        erase_bindings(tag_bindings_v(bs, c, m, false).val) == erase_bindings(bs),
    decreases bs,
{
    if bs.len() > 0 {
        let r = tag_bindings_v(bs.drop_last(), c, m, false);
        lemma_tag_bindings_keeps(bs.drop_last(), c, m);
        lemma_tag_keeps_program(bs.last().1, r.counter, r.map);
        let v = tag_bindings_v(bs, c, m, false).val;
        assert(v.drop_last() =~= r.val);
    }
}

proof fn lemma_tag_bodies_keeps<S>(ds: Seq<DeclV<ExpV<S>, S>>, names: Seq<Name>, c: int, m: Map<Name, Name>)
    ensures
        erase_decls(tag_fun_bodies_v(ds, names, c, m, false).val) == erase_decls(ds),
    decreases ds,
{
    if ds.len() > 0 {
        let r = tag_fun_bodies_v(ds.drop_last(), names, c, m, false);
        let p = tag_params_v(ds.last().parameters, r.counter, m);
        lemma_tag_bodies_keeps(ds.drop_last(), names, c, m);
        lemma_tag_keeps_program(ds.last().body, p.counter, p.map);
        let v = tag_fun_bodies_v(ds, names, c, m, false).val;
        assert(v.drop_last() =~= r.val);
    }
}

} // verus!

verus! {

/// A sequential expression with its annotations dropped.
pub open spec fn erase_seq<S>(e: SeqExpV<S>) -> SeqExpV<()>
    decreases e,
{
    match e {
        SeqExpV::Imm(i, _) => SeqExpV::Imm(i, ()),
        SeqExpV::Prim(p, is, _) => SeqExpV::Prim(p, is, ()),
        SeqExpV::Let { var, bound_exp, body, .. } =>
            SeqExpV::Let { var, bound_exp: Box::new(erase_seq(*bound_exp)), body: Box::new(erase_seq(*body)), ann: () },
        SeqExpV::If { cond, thn, els, .. } =>
            SeqExpV::If { cond, thn: Box::new(erase_seq(*thn)), els: Box::new(erase_seq(*els)), ann: () },
        SeqExpV::FunDefs { decls, body, .. } =>
            SeqExpV::FunDefs { decls: erase_seq_decls(decls), body: Box::new(erase_seq(*body)), ann: () },
        SeqExpV::InternalTailCall(f, args, _) => SeqExpV::InternalTailCall(f, args, ()),
        SeqExpV::ExternalCall { fun_name, args, is_tail, .. } => SeqExpV::ExternalCall { fun_name, args, is_tail, ann: () },
    }
}

pub open spec fn erase_seq_decls<S>(ds: Seq<DeclV<SeqExpV<S>, S>>) -> Seq<DeclV<SeqExpV<()>, ()>>
    decreases ds,
{
    if ds.len() == 0 {
        Seq::empty()
    } else {
        erase_seq_decls(ds.drop_last()).push(
            DeclV { name: ds.last().name, parameters: ds.last().parameters, body: erase_seq(ds.last().body), ann: () },
        )
    }
}

/// Tagging a sequential expression changes only its annotations.
pub proof fn lemma_tag_seq_keeps_program<S>(e: SeqExpV<S>, c: int)
    ensures
        erase_seq(tag_seq_v(e, c).val) == erase_seq(e),
    decreases e,
{
    match e {
        SeqExpV::Let { bound_exp, body, .. } => {
            lemma_tag_seq_keeps_program(*bound_exp, c);
            lemma_tag_seq_keeps_program(*body, tag_seq_v(*bound_exp, c).counter);
        },
        SeqExpV::If { thn, els, .. } => {
            lemma_tag_seq_keeps_program(*thn, c);
            lemma_tag_seq_keeps_program(*els, tag_seq_v(*thn, c).counter);
        },
        SeqExpV::FunDefs { decls, body, .. } => {
            lemma_tag_seq_decls_keep(decls, c);
            lemma_tag_seq_keeps_program(*body, tag_seq_decls_v(decls, c).counter);
        },
        _ => {},
    }
}

/// The same for the definitions of a group.
pub proof fn lemma_tag_seq_decls_keep<S>(ds: Seq<DeclV<SeqExpV<S>, S>>, c: int)
    ensures
        erase_seq_decls(tag_seq_decls_v(ds, c).val) == erase_seq_decls(ds),
    decreases ds,
{
    if ds.len() > 0 {
        let r = tag_seq_decls_v(ds.drop_last(), c);
        lemma_tag_seq_decls_keep(ds.drop_last(), c);
        lemma_tag_seq_keeps_program(ds.last().body, r.counter);
        let v = tag_seq_decls_v(ds, c).val;
        assert(v.drop_last() =~= r.val);
    }
}

} // verus!

verus! {

/// The variables an expression binds (let-bound names and parameters), in
/// the order in which renaming numbers them.
pub open spec fn var_binders(e: ExpV<u32>) -> Seq<Name>
    decreases e,
{
    match e {
        ExpV::Prim(_, es, _) => list_binders(es),
        ExpV::Let { bindings, body, .. } => bindings_binders(bindings) + var_binders(*body),
        ExpV::If { cond, thn, els, .. } => var_binders(*cond) + var_binders(*thn) + var_binders(*els),
        ExpV::FunDefs { decls, body, .. } => decls_binders(decls) + var_binders(*body),
        ExpV::Call(_, args, _) => list_binders(args),
        ExpV::InternalTailCall(_, args, _) => list_binders(args),
        ExpV::ExternalCall { args, .. } => list_binders(args),
        _ => Seq::empty(),
    }
}

pub open spec fn list_binders(es: Seq<ExpV<u32>>) -> Seq<Name>
    decreases es,
{
    if es.len() == 0 { Seq::empty() } else { list_binders(es.drop_last()) + var_binders(es.last()) }
}

pub open spec fn bindings_binders(bs: Seq<(Name, ExpV<u32>)>) -> Seq<Name>
    decreases bs,
{
    if bs.len() == 0 {
        Seq::empty()
    } else {
        bindings_binders(bs.drop_last()) + var_binders(bs.last().1) + seq![bs.last().0]
    }
}

pub open spec fn decls_binders(ds: Seq<DeclV<ExpV<u32>, u32>>) -> Seq<Name>
    decreases ds,
{
    if ds.len() == 0 {
        Seq::empty()
    } else {
        decls_binders(ds.drop_last()) + ds.last().parameters + var_binders(ds.last().body)
    }
}

/// The names of `s` end with strictly increasing numbers, all strictly
/// between `lo` and `hi`.
pub open spec fn rising(s: Seq<Name>, lo: int, hi: int) -> bool {
    &&& forall|i: int| 0 <= i < s.len() ==> lo < #[trigger] trailing_number(s[i]) < hi
    &&& forall|i: int, j: int| 0 <= i < j < s.len() ==> trailing_number(s[i]) < trailing_number(s[j])
}

proof fn lemma_rising_concat(a: Seq<Name>, b: Seq<Name>, lo: int, x: int, y: int, hi: int)
    requires
        rising(a, lo, x),
        rising(b, y, hi),
        x <= y + 1,
        lo <= y,
        x <= hi,
    ensures
        rising(a + b, lo, hi),
{
    let s = a + b;
    assert forall|i: int| 0 <= i < s.len() implies lo < #[trigger] trailing_number(s[i]) < hi by {
        if i >= a.len() {
            assert(s[i] == b[i - a.len()]);
        }
    }
    assert forall|i: int, j: int| 0 <= i < j < s.len() implies trailing_number(s[i]) < trailing_number(s[j]) by {
        if j < a.len() {
        } else if i >= a.len() {
            assert(s[i] == b[i - a.len()] && s[j] == b[j - a.len()]);
        } else {
            assert(s[j] == b[j - a.len()]);
            assert(lo < trailing_number(a[i]) < x);
            assert(y < trailing_number(b[j - a.len()]));
        }
    }
}

proof fn lemma_rising_weaken(s: Seq<Name>, lo: int, hi: int, lo2: int, hi2: int)
    requires
        rising(s, lo, hi),
        lo2 <= lo,
        hi <= hi2,
    ensures
        rising(s, lo2, hi2),
{
}

proof fn lemma_rising_one(x: Name, lo: int, hi: int)
    requires
        lo < trailing_number(x) < hi,
    ensures
        rising(seq![x], lo, hi),
{
}

} // verus!

verus! {

proof fn lemma_fun_names_counter<S>(ds: Seq<DeclV<ExpV<S>, S>>, c: int, m: Map<Name, Name>)
    ensures
        tag_fun_names_v(ds, c, m).counter == c + ds.len(),
    decreases ds.len(),
{
    if ds.len() > 0 {
        lemma_fun_names_counter(ds.drop_last(), c, m);
    }
}

proof fn lemma_params_rising(ps: Seq<Name>, c: int, m: Map<Name, Name>)
    requires
        c >= 0,
    ensures
        tag_params_v(ps, c, m).counter == c + ps.len(),
        rising(tag_params_v(ps, c, m).val, c - 1, c + ps.len()),
    decreases ps.len(),
{
    if ps.len() > 0 {
        let r = tag_params_v(ps.drop_last(), c, m);
        lemma_params_rising(ps.drop_last(), c, m);
        let q = suffixed(ps.last(), r.counter);
        lemma_suffixed_number(ps.last(), r.counter);
        lemma_rising_one(q, r.counter - 1, r.counter + 1);
        lemma_rising_concat(r.val, seq![q], c - 1, r.counter, r.counter - 1, c + ps.len());
        assert(tag_params_v(ps, c, m).val =~= r.val + seq![q]);
    }
}

/// Renaming numbers the variables it binds with strictly increasing
/// counter values, all after the counter it starts from and before the one
/// it ends with.
proof fn lemma_tag_binders<S>(e: ExpV<S>, c: int, m: Map<Name, Name>)
    requires
        c >= 0,
    ensures
        tag_v(e, c, m, true).counter > c,
        rising(var_binders(tag_v(e, c, m, true).val), c, tag_v(e, c, m, true).counter),
    decreases e,
{
    match e {
        ExpV::Prim(_, es, _) => {
            let l = tag_list_v(es, c, m, true);
            lemma_list_binders(es, c, m);
            lemma_rising_weaken(list_binders(l.val), c, l.counter, c, l.counter + 1);
        },
        ExpV::Let { bindings, body, .. } => {
            let rb = tag_bindings_v(bindings, c, m, true);
            lemma_bindings_binders(bindings, c, m);
            let b = tag_v(*body, rb.counter, rb.map, true);
            lemma_tag_binders(*body, rb.counter, rb.map);
            lemma_rising_concat(bindings_binders(rb.val), var_binders(b.val), c, rb.counter + 1, rb.counter, b.counter + 1);
        },
        ExpV::If { cond, thn, els, .. } => {
            let r1 = tag_v(*cond, c, m, true);
            let r2 = tag_v(*thn, r1.counter, r1.map, true);
            let r3 = tag_v(*els, r2.counter, r2.map, true);
            lemma_tag_binders(*cond, c, m);
            lemma_tag_binders(*thn, r1.counter, r1.map);
            lemma_tag_binders(*els, r2.counter, r2.map);
            lemma_rising_concat(var_binders(r1.val), var_binders(r2.val), c, r1.counter, r1.counter, r2.counter);
            lemma_rising_concat(
                var_binders(r1.val) + var_binders(r2.val),
                var_binders(r3.val),
                c,
                r2.counter,
                r2.counter,
                r3.counter + 1,
            );
        },
        ExpV::FunDefs { decls, body, .. } => {
            let r1 = tag_fun_names_v(decls, c, m);
            lemma_fun_names_counter(decls, c, m);
            let r2 = tag_fun_bodies_v(decls, r1.val, r1.counter, r1.map, true);
            lemma_bodies_binders(decls, r1.val, r1.counter, r1.map);
            if decls.len() == 0 {
                assert(decls_binders(r2.val) =~= Seq::<Name>::empty());
            } else {
                lemma_rising_weaken(decls_binders(r2.val), r1.counter - 1, r2.counter, c, r2.counter);
            }
            let r3 = tag_v(*body, r2.counter, r1.map, true);
            lemma_tag_binders(*body, r2.counter, r1.map);
            lemma_rising_concat(decls_binders(r2.val), var_binders(r3.val), c, r2.counter, r2.counter, r3.counter + 1);
        },
        ExpV::Call(_, args, _) => {
            let l = tag_list_v(args, c, m, true);
            lemma_list_binders(args, c, m);
            lemma_rising_weaken(list_binders(l.val), c, l.counter, c, l.counter + 1);
        },
        ExpV::InternalTailCall(_, args, _) => {
            let l = tag_list_v(args, c, m, true);
            lemma_list_binders(args, c, m);
            lemma_rising_weaken(list_binders(l.val), c, l.counter, c, l.counter + 1);
        },
        ExpV::ExternalCall { args, .. } => {
            let l = tag_list_v(args, c, m, true);
            lemma_list_binders(args, c, m);
            lemma_rising_weaken(list_binders(l.val), c, l.counter, c, l.counter + 1);
        },
        _ => {},
    }
}

proof fn lemma_list_binders<S>(es: Seq<ExpV<S>>, c: int, m: Map<Name, Name>)
    requires
        c >= 0,
    ensures
        tag_list_v(es, c, m, true).counter >= c,
        rising(list_binders(tag_list_v(es, c, m, true).val), c, tag_list_v(es, c, m, true).counter),
    decreases es,
{
    if es.len() > 0 {
        let r0 = tag_list_v(es.drop_last(), c, m, true);
        lemma_list_binders(es.drop_last(), c, m);
        let x = tag_v(es.last(), r0.counter, r0.map, true);
        lemma_tag_binders(es.last(), r0.counter, r0.map);
        let v = tag_list_v(es, c, m, true).val;
        assert(v.drop_last() =~= r0.val);
        lemma_rising_concat(list_binders(r0.val), var_binders(x.val), c, r0.counter, r0.counter, x.counter);
    } else {
        assert(list_binders(tag_list_v(es, c, m, true).val) =~= Seq::<Name>::empty());
    }
}

proof fn lemma_bindings_binders<S>(bs: Seq<(Name, ExpV<S>)>, c: int, m: Map<Name, Name>)
    requires
        c >= 0,
    ensures
        tag_bindings_v(bs, c, m, true).counter >= c,
        rising(bindings_binders(tag_bindings_v(bs, c, m, true).val), c, tag_bindings_v(bs, c, m, true).counter + 1),
    decreases bs,
{
    if bs.len() > 0 {
        let r0 = tag_bindings_v(bs.drop_last(), c, m, true);
        lemma_bindings_binders(bs.drop_last(), c, m);
        let e = tag_v(bs.last().1, r0.counter, r0.map, true);
        lemma_tag_binders(bs.last().1, r0.counter, r0.map);
        let new_x = suffixed(bs.last().0, e.counter);
        lemma_suffixed_number(bs.last().0, e.counter);
        let v = tag_bindings_v(bs, c, m, true).val;
        assert(v.drop_last() =~= r0.val);
        assert(v.last() == (new_x, e.val));
        let bb0 = bindings_binders(r0.val);
        let vbe = var_binders(e.val);
        lemma_rising_concat(bb0, vbe, c, r0.counter + 1, r0.counter, e.counter);
        lemma_rising_one(new_x, e.counter - 1, e.counter + 1);
        lemma_rising_concat(bb0 + vbe, seq![new_x], c, e.counter, e.counter - 1, e.counter + 1);
    } else {
        assert(bindings_binders(tag_bindings_v(bs, c, m, true).val) =~= Seq::<Name>::empty());
    }
}

proof fn lemma_bodies_binders<S>(ds: Seq<DeclV<ExpV<S>, S>>, names: Seq<Name>, c: int, m: Map<Name, Name>)
    requires
        c >= 0,
    ensures
        tag_fun_bodies_v(ds, names, c, m, true).counter >= c,
        rising(decls_binders(tag_fun_bodies_v(ds, names, c, m, true).val), c - 1, tag_fun_bodies_v(ds, names, c, m, true).counter),
    decreases ds,
{
    if ds.len() > 0 {
        let r0 = tag_fun_bodies_v(ds.drop_last(), names, c, m, true);
        lemma_bodies_binders(ds.drop_last(), names, c, m);
        let d = ds.last();
        let p = tag_params_v(d.parameters, r0.counter, m);
        lemma_params_rising(d.parameters, r0.counter, m);
        let b = tag_v(d.body, p.counter, p.map, true);
        lemma_tag_binders(d.body, p.counter, p.map);
        let v = tag_fun_bodies_v(ds, names, c, m, true).val;
        assert(v.drop_last() =~= r0.val);
        assert(v.last().parameters == p.val && v.last().body == b.val);
        let db0 = decls_binders(r0.val);
        lemma_rising_concat(db0, p.val, c - 1, r0.counter, r0.counter - 1, p.counter);
        lemma_rising_concat(db0 + p.val, var_binders(b.val), c - 1, p.counter, p.counter, b.counter + 1);
    } else {
        assert(decls_binders(tag_fun_bodies_v(ds, names, c, m, true).val) =~= Seq::<Name>::empty());
    }
}

/// Renaming gives every variable its own name: the let-bound names and
/// parameters of a renamed program are pairwise distinct.
pub proof fn lemma_uniquify_distinct_variables<S>(e: ExpV<S>)
    ensures
        var_binders(tag_v(e, 0, Map::empty(), true).val).no_duplicates(),
{
    lemma_tag_binders(e, 0, Map::empty());
    lemma_rising_distinct(var_binders(tag_v(e, 0, Map::empty(), true).val), 0, tag_v(e, 0, Map::empty(), true).counter);
}

proof fn lemma_rising_distinct(s: Seq<Name>, lo: int, hi: int)
    requires
        rising(s, lo, hi),
    ensures
        s.no_duplicates(),
{
    assert forall|i: int, j: int| 0 <= i < s.len() && 0 <= j < s.len() && i != j implies s[i] != s[j] by {
        if i < j {
            assert(trailing_number(s[i]) < trailing_number(s[j]));
        } else {
            assert(trailing_number(s[j]) < trailing_number(s[i]));
        }
    }
}

} // verus!

verus! {

/// The annotation at the root of an expression.
pub open spec fn exp_root_ann(e: ExpV<u32>) -> u32 {
    match e {
        ExpV::Num(_, a) => a,
        ExpV::Bool(_, a) => a,
        ExpV::Float(_, a) => a,
        ExpV::Var(_, a) => a,
        ExpV::Prim(_, _, a) => a,
        ExpV::Let { ann, .. } => ann,
        ExpV::If { ann, .. } => ann,
        ExpV::FunDefs { ann, .. } => ann,
        ExpV::Call(_, _, a) => a,
        ExpV::InternalTailCall(_, _, a) => a,
        ExpV::ExternalCall { ann, .. } => ann,
    }
}

/// The annotations of an expression and of its definitions, in post-order.
pub open spec fn exp_anns(e: ExpV<u32>) -> Seq<u32>
    decreases e,
{
    match e {
        ExpV::Prim(_, es, a) => list_anns(es) + seq![a],
        ExpV::Let { bindings, body, ann } => bindings_anns(bindings) + exp_anns(*body) + seq![ann],
        ExpV::If { cond, thn, els, ann } => exp_anns(*cond) + exp_anns(*thn) + exp_anns(*els) + seq![ann],
        ExpV::FunDefs { decls, body, ann } => fun_decls_anns(decls) + exp_anns(*body) + seq![ann],
        ExpV::Call(_, args, a) => list_anns(args) + seq![a],
        ExpV::InternalTailCall(_, args, a) => list_anns(args) + seq![a],
        ExpV::ExternalCall { args, ann, .. } => list_anns(args) + seq![ann],
        _ => seq![exp_root_ann(e)],
    }
}

pub open spec fn list_anns(es: Seq<ExpV<u32>>) -> Seq<u32>
    decreases es,
{
    if es.len() == 0 { Seq::empty() } else { list_anns(es.drop_last()) + exp_anns(es.last()) }
}

pub open spec fn bindings_anns(bs: Seq<(Name, ExpV<u32>)>) -> Seq<u32>
    decreases bs,
{
    if bs.len() == 0 { Seq::empty() } else { bindings_anns(bs.drop_last()) + exp_anns(bs.last().1) }
}

pub open spec fn fun_decls_anns(ds: Seq<DeclV<ExpV<u32>, u32>>) -> Seq<u32>
    decreases ds,
{
    if ds.len() == 0 {
        Seq::empty()
    } else {
        fun_decls_anns(ds.drop_last()) + exp_anns(ds.last().body) + seq![ds.last().ann]
    }
}

/// Strictly increasing numbers, all in `lo .. hi`.
pub open spec fn ann_rising(s: Seq<u32>, lo: int, hi: int) -> bool {
    &&& forall|i: int| 0 <= i < s.len() ==> lo <= #[trigger] s[i] < hi
    &&& forall|i: int, j: int| 0 <= i < j < s.len() ==> s[i] < s[j]
}

proof fn lemma_ann_rising_concat(a: Seq<u32>, b: Seq<u32>, lo: int, x: int, hi: int)
    requires
        ann_rising(a, lo, x),
        ann_rising(b, x, hi),
        lo <= x <= hi,
    ensures
        ann_rising(a + b, lo, hi),
{
    let s = a + b;
    assert forall|i: int| 0 <= i < s.len() implies lo <= #[trigger] s[i] < hi by {
        if i >= a.len() {
            assert(s[i] == b[i - a.len()]);
        }
    }
    assert forall|i: int, j: int| 0 <= i < j < s.len() implies s[i] < s[j] by {
        if j < a.len() {
        } else if i >= a.len() {
            assert(s[i] == b[i - a.len()] && s[j] == b[j - a.len()]);
        } else {
            assert(s[j] == b[j - a.len()]);
            assert(a[i] < x);
        }
    }
}

/// Tagging numbers every node and every definition of an expression with
/// strictly increasing annotations in post-order, all from the counter it
/// starts with up to (not including) the one it ends with; the root
/// carries the last one.
pub proof fn lemma_tag_anns<S>(e: ExpV<S>, c: int, m: Map<Name, Name>, u: bool)
    requires
        0 <= c,
        tag_v(e, c, m, u).ok,
    ensures
        tag_v(e, c, m, u).counter > c,
        ann_rising(exp_anns(tag_v(e, c, m, u).val), c, tag_v(e, c, m, u).counter),
        exp_root_ann(tag_v(e, c, m, u).val) == tag_v(e, c, m, u).counter - 1,
    decreases e,
{
    let r = tag_v(e, c, m, u);
    match e {
        ExpV::Prim(_, es, _) => {
            let l = tag_list_v(es, c, m, u);
            lemma_list_anns(es, c, m, u);
            lemma_ann_rising_concat(list_anns(l.val), seq![l.counter as u32], c, l.counter, l.counter + 1);
        },
        ExpV::Let { bindings, body, .. } => {
            let rb = tag_bindings_v(bindings, c, m, u);
            lemma_bindings_anns(bindings, c, m, u);
            let b = tag_v(*body, rb.counter, rb.map, u);
            lemma_tag_anns(*body, rb.counter, rb.map, u);
            lemma_ann_rising_concat(bindings_anns(rb.val), exp_anns(b.val), c, rb.counter, b.counter);
            lemma_ann_rising_concat(bindings_anns(rb.val) + exp_anns(b.val), seq![b.counter as u32], c, b.counter, b.counter + 1);
        },
        ExpV::If { cond, thn, els, .. } => {
            let r1 = tag_v(*cond, c, m, u);
            let r2 = tag_v(*thn, r1.counter, r1.map, u);
            let r3 = tag_v(*els, r2.counter, r2.map, u);
            lemma_tag_anns(*cond, c, m, u);
            lemma_tag_anns(*thn, r1.counter, r1.map, u);
            lemma_tag_anns(*els, r2.counter, r2.map, u);
            let a1 = exp_anns(r1.val);
            let a2 = exp_anns(r2.val);
            let a3 = exp_anns(r3.val);
            lemma_ann_rising_concat(a1, a2, c, r1.counter, r2.counter);
            lemma_ann_rising_concat(a1 + a2, a3, c, r2.counter, r3.counter);
            lemma_ann_rising_concat(a1 + a2 + a3, seq![r3.counter as u32], c, r3.counter, r3.counter + 1);
        },
        ExpV::FunDefs { decls, body, .. } => {
            let r1 = tag_fun_names_v(decls, c, m);
            lemma_fun_names_counter(decls, c, m);
            let r2 = tag_fun_bodies_v(decls, r1.val, r1.counter, r1.map, u);
            lemma_bodies_anns(decls, r1.val, r1.counter, r1.map, u);
            let r3 = tag_v(*body, r2.counter, r1.map, u);
            lemma_tag_anns(*body, r2.counter, r1.map, u);
            let a1 = fun_decls_anns(r2.val);
            let a2 = exp_anns(r3.val);
            assert(ann_rising(a1, c, r2.counter));
            lemma_ann_rising_concat(a1, a2, c, r2.counter, r3.counter);
            lemma_ann_rising_concat(a1 + a2, seq![r3.counter as u32], c, r3.counter, r3.counter + 1);
        },
        ExpV::Call(_, args, _) => {
            let l = tag_list_v(args, c, m, u);
            lemma_list_anns(args, c, m, u);
            lemma_ann_rising_concat(list_anns(l.val), seq![l.counter as u32], c, l.counter, l.counter + 1);
        },
        ExpV::InternalTailCall(_, args, _) => {
            let l = tag_list_v(args, c, m, u);
            lemma_list_anns(args, c, m, u);
            lemma_ann_rising_concat(list_anns(l.val), seq![l.counter as u32], c, l.counter, l.counter + 1);
        },
        ExpV::ExternalCall { args, .. } => {
            let l = tag_list_v(args, c, m, u);
            lemma_list_anns(args, c, m, u);
            lemma_ann_rising_concat(list_anns(l.val), seq![l.counter as u32], c, l.counter, l.counter + 1);
        },
        _ => {},
    }
}

proof fn lemma_list_anns<S>(es: Seq<ExpV<S>>, c: int, m: Map<Name, Name>, u: bool)
    requires
        0 <= c,
        tag_list_v(es, c, m, u).ok,
    ensures
        tag_list_v(es, c, m, u).counter >= c,
        ann_rising(list_anns(tag_list_v(es, c, m, u).val), c, tag_list_v(es, c, m, u).counter),
    decreases es,
{
    if es.len() > 0 {
        let r0 = tag_list_v(es.drop_last(), c, m, u);
        lemma_list_anns(es.drop_last(), c, m, u);
        let x = tag_v(es.last(), r0.counter, r0.map, u);
        lemma_tag_anns(es.last(), r0.counter, r0.map, u);
        let v = tag_list_v(es, c, m, u).val;
        assert(v.drop_last() =~= r0.val);
        lemma_ann_rising_concat(list_anns(r0.val), exp_anns(x.val), c, r0.counter, x.counter);
    } else {
        assert(list_anns(tag_list_v(es, c, m, u).val) =~= Seq::<u32>::empty());
    }
}

proof fn lemma_bindings_anns<S>(bs: Seq<(Name, ExpV<S>)>, c: int, m: Map<Name, Name>, u: bool)
    requires
        0 <= c,
        tag_bindings_v(bs, c, m, u).ok,
    ensures
        tag_bindings_v(bs, c, m, u).counter >= c,
        ann_rising(bindings_anns(tag_bindings_v(bs, c, m, u).val), c, tag_bindings_v(bs, c, m, u).counter),
    decreases bs,
{
    if bs.len() > 0 {
        let r0 = tag_bindings_v(bs.drop_last(), c, m, u);
        lemma_bindings_anns(bs.drop_last(), c, m, u);
        let x = tag_v(bs.last().1, r0.counter, r0.map, u);
        lemma_tag_anns(bs.last().1, r0.counter, r0.map, u);
        let v = tag_bindings_v(bs, c, m, u).val;
        assert(v.drop_last() =~= r0.val);
        assert(v.last().1 == x.val);
        lemma_ann_rising_concat(bindings_anns(r0.val), exp_anns(x.val), c, r0.counter, x.counter);
    } else {
        assert(bindings_anns(tag_bindings_v(bs, c, m, u).val) =~= Seq::<u32>::empty());
    }
}

proof fn lemma_bodies_anns<S>(ds: Seq<DeclV<ExpV<S>, S>>, names: Seq<Name>, c: int, m: Map<Name, Name>, u: bool)
    requires
        0 <= c,
        tag_fun_bodies_v(ds, names, c, m, u).ok,
    ensures
        tag_fun_bodies_v(ds, names, c, m, u).counter >= c,
        ann_rising(fun_decls_anns(tag_fun_bodies_v(ds, names, c, m, u).val), c, tag_fun_bodies_v(ds, names, c, m, u).counter),
    decreases ds,
{
    if ds.len() > 0 {
        let r0 = tag_fun_bodies_v(ds.drop_last(), names, c, m, u);
        lemma_bodies_anns(ds.drop_last(), names, c, m, u);
        let d = ds.last();
        let p = tag_params_v(d.parameters, r0.counter, m);
        lemma_params_rising(d.parameters, r0.counter, m);
        let b = tag_v(d.body, p.counter, p.map, u);
        lemma_tag_anns(d.body, p.counter, p.map, u);
        let v = tag_fun_bodies_v(ds, names, c, m, u).val;
        assert(v.drop_last() =~= r0.val);
        assert(v.last().body == b.val && v.last().ann == b.counter as u32);
        let a0 = fun_decls_anns(r0.val);
        assert(ann_rising(exp_anns(b.val), r0.counter, b.counter));
        lemma_ann_rising_concat(a0, exp_anns(b.val), c, r0.counter, b.counter);
        lemma_ann_rising_concat(a0 + exp_anns(b.val), seq![b.counter as u32], c, b.counter, b.counter + 1);
    } else {
        assert(fun_decls_anns(tag_fun_bodies_v(ds, names, c, m, u).val) =~= Seq::<u32>::empty());
    }
}

} // verus!

verus! {

/// Number of nodes of a sequential expression, counting each definition of
/// a group once more.
pub open spec fn seq_nodes<S>(e: SeqExpV<S>) -> nat
    decreases e,
{
    match e {
        SeqExpV::Let { bound_exp, body, .. } => seq_nodes(*bound_exp) + seq_nodes(*body) + 1,
        SeqExpV::If { thn, els, .. } => seq_nodes(*thn) + seq_nodes(*els) + 1,
        SeqExpV::FunDefs { decls, body, .. } => seq_decls_nodes(decls) + seq_nodes(*body) + 1,
        _ => 1,
    }
}

pub open spec fn seq_decls_nodes<S>(ds: Seq<DeclV<SeqExpV<S>, S>>) -> nat
    decreases ds,
{
    if ds.len() == 0 { 0 } else { seq_decls_nodes(ds.drop_last()) + seq_nodes(ds.last().body) + 1 }
}

/// The annotation at the root of a sequential expression.
pub open spec fn seq_root_ann(e: SeqExpV<u32>) -> u32 {
    match e {
        SeqExpV::Imm(_, a) => a,
        SeqExpV::Prim(_, _, a) => a,
        SeqExpV::Let { ann, .. } => ann,
        SeqExpV::If { ann, .. } => ann,
        SeqExpV::FunDefs { ann, .. } => ann,
        SeqExpV::InternalTailCall(_, _, a) => a,
        SeqExpV::ExternalCall { ann, .. } => ann,
    }
}

/// Tagging a sequential expression steps the counter once per node and per
/// definition, and the root carries the last number.
pub proof fn lemma_tag_seq_count<S>(e: SeqExpV<S>, c: int)
    ensures
        tag_seq_v(e, c).counter == c + seq_nodes(e),
        seq_root_ann(tag_seq_v(e, c).val) == (tag_seq_v(e, c).counter - 1) as u32,
    decreases e,
{
    match e {
        SeqExpV::Let { bound_exp, body, .. } => {
            lemma_tag_seq_count(*bound_exp, c);
            lemma_tag_seq_count(*body, tag_seq_v(*bound_exp, c).counter);
        },
        SeqExpV::If { thn, els, .. } => {
            lemma_tag_seq_count(*thn, c);
            lemma_tag_seq_count(*els, tag_seq_v(*thn, c).counter);
        },
        SeqExpV::FunDefs { decls, body, .. } => {
            lemma_tag_seq_decls_count(decls, c);
            lemma_tag_seq_count(*body, tag_seq_decls_v(decls, c).counter);
        },
        _ => {},
    }
}

pub proof fn lemma_tag_seq_decls_count<S>(ds: Seq<DeclV<SeqExpV<S>, S>>, c: int)
    ensures
        tag_seq_decls_v(ds, c).counter == c + seq_decls_nodes(ds),
    decreases ds,
{
    if ds.len() > 0 {
        lemma_tag_seq_decls_count(ds.drop_last(), c);
        lemma_tag_seq_count(ds.last().body, tag_seq_decls_v(ds.drop_last(), c).counter);
    }
}

} // verus!

verus! {

/// Tagging `e` (with renaming) may change what the renaming map says of
/// `x`: `x` is bound by a let of `e` outside any group's definitions, or
/// names a function of a group of `e`.
pub open spec fn renames<S>(e: ExpV<S>, x: Name) -> bool
    decreases e,
{
    match e {
        ExpV::Prim(_, es, _) => list_renames(es, x),
        ExpV::Let { bindings, body, .. } => bindings_rename(bindings, x) || renames(*body, x),
        ExpV::If { cond, thn, els, .. } => renames(*cond, x) || renames(*thn, x) || renames(*els, x),
        ExpV::FunDefs { decls, body, .. } => decls_named(decls, x) || renames(*body, x),
        ExpV::Call(_, args, _) => list_renames(args, x),
        ExpV::InternalTailCall(_, args, _) => list_renames(args, x),
        ExpV::ExternalCall { args, .. } => list_renames(args, x),
        _ => false,
    }
}

pub open spec fn list_renames<S>(es: Seq<ExpV<S>>, x: Name) -> bool
    decreases es,
{
    es.len() > 0 && (list_renames(es.drop_last(), x) || renames(es.last(), x))
}

pub open spec fn bindings_rename<S>(bs: Seq<(Name, ExpV<S>)>, x: Name) -> bool
    decreases bs,
{
    bs.len() > 0 && (bindings_rename(bs.drop_last(), x) || bs.last().0 == x || renames(bs.last().1, x))
}

pub open spec fn decls_named<S>(ds: Seq<DeclV<ExpV<S>, S>>, x: Name) -> bool
    decreases ds.len(),
{
    ds.len() > 0 && (decls_named(ds.drop_last(), x) || ds.last().name == x)
}

/// The two maps say the same of `x`.
pub open spec fn agree_on(m1: Map<Name, Name>, m2: Map<Name, Name>, x: Name) -> bool {
    &&& m1.contains_key(x) == m2.contains_key(x)
    &&& m1.contains_key(x) ==> m1[x] == m2[x]
}

proof fn lemma_tag_map_frame<S>(e: ExpV<S>, c: int, m: Map<Name, Name>, u: bool, x: Name)
    requires
        !renames(e, x),
    ensures
        agree_on(tag_v(e, c, m, u).map, m, x),
    decreases e,
{
    match e {
        ExpV::Prim(_, es, _) => lemma_tag_list_map_frame(es, c, m, u, x),
        ExpV::Let { bindings, body, .. } => {
            lemma_tag_bindings_map_frame(bindings, c, m, u, x);
            let r = tag_bindings_v(bindings, c, m, u);
            lemma_tag_map_frame(*body, r.counter, r.map, u, x);
        },
        ExpV::If { cond, thn, els, .. } => {
            let r1 = tag_v(*cond, c, m, u);
            lemma_tag_map_frame(*cond, c, m, u, x);
            let r2 = tag_v(*thn, r1.counter, r1.map, u);
            lemma_tag_map_frame(*thn, r1.counter, r1.map, u, x);
            lemma_tag_map_frame(*els, r2.counter, r2.map, u, x);
        },
        ExpV::FunDefs { decls, body, .. } => {
            lemma_tag_fun_names_map_frame(decls, c, m, x);
            let r1 = tag_fun_names_v(decls, c, m);
            let r2 = tag_fun_bodies_v(decls, r1.val, r1.counter, r1.map, u);
            lemma_tag_map_frame(*body, r2.counter, r1.map, u, x);
        },
        ExpV::Call(_, args, _) => lemma_tag_list_map_frame(args, c, m, u, x),
        ExpV::InternalTailCall(_, args, _) => lemma_tag_list_map_frame(args, c, m, u, x),
        ExpV::ExternalCall { args, .. } => lemma_tag_list_map_frame(args, c, m, u, x),
        _ => {},
    }
}

proof fn lemma_tag_list_map_frame<S>(es: Seq<ExpV<S>>, c: int, m: Map<Name, Name>, u: bool, x: Name)
    requires
        !list_renames(es, x),
    ensures
        agree_on(tag_list_v(es, c, m, u).map, m, x),
    decreases es,
{
    if es.len() > 0 {
        lemma_tag_list_map_frame(es.drop_last(), c, m, u, x);
        let r = tag_list_v(es.drop_last(), c, m, u);
        lemma_tag_map_frame(es.last(), r.counter, r.map, u, x);
    }
}

proof fn lemma_tag_bindings_map_frame<S>(bs: Seq<(Name, ExpV<S>)>, c: int, m: Map<Name, Name>, u: bool, x: Name)
    requires
        !bindings_rename(bs, x),
    ensures
        agree_on(tag_bindings_v(bs, c, m, u).map, m, x),
    decreases bs,
{
    if bs.len() > 0 {
        lemma_tag_bindings_map_frame(bs.drop_last(), c, m, u, x);
        let r = tag_bindings_v(bs.drop_last(), c, m, u);
        lemma_tag_map_frame(bs.last().1, r.counter, r.map, u, x);
    }
}

proof fn lemma_tag_fun_names_map_frame<S>(ds: Seq<DeclV<ExpV<S>, S>>, c: int, m: Map<Name, Name>, x: Name)
    requires
        !decls_named(ds, x),
    ensures
        agree_on(tag_fun_names_v(ds, c, m).map, m, x),
    decreases ds.len(),
{
    if ds.len() > 0 {
        lemma_tag_fun_names_map_frame(ds.drop_last(), c, m, x);
    }
}

/// After renaming the bindings `bs`, the map sends the name of binding `i`
/// to that binding's new name, when no later binding rebinds the name or
/// renames it in its bound expression.
proof fn lemma_bindings_scope<S>(bs: Seq<(Name, ExpV<S>)>, c: int, m: Map<Name, Name>, i: int)
    requires
        0 <= i < bs.len(),
        forall|k: int| i < k < bs.len() ==> #[trigger] bs[k].0 != bs[i].0 && !renames(bs[k].1, bs[i].0),
    ensures
        tag_bindings_v(bs, c, m, true).val.len() == bs.len(),
        tag_bindings_v(bs, c, m, true).map.contains_key(bs[i].0),
        tag_bindings_v(bs, c, m, true).map[bs[i].0] == tag_bindings_v(bs, c, m, true).val[i].0,
    decreases bs.len(),
{
    let n = bs.len() - 1;
    let pre = bs.drop_last();
    let r = tag_bindings_v(pre, c, m, true);
    lemma_tag_bindings_len(pre, c, m, true);
    if i < n {
        assert forall|k: int| i < k < pre.len() implies #[trigger] pre[k].0 != pre[i].0 && !renames(pre[k].1, pre[i].0) by {
            assert(pre[k] == bs[k]);
            assert(pre[i] == bs[i]);
            assert(bs[k].0 != bs[i].0 && !renames(bs[k].1, bs[i].0));
        }
        lemma_bindings_scope(pre, c, m, i);
        assert(pre[i] == bs[i]);
        assert(bs[n].0 != bs[i].0 && !renames(bs[n].1, bs[i].0));
        lemma_tag_map_frame(bs.last().1, r.counter, r.map, true, bs[i].0);
    }
}

proof fn lemma_tag_bindings_len<S>(bs: Seq<(Name, ExpV<S>)>, c: int, m: Map<Name, Name>, u: bool)
    ensures
        tag_bindings_v(bs, c, m, u).val.len() == bs.len(),
    decreases bs.len(),
{
    if bs.len() > 0 {
        lemma_tag_bindings_len(bs.drop_last(), c, m, u);
    }
}

/// `e` is a read of the variable `x`.
pub open spec fn reads<S>(e: ExpV<S>, x: Name) -> bool {
    match e {
        ExpV::Var(y, _) => y == x,
        _ => false,
    }
}

proof fn lemma_bindings_scope_use<S>(bs: Seq<(Name, ExpV<S>)>, c: int, m: Map<Name, Name>, i: int, j: int)
    requires
        0 <= i < j < bs.len(),
        reads(bs[j].1, bs[i].0),
        forall|k: int| i < k < j ==> #[trigger] bs[k].0 != bs[i].0 && !renames(bs[k].1, bs[i].0),
    ensures
        reads(tag_bindings_v(bs, c, m, true).val[j].1, tag_bindings_v(bs, c, m, true).val[i].0),
    decreases bs.len(),
{
    let n = bs.len() - 1;
    let pre = bs.drop_last();
    let r = tag_bindings_v(pre, c, m, true);
    lemma_tag_bindings_len(pre, c, m, true);
    assert(pre[i] == bs[i]);
    if j < n {
        assert(pre[j] == bs[j]);
        assert forall|k: int| i < k < j implies #[trigger] pre[k].0 != pre[i].0 && !renames(pre[k].1, pre[i].0) by {
            assert(pre[k] == bs[k]);
            assert(bs[k].0 != bs[i].0 && !renames(bs[k].1, bs[i].0));
        }
        lemma_bindings_scope_use(pre, c, m, i, j);
    } else {
        assert forall|k: int| i < k < pre.len() implies #[trigger] pre[k].0 != pre[i].0 && !renames(pre[k].1, pre[i].0) by {
            assert(pre[k] == bs[k]);
            assert(bs[k].0 != bs[i].0 && !renames(bs[k].1, bs[i].0));
        }
        lemma_bindings_scope(pre, c, m, i);
        let full = tag_bindings_v(bs, c, m, true);
        let e = tag_v(bs[n].1, r.counter, r.map, true);
        assert(bs.last() == bs[n]);
        assert(full.val == r.val.push((suffixed(bs[n].0, e.counter), e.val)));
        assert(full.val[i] == r.val[i]);
        assert(full.val[j] == (suffixed(bs[n].0, e.counter), e.val));
        match bs[n].1 {
            ExpV::Var(y, a) => {
                assert(e.val == ExpV::<u32>::Var(r.map[y], r.counter as u32));
            },
            _ => {},
        }
    }
}

/// Renaming keeps the scoping of a let: when a later binding's expression,
/// or the let's body, is a read of the name of binding `i`, and nothing in
/// between rebinds that name, the read becomes a read of binding `i`'s new
/// name.
pub proof fn lemma_let_renaming_keeps_scopes<S>(bs: Seq<(Name, ExpV<S>)>, body: ExpV<S>, ann: S, c: int, m: Map<Name, Name>, i: int)
    requires
        0 <= i < bs.len(),
    ensures
        ({
            let t = tag_v(ExpV::Let { bindings: bs, body: Box::new(body), ann }, c, m, true).val;
            let rs = t->Let_bindings;
            let rb = *t->Let_body;
            &&& t is Let
            &&& rs.len() == bs.len()
            &&& forall|j: int|
                i < j < bs.len() && (reads(bs[j].1, bs[i].0))
                    && (forall|k: int| i < k < j ==> #[trigger] bs[k].0 != bs[i].0 && !renames(bs[k].1, bs[i].0))
                ==> reads((#[trigger] rs[j]).1, rs[i].0)
            &&& (reads(body, bs[i].0)
                && (forall|k: int| i < k < bs.len() ==> #[trigger] bs[k].0 != bs[i].0 && !renames(bs[k].1, bs[i].0)))
                ==> reads(rb, rs[i].0)
        }),
{
    let r = tag_bindings_v(bs, c, m, true);
    lemma_tag_bindings_len(bs, c, m, true);
    assert forall|j: int|
        i < j < bs.len() && (reads(bs[j].1, bs[i].0))
            && (forall|k: int| i < k < j ==> #[trigger] bs[k].0 != bs[i].0 && !renames(bs[k].1, bs[i].0))
        implies reads((#[trigger] r.val[j]).1, r.val[i].0) by {
        lemma_bindings_scope_use(bs, c, m, i, j);
    }
    if reads(body, bs[i].0)
        && (forall|k: int| i < k < bs.len() ==> #[trigger] bs[k].0 != bs[i].0 && !renames(bs[k].1, bs[i].0)) {
        lemma_bindings_scope(bs, c, m, i);
        match body {
            ExpV::Var(y, a) => {
                assert(tag_v(body, r.counter, r.map, true).val == ExpV::<u32>::Var(r.map[y], r.counter as u32));
            },
            _ => {},
        }
    }
}

} // verus!

verus! {

proof fn lemma_params_scope(ps: Seq<Name>, c: int, m: Map<Name, Name>, q: int)
    requires
        0 <= q < ps.len(),
        forall|k: int| q < k < ps.len() ==> #[trigger] ps[k] != ps[q],
    ensures
        tag_params_v(ps, c, m).val.len() == ps.len(),
        tag_params_v(ps, c, m).map.contains_key(ps[q]),
        tag_params_v(ps, c, m).map[ps[q]] == tag_params_v(ps, c, m).val[q],
    decreases ps.len(),
{
    let n = ps.len() - 1;
    let pre = ps.drop_last();
    lemma_params_len(pre, c, m);
    if q < n {
        assert forall|k: int| q < k < pre.len() implies #[trigger] pre[k] != pre[q] by {
            assert(pre[k] == ps[k] && pre[q] == ps[q]);
        }
        lemma_params_scope(pre, c, m, q);
        assert(pre[q] == ps[q]);
        assert(ps[n] != ps[q]);
    }
}

proof fn lemma_params_len(ps: Seq<Name>, c: int, m: Map<Name, Name>)
    ensures
        tag_params_v(ps, c, m).val.len() == ps.len(),
    decreases ps.len(),
{
    if ps.len() > 0 {
        lemma_params_len(ps.drop_last(), c, m);
    }
}

proof fn lemma_fun_bodies_len<S>(ds: Seq<DeclV<ExpV<S>, S>>, names: Seq<Name>, c: int, m: Map<Name, Name>, u: bool)
    ensures
        tag_fun_bodies_v(ds, names, c, m, u).val.len() == ds.len(),
        u ==> forall|i: int| 0 <= i < ds.len() ==> #[trigger] tag_fun_bodies_v(ds, names, c, m, u).val[i].name == names[i],
    decreases ds,
{
    if ds.len() > 0 {
        lemma_fun_bodies_len(ds.drop_last(), names, c, m, u);
        let r = tag_fun_bodies_v(ds.drop_last(), names, c, m, u);
        assert forall|i: int| u && 0 <= i < ds.len() implies #[trigger] tag_fun_bodies_v(ds, names, c, m, u).val[i].name == names[i] by {
            if i < ds.len() - 1 {
                assert(tag_fun_bodies_v(ds, names, c, m, u).val[i] == r.val[i]);
            }
        }
    }
}

proof fn lemma_fun_bodies_param_read<S>(ds: Seq<DeclV<ExpV<S>, S>>, names: Seq<Name>, c: int, m: Map<Name, Name>, i: int, q: int)
    requires
        0 <= i < ds.len(),
        0 <= q < ds[i].parameters.len(),
        forall|k: int| q < k < ds[i].parameters.len() ==> #[trigger] ds[i].parameters[k] != ds[i].parameters[q],
        reads(ds[i].body, ds[i].parameters[q]),
    ensures
        reads(tag_fun_bodies_v(ds, names, c, m, true).val[i].body, tag_fun_bodies_v(ds, names, c, m, true).val[i].parameters[q]),
    decreases ds,
{
    let n = ds.len() - 1;
    let pre = ds.drop_last();
    let r = tag_fun_bodies_v(pre, names, c, m, true);
    lemma_fun_bodies_len(pre, names, c, m, true);
    let full = tag_fun_bodies_v(ds, names, c, m, true);
    if i < n {
        assert(pre[i] == ds[i]);
        lemma_fun_bodies_param_read(pre, names, c, m, i, q);
        assert(full.val[i] == r.val[i]);
    } else {
        let d = ds.last();
        assert(d == ds[i]);
        let p = tag_params_v(d.parameters, r.counter, m);
        lemma_params_scope(d.parameters, r.counter, m, q);
        let b = tag_v(d.body, p.counter, p.map, true);
        assert(full.val[i].body == b.val);
        assert(full.val[i].parameters == p.val);
        match d.body {
            ExpV::Var(y, a) => {
                assert(b.val == ExpV::<u32>::Var(p.map[y], p.counter as u32));
            },
            _ => {},
        }
    }
}

proof fn lemma_fun_names_scope<S>(ds: Seq<DeclV<ExpV<S>, S>>, c: int, m: Map<Name, Name>, j: int)
    requires
        0 <= j < ds.len(),
        forall|k: int| j < k < ds.len() ==> #[trigger] ds[k].name != ds[j].name,
    ensures
        tag_fun_names_v(ds, c, m).val.len() == ds.len(),
        tag_fun_names_v(ds, c, m).map.contains_key(ds[j].name),
        tag_fun_names_v(ds, c, m).map[ds[j].name] == tag_fun_names_v(ds, c, m).val[j],
    decreases ds.len(),
{
    let n = ds.len() - 1;
    let pre = ds.drop_last();
    lemma_fun_names_len(pre, c, m);
    if j < n {
        assert forall|k: int| j < k < pre.len() implies #[trigger] pre[k].name != pre[j].name by {
            assert(pre[k] == ds[k] && pre[j] == ds[j]);
        }
        lemma_fun_names_scope(pre, c, m, j);
        assert(pre[j] == ds[j]);
        assert(ds[n].name != ds[j].name);
    }
}

proof fn lemma_fun_names_len<S>(ds: Seq<DeclV<ExpV<S>, S>>, c: int, m: Map<Name, Name>)
    ensures
        tag_fun_names_v(ds, c, m).val.len() == ds.len(),
    decreases ds.len(),
{
    if ds.len() > 0 {
        lemma_fun_names_len(ds.drop_last(), c, m);
    }
}

/// `e` is a call of the function `f`.
pub open spec fn calls<S>(e: ExpV<S>, f: Name) -> bool {
    match e {
        ExpV::Call(g, _, _) => g == f,
        _ => false,
    }
}

/// Renaming keeps the scoping of a group of definitions: a body that reads
/// one of its function's parameters reads that parameter's new name, and a
/// group body that calls a function of the group (with arguments that do
/// not rebind its name) calls that function's new name.
pub proof fn lemma_fundefs_renaming_keeps_scopes<S>(decls: Seq<DeclV<ExpV<S>, S>>, body: ExpV<S>, ann: S, c: int, m: Map<Name, Name>)
    ensures
        ({
            let t = tag_v(ExpV::FunDefs { decls, body: Box::new(body), ann }, c, m, true).val;
            let rds = t->FunDefs_decls;
            let rb = *t->FunDefs_body;
            &&& t is FunDefs
            &&& rds.len() == decls.len()
            &&& forall|i: int, q: int|
                #![trigger rds[i].parameters[q]]
                0 <= i < decls.len() && 0 <= q < decls[i].parameters.len()
                    && (forall|k: int| q < k < decls[i].parameters.len() ==> #[trigger] decls[i].parameters[k] != decls[i].parameters[q])
                    && reads(decls[i].body, decls[i].parameters[q])
                ==> reads(rds[i].body, rds[i].parameters[q])
            &&& forall|j: int|
                0 <= j < decls.len() && calls(body, decls[j].name)
                    && (forall|k: int| j < k < decls.len() ==> #[trigger] decls[k].name != decls[j].name)
                    && !list_renames(body->Call_1, decls[j].name)
                ==> calls(rb, #[trigger] rds[j].name)
        }),
{
    let r1 = tag_fun_names_v(decls, c, m);
    let r2 = tag_fun_bodies_v(decls, r1.val, r1.counter, r1.map, true);
    lemma_fun_bodies_len(decls, r1.val, r1.counter, r1.map, true);
    lemma_fun_names_len(decls, c, m);
    assert forall|i: int, q: int|
        #![trigger r2.val[i].parameters[q]]
        0 <= i < decls.len() && 0 <= q < decls[i].parameters.len()
            && (forall|k: int| q < k < decls[i].parameters.len() ==> #[trigger] decls[i].parameters[k] != decls[i].parameters[q])
            && reads(decls[i].body, decls[i].parameters[q])
        implies reads(r2.val[i].body, r2.val[i].parameters[q]) by {
        lemma_fun_bodies_param_read(decls, r1.val, r1.counter, r1.map, i, q);
    }
    assert forall|j: int|
        0 <= j < decls.len() && calls(body, decls[j].name)
            && (forall|k: int| j < k < decls.len() ==> #[trigger] decls[k].name != decls[j].name)
            && !list_renames(body->Call_1, decls[j].name)
        implies calls(tag_v(body, r2.counter, r1.map, true).val, #[trigger] r2.val[j].name) by {
        lemma_fun_names_scope(decls, c, m, j);
        match body {
            ExpV::Call(f, args, a) => {
                let r = tag_list_v(args, r2.counter, r1.map, true);
                lemma_tag_list_map_frame(args, r2.counter, r1.map, true, f);
            },
            _ => {},
        }
    }
}

} // verus!
