use vstd::prelude::*;

use crate::compile::{CompileErr, ErrKind, reports};
use crate::names::{NameMap, NameSet};
use crate::syntax::{DeclV, Exp, ExpV, FloatWrapper, FunDecl, Name, SurfProg, exp_view, exps_view, boxed_exps_view, bindings_view, decls_view, names_view};

verus! {

/// Largest integer a program may write: `i64::MAX >> 1`.
pub const MAX_SNAKE_INT: i64 = 4611686018427387903i64;

/// Smallest integer a program may write: `i64::MIN >> 1`.
pub const MIN_SNAKE_INT: i64 = -4611686018427387904i64;

/// Bit pattern of `f32::MAX` as a double; a double with sign bit cleared is
/// at most `f32::MAX` exactly when its bit pattern is at most this one.
pub const F32_MAX_AS_F64_BITS: u64 = 0x47EF_FFFF_E000_0000u64;

/// The literal's double lies between `f32::MIN` and `f32::MAX` (so neither
/// NaN nor an infinity): its magnitude bits, sign bit removed, are at most
/// those of `f32::MAX`.
pub open spec fn float_in_range(f: FloatWrapper) -> bool {
    f.0 % 0x8000_0000_0000_0000u64 <= F32_MAX_AS_F64_BITS
}

pub type CheckResult<Span> = Option<(ErrKind, Span)>;

/// The outcome of checking `e`, and the variable environment and function
/// arities after the check (the check adds let-bound names, parameters and
/// function names to the environments it is given).
pub open spec fn check_v<S>(e: ExpV<S>, env: Set<Name>, funs: Map<Name, usize>) -> (CheckResult<S>, Set<Name>, Map<Name, usize>)
    decreases e,
{
    match e {
        ExpV::Num(n, a) => (
            if MIN_SNAKE_INT <= n <= MAX_SNAKE_INT { None } else { Some((ErrKind::NumOverflow(n), a)) },
            env,
            funs,
        ),
        ExpV::Bool(_, _) => (None, env, funs),
        ExpV::Float(f, a) => (
            if float_in_range(f) { None } else { Some((ErrKind::FloatOverflow(f), a)) },
            env,
            funs,
        ),
        ExpV::Var(x, a) => (
            if env.contains(x) {
                None
            } else if funs.contains_key(x) {
                Some((ErrKind::FunctionUsedAsValue(x), a))
            } else {
                Some((ErrKind::UnboundVariable(x), a))
            },
            env,
            funs,
        ),
        ExpV::Prim(_, es, _) => (check_list_v(es, env, funs), env, funs),
        ExpV::Let { bindings, body, ann } => {
            let (r, env1) = check_bindings_v(bindings, env, funs, ann);
            if r is Some {
                (r, env1, funs)
            } else {
                (check_v(*body, env1, funs).0, env1, funs)
            }
        },
        ExpV::If { cond, thn, els, .. } => {
            let r1 = check_v(*cond, env, funs).0;
            let r2 = check_v(*thn, env, funs).0;
            let r3 = check_v(*els, env, funs).0;
            (if r1 is Some { r1 } else if r2 is Some { r2 } else { r3 }, env, funs)
        },
        ExpV::FunDefs { decls, body, ann } => {
            let (r1, funs1) = check_fun_names_v(decls, funs, ann);
            if r1 is Some {
                (r1, env, funs1)
            } else {
                let (r2, env2) = check_fun_bodies_v(decls, env, funs1, ann);
                if r2 is Some {
                    (r2, env2, funs1)
                } else {
                    (check_v(*body, env2, funs1).0, env2, funs1)
                }
            }
        },
        ExpV::Call(f, args, a) => (call_outcome(f, args.len(), a, env, funs, check_list_v(args, env, funs)), env, funs),
        ExpV::InternalTailCall(f, args, a) => (call_outcome(f, args.len(), a, env, funs, check_list_v(args, env, funs)), env, funs),
        ExpV::ExternalCall { fun_name, args, ann, .. } => (call_outcome(fun_name, args.len(), ann, env, funs, check_list_v(args, env, funs)), env, funs),
    }
}

/// Checks a list of expressions, each in the given environments; the first error wins.
pub open spec fn check_list_v<S>(es: Seq<ExpV<S>>, env: Set<Name>, funs: Map<Name, usize>) -> CheckResult<S>
    decreases es, 0nat,
{
    if es.len() == 0 {
        None
    } else {
        let r = check_list_v(es.drop_last(), env, funs);
        if r is Some { r } else { check_v(es.last(), env, funs).0 }
    }
}

/// The outcome of a call of `f` with `n` arguments, whose arguments check to `args_result`.
pub open spec fn call_outcome<S>(f: Name, n: nat, a: S, env: Set<Name>, funs: Map<Name, usize>, args_result: CheckResult<S>) -> CheckResult<S> {
    if funs.contains_key(f) {
        if n != funs[f] {
            Some((ErrKind::FunctionCalledWrongArity(f, funs[f], n as usize), a))
        } else {
            args_result
        }
    } else if env.contains(f) {
        Some((ErrKind::ValueUsedAsFunction(f), a))
    } else {
        Some((ErrKind::UndefinedFunction(f), a))
    }
}

pub open spec fn binding_names<S>(bs: Seq<(Name, ExpV<S>)>) -> Seq<Name> {
    bs.map_values(|b: (Name, ExpV<S>)| b.0)
}

/// Checks the bindings of a let in order: each name must be new among the
/// bindings, each bound expression is checked in the environment extended by
/// the names bound before it.
pub open spec fn check_bindings_v<S>(bs: Seq<(Name, ExpV<S>)>, env: Set<Name>, funs: Map<Name, usize>, ann: S) -> (CheckResult<S>, Set<Name>)
    decreases bs,
{
    if bs.len() == 0 {
        (None, env)
    } else {
        let (r, env1) = check_bindings_v(bs.drop_last(), env, funs, ann);
        let x = bs.last().0;
        if r is Some {
            (r, env1)
        } else if binding_names(bs.drop_last()).contains(x) {
            (Some((ErrKind::DuplicateBinding(x), ann)), env1)
        } else {
            let r2 = check_v(bs.last().1, env1, funs).0;
            if r2 is Some { (r2, env1) } else { (None, env1.insert(x)) }
        }
    }
}

/// Registers the names of a group of definitions with their arities; a name
/// already known is an error.
pub open spec fn check_fun_names_v<S>(ds: Seq<DeclV<ExpV<S>, S>>, funs: Map<Name, usize>, ann: S) -> (CheckResult<S>, Map<Name, usize>)
    decreases ds.len(),
{
    if ds.len() == 0 {
        (None, funs)
    } else {
        let (r, funs1) = check_fun_names_v(ds.drop_last(), funs, ann);
        let d = ds.last();
        if r is Some {
            (r, funs1)
        } else if funs1.contains_key(d.name) {
            (Some((ErrKind::DuplicateFunName(d.name), ann)), funs1)
        } else {
            (None, funs1.insert(d.name, d.parameters.len() as usize))
        }
    }
}

/// Adds parameters to the environment; a repeated parameter is an error.
pub open spec fn check_params_v<S>(ps: Seq<Name>, env: Set<Name>, ann: S) -> (CheckResult<S>, Set<Name>)
    decreases ps.len(),
{
    if ps.len() == 0 {
        (None, env)
    } else {
        let (r, env1) = check_params_v(ps.drop_last(), env, ann);
        if r is Some {
            (r, env1)
        } else if ps.drop_last().contains(ps.last()) {
            (Some((ErrKind::DuplicateArgName(ps.last()), ann)), env1)
        } else {
            (None, env1.insert(ps.last()))
        }
    }
}

/// Checks the definitions of a group in order; the parameters of each
/// definition stay in the environment for the definitions after it.
pub open spec fn check_fun_bodies_v<S>(ds: Seq<DeclV<ExpV<S>, S>>, env: Set<Name>, funs: Map<Name, usize>, ann: S) -> (CheckResult<S>, Set<Name>)
    decreases ds,
{
    if ds.len() == 0 {
        (None, env)
    } else {
        let (r, env1) = check_fun_bodies_v(ds.drop_last(), env, funs, ann);
        if r is Some {
            (r, env1)
        } else {
            let (r2, env2) = check_params_v(ds.last().parameters, env1, ann);
            if r2 is Some {
                (r2, env2)
            } else {
                (check_v(ds.last().body, env2, funs).0, env2)
            }
        }
    }
}

} // verus!

verus! {

broadcast use crate::syntax::group_views;

proof fn lemma_list_prefix<S>(es: Seq<ExpV<S>>, i: int, env: Set<Name>, funs: Map<Name, usize>)
    requires
        0 <= i <= es.len(),
        check_list_v(es.take(i), env, funs) is Some,
    ensures
        check_list_v(es, env, funs) == check_list_v(es.take(i), env, funs),
    decreases es.len() - i,
{
    if i < es.len() {
        assert(es.drop_last().take(i) =~= es.take(i));
        lemma_list_prefix(es.drop_last(), i, env, funs);
    } else {
        assert(es.take(i) =~= es);
    }
}

proof fn lemma_bindings_prefix<S>(bs: Seq<(Name, ExpV<S>)>, i: int, env: Set<Name>, funs: Map<Name, usize>, ann: S)
    requires
        0 <= i <= bs.len(),
        check_bindings_v(bs.take(i), env, funs, ann).0 is Some,
    ensures
        check_bindings_v(bs, env, funs, ann) == check_bindings_v(bs.take(i), env, funs, ann),
    decreases bs.len() - i,
{
    if i < bs.len() {
        assert(bs.drop_last().take(i) =~= bs.take(i));
        lemma_bindings_prefix(bs.drop_last(), i, env, funs, ann);
    } else {
        assert(bs.take(i) =~= bs);
    }
}

proof fn lemma_fun_names_prefix<S>(ds: Seq<DeclV<ExpV<S>, S>>, i: int, funs: Map<Name, usize>, ann: S)
    requires
        0 <= i <= ds.len(),
        check_fun_names_v(ds.take(i), funs, ann).0 is Some,
    ensures
        check_fun_names_v(ds, funs, ann) == check_fun_names_v(ds.take(i), funs, ann),
    decreases ds.len() - i,
{
    if i < ds.len() {
        assert(ds.drop_last().take(i) =~= ds.take(i));
        lemma_fun_names_prefix(ds.drop_last(), i, funs, ann);
    } else {
        assert(ds.take(i) =~= ds);
    }
}

proof fn lemma_params_prefix<S>(ps: Seq<Name>, i: int, env: Set<Name>, ann: S)
    requires
        0 <= i <= ps.len(),
        check_params_v(ps.take(i), env, ann).0 is Some,
    ensures
        check_params_v(ps, env, ann) == check_params_v(ps.take(i), env, ann),
    decreases ps.len() - i,
{
    if i < ps.len() {
        assert(ps.drop_last().take(i) =~= ps.take(i));
        lemma_params_prefix(ps.drop_last(), i, env, ann);
    } else {
        assert(ps.take(i) =~= ps);
    }
}

proof fn lemma_fun_bodies_prefix<S>(ds: Seq<DeclV<ExpV<S>, S>>, i: int, env: Set<Name>, funs: Map<Name, usize>, ann: S)
    requires
        0 <= i <= ds.len(),
        check_fun_bodies_v(ds.take(i), env, funs, ann).0 is Some,
    ensures
        check_fun_bodies_v(ds, env, funs, ann) == check_fun_bodies_v(ds.take(i), env, funs, ann),
    decreases ds.len() - i,
{
    if i < ds.len() {
        assert(ds.drop_last().take(i) =~= ds.take(i));
        lemma_fun_bodies_prefix(ds.drop_last(), i, env, funs, ann);
    } else {
        assert(ds.take(i) =~= ds);
    }
}

/// Checks that a program is well formed: integers and floats within range,
/// variables bound, functions defined before use and called with the right
/// number of arguments, no name bound twice in one let, one group of
/// definitions or one parameter list.
pub fn check_exp<Span: Clone>(
    p: &SurfProg<Span>,
    env: &mut NameSet,
    fun_to_paralen: &mut NameMap<usize>,
) -> (res: Result<(), CompileErr<Span>>)
    ensures
        reports(res, check_v(exp_view(*p), old(env)@, old(fun_to_paralen)@).0),
        final(env)@ == check_v(exp_view(*p), old(env)@, old(fun_to_paralen)@).1,
        final(fun_to_paralen)@ == check_v(exp_view(*p), old(env)@, old(fun_to_paralen)@).2,
    decreases p, 0nat,
{
    match p {
        Exp::Num(n, ann) => {
            if *n <= MAX_SNAKE_INT && *n >= MIN_SNAKE_INT {
                Ok(())
            } else {
                Err(CompileErr::NumOverflow { num: *n, location: ann.clone() })
            }
        },
        Exp::Bool(_, _) => Ok(()),
        Exp::Float(f, ann) => {
            if f.0 % 0x8000_0000_0000_0000u64 <= F32_MAX_AS_F64_BITS {
                Ok(())
            } else {
                Err(CompileErr::FloatOverflow { num: *f, location: ann.clone() })
            }
        },
        Exp::Var(s, ann) => {
            if !env.contains(s) {
                if fun_to_paralen.contains_key(s) {
                    Err(CompileErr::FunctionUsedAsValue { function_name: s.clone(), location: ann.clone() })
                } else {
                    Err(CompileErr::UnboundVariable { unbound: s.clone(), location: ann.clone() })
                }
            } else {
                Ok(())
            }
        },
        Exp::Prim(_, exps, _) => check_boxed_list(exps, env, fun_to_paralen),
        Exp::Let { bindings, body, ann } => {
            match check_bindings(bindings, env, fun_to_paralen, ann) {
                Ok(()) => {},
                Err(err) => return Err(err),
            }
            let mut env1 = env.duplicate();
            let mut funs1 = fun_to_paralen.duplicate();
            check_exp(body, &mut env1, &mut funs1)
        },
        Exp::If { cond, thn, els, .. } => {
            let mut env1 = env.duplicate();
            let mut funs1 = fun_to_paralen.duplicate();
            match check_exp(cond, &mut env1, &mut funs1) {
                Ok(()) => {},
                Err(err) => return Err(err),
            }
            let mut env2 = env.duplicate();
            let mut funs2 = fun_to_paralen.duplicate();
            match check_exp(thn, &mut env2, &mut funs2) {
                Ok(()) => {},
                Err(err) => return Err(err),
            }
            let mut env3 = env.duplicate();
            let mut funs3 = fun_to_paralen.duplicate();
            match check_exp(els, &mut env3, &mut funs3) {
                Ok(()) => {},
                Err(err) => return Err(err),
            }
            Ok(())
        },
        Exp::FunDefs { decls, body, ann } => {
            match check_fun_names(decls, fun_to_paralen, ann) {
                Ok(()) => {},
                Err(err) => return Err(err),
            }
            match check_fun_bodies(decls, env, fun_to_paralen, ann) {
                Ok(()) => {},
                Err(err) => return Err(err),
            }
            let mut env1 = env.duplicate();
            let mut funs1 = fun_to_paralen.duplicate();
            check_exp(body, &mut env1, &mut funs1)
        },
        Exp::Call(fun_name, args, ann) => check_call(fun_name, args, ann, env, fun_to_paralen),
        Exp::InternalTailCall(fun_name, args, ann) => check_call(fun_name, args, ann, env, fun_to_paralen),
        Exp::ExternalCall { fun_name, args, ann, .. } => check_call(fun_name, args, ann, env, fun_to_paralen),
    }
}

fn check_boxed_list<Span: Clone>(
    es: &Vec<Box<Exp<Span>>>,
    env: &NameSet,
    funs: &NameMap<usize>,
) -> (res: Result<(), CompileErr<Span>>)
    ensures
        reports(res, check_list_v(boxed_exps_view(es@), env@, funs@)),
    decreases es, 0nat,
{
    let mut i: usize = 0;
    while i < es.len()
        invariant
            i <= es.len(),
            check_list_v(boxed_exps_view(es@).take(i as int), env@, funs@) is None,
        decreases es.len() - i,
    {
        let mut env1 = env.duplicate();
        let mut funs1 = funs.duplicate();
        let r = check_exp(&es[i], &mut env1, &mut funs1);
        proof {
            assert(boxed_exps_view(es@).take(i + 1).drop_last() =~= boxed_exps_view(es@).take(i as int));
        }
        match r {
            Ok(()) => {},
            Err(err) => {
                proof { lemma_list_prefix(boxed_exps_view(es@), i + 1, env@, funs@); }
                return Err(err);
            },
        }
        i += 1;
    }
    assert(boxed_exps_view(es@).take(es.len() as int) =~= boxed_exps_view(es@));
    Ok(())
}

fn check_list<Span: Clone>(
    es: &Vec<Exp<Span>>,
    env: &NameSet,
    funs: &NameMap<usize>,
) -> (res: Result<(), CompileErr<Span>>)
    ensures
        reports(res, check_list_v(exps_view(es@), env@, funs@)),
    decreases es, 0nat,
{
    let mut i: usize = 0;
    while i < es.len()
        invariant
            i <= es.len(),
            check_list_v(exps_view(es@).take(i as int), env@, funs@) is None,
        decreases es.len() - i,
    {
        let mut env1 = env.duplicate();
        let mut funs1 = funs.duplicate();
        let r = check_exp(&es[i], &mut env1, &mut funs1);
        proof {
            assert(exps_view(es@).take(i + 1).drop_last() =~= exps_view(es@).take(i as int));
        }
        match r {
            Ok(()) => {},
            Err(err) => {
                proof { lemma_list_prefix(exps_view(es@), i + 1, env@, funs@); }
                return Err(err);
            },
        }
        i += 1;
    }
    assert(exps_view(es@).take(es.len() as int) =~= exps_view(es@));
    Ok(())
}

fn check_call<Span: Clone>(
    fun_name: &String,
    args: &Vec<Exp<Span>>,
    ann: &Span,
    env: &NameSet,
    funs: &NameMap<usize>,
) -> (res: Result<(), CompileErr<Span>>)
    ensures
        reports(res, call_outcome(fun_name@, args@.len(), *ann, env@, funs@, check_list_v(exps_view(args@), env@, funs@))),
    decreases args, 1nat,
{
    match funs.get(fun_name) {
        Some(value) => {
            if args.len() != *value {
                Err(CompileErr::FunctionCalledWrongArity {
                    function_name: fun_name.clone(),
                    correct_arity: *value,
                    arity_used: args.len(),
                    location: ann.clone(),
                })
            } else {
                check_list(args, env, funs)
            }
        },
        None => {
            if env.contains(fun_name) {
                Err(CompileErr::ValueUsedAsFunction { variable_name: fun_name.clone(), location: ann.clone() })
            } else {
                Err(CompileErr::UndefinedFunction { undefined: fun_name.clone(), location: ann.clone() })
            }
        },
    }
}

fn check_bindings<Span: Clone>(
    bindings: &Vec<(String, Exp<Span>)>,
    env: &mut NameSet,
    funs: &NameMap<usize>,
    ann: &Span,
) -> (res: Result<(), CompileErr<Span>>)
    ensures
        reports(res, check_bindings_v(bindings_view(bindings@), old(env)@, funs@, *ann).0),
        final(env)@ == check_bindings_v(bindings_view(bindings@), old(env)@, funs@, *ann).1,
    decreases bindings, 0nat,
{
    let ghost bs = bindings_view(bindings@);
    let mut uniq_names = NameSet::new();
    let mut i: usize = 0;
    assert(binding_names(bs.take(0)) =~= Seq::<Name>::empty());
    assert(Seq::<Name>::empty().to_set() =~= Set::<Name>::empty());
    while i < bindings.len()
        invariant
            i <= bindings.len(),
            bs == bindings_view(bindings@),
            check_bindings_v(bs.take(i as int), old(env)@, funs@, *ann).0 is None,
            check_bindings_v(bs.take(i as int), old(env)@, funs@, *ann).1 == env@,
            uniq_names@ == binding_names(bs.take(i as int)).to_set(),
        decreases bindings.len() - i,
    {
        let ghost pre = bs.take(i as int);
        assert(bs.take(i + 1).drop_last() =~= pre);
        assert(bs.take(i + 1).last() == bs[i as int]);
        let (a, b) = &bindings[i];
        if !uniq_names.insert(a.clone()) {
            proof { lemma_bindings_prefix(bs, i + 1, old(env)@, funs@, *ann); }
            return Err(CompileErr::DuplicateBinding { duplicated_name: a.clone(), location: ann.clone() });
        }
        let mut env1 = env.duplicate();
        let mut funs1 = funs.duplicate();
        match check_exp(b, &mut env1, &mut funs1) {
            Ok(()) => {},
            Err(err) => {
                proof { lemma_bindings_prefix(bs, i + 1, old(env)@, funs@, *ann); }
                return Err(err);
            },
        }
        env.insert(a.clone());
        proof {
            assert(binding_names(bs.take(i + 1)) =~= binding_names(pre).push(a@));
            crate::names::lemma_push_to_set(binding_names(pre), a@);
        }
        i += 1;
    }
    assert(bs.take(bindings.len() as int) =~= bs);
    Ok(())
}

fn check_fun_names<Span: Clone>(
    decls: &Vec<FunDecl<Exp<Span>, Span>>,
    funs: &mut NameMap<usize>,
    ann: &Span,
) -> (res: Result<(), CompileErr<Span>>)
    ensures
        reports(res, check_fun_names_v(decls_view(decls@), old(funs)@, *ann).0),
        final(funs)@ == check_fun_names_v(decls_view(decls@), old(funs)@, *ann).1,
{
    let ghost ds = decls_view(decls@);
    let mut uniq_fun_names = NameSet::new();
    let mut i: usize = 0;
    while i < decls.len()
        invariant
            i <= decls.len(),
            ds == decls_view(decls@),
            check_fun_names_v(ds.take(i as int), old(funs)@, *ann).0 is None,
            check_fun_names_v(ds.take(i as int), old(funs)@, *ann).1 == funs@,
            forall|n: Name| uniq_fun_names@.contains(n) ==> funs@.contains_key(n),
        decreases decls.len() - i,
    {
        assert(ds.take(i + 1).drop_last() =~= ds.take(i as int));
        assert(ds.take(i + 1).last() == ds[i as int]);
        let decl = &decls[i];
        proof { crate::syntax::lemma_decls_view(decls@); }
        assert(ds[i as int] == crate::syntax::decl_view(decls@[i as int]));
        if funs.contains_key(&decl.name) || !uniq_fun_names.insert(decl.name.clone()) {
            proof { lemma_fun_names_prefix(ds, i + 1, old(funs)@, *ann); }
            return Err(CompileErr::DuplicateFunName { duplicated_name: decl.name.clone(), location: ann.clone() });
        }
        funs.insert(decl.name.clone(), decl.parameters.len());
        i += 1;
    }
    assert(ds.take(decls.len() as int) =~= ds);
    Ok(())
}

fn check_params<Span: Clone>(
    params: &Vec<String>,
    env: &mut NameSet,
    ann: &Span,
) -> (res: Result<(), CompileErr<Span>>)
    ensures
        reports(res, check_params_v(names_view(params@), old(env)@, *ann).0),
        final(env)@ == check_params_v(names_view(params@), old(env)@, *ann).1,
{
    let ghost ps = names_view(params@);
    let mut uniq_para_names = NameSet::new();
    let mut i: usize = 0;
    assert(Seq::<Name>::empty().to_set() =~= Set::<Name>::empty());
    assert(ps.take(0) =~= Seq::<Name>::empty());
    while i < params.len()
        invariant
            i <= params.len(),
            ps == names_view(params@),
            check_params_v(ps.take(i as int), old(env)@, *ann).0 is None,
            check_params_v(ps.take(i as int), old(env)@, *ann).1 == env@,
            uniq_para_names@ == ps.take(i as int).to_set(),
        decreases params.len() - i,
    {
        let ghost pre = ps.take(i as int);
        assert(ps.take(i + 1).drop_last() =~= pre);
        assert(ps.take(i + 1).last() == ps[i as int]);
        let para_name = &params[i];
        if !uniq_para_names.insert(para_name.clone()) {
            proof { lemma_params_prefix(ps, i + 1, old(env)@, *ann); }
            return Err(CompileErr::DuplicateArgName { duplicated_name: para_name.clone(), location: ann.clone() });
        }
        env.insert(para_name.clone());
        proof {
            assert(ps.take(i + 1) =~= pre.push(para_name@));
            crate::names::lemma_push_to_set(pre, para_name@);
        }
        i += 1;
    }
    assert(ps.take(params.len() as int) =~= ps);
    Ok(())
}

fn check_fun_bodies<Span: Clone>(
    decls: &Vec<FunDecl<Exp<Span>, Span>>,
    env: &mut NameSet,
    funs: &NameMap<usize>,
    ann: &Span,
) -> (res: Result<(), CompileErr<Span>>)
    ensures
        reports(res, check_fun_bodies_v(decls_view(decls@), old(env)@, funs@, *ann).0),
        final(env)@ == check_fun_bodies_v(decls_view(decls@), old(env)@, funs@, *ann).1,
    decreases decls, 0nat,
{
    let ghost ds = decls_view(decls@);
    let mut i: usize = 0;
    while i < decls.len()
        invariant
            i <= decls.len(),
            ds == decls_view(decls@),
            check_fun_bodies_v(ds.take(i as int), old(env)@, funs@, *ann).0 is None,
            check_fun_bodies_v(ds.take(i as int), old(env)@, funs@, *ann).1 == env@,
        decreases decls.len() - i,
    {
        assert(ds.take(i + 1).drop_last() =~= ds.take(i as int));
        assert(ds.take(i + 1).last() == ds[i as int]);
        let decl = &decls[i];
        proof { crate::syntax::lemma_decls_view(decls@); }
        assert(ds[i as int] == crate::syntax::decl_view(decls@[i as int]));
        match check_params(&decl.parameters, env, ann) {
            Ok(()) => {},
            Err(err) => {
                proof { lemma_fun_bodies_prefix(ds, i + 1, old(env)@, funs@, *ann); }
                return Err(err);
            },
        }
        let mut env1 = env.duplicate();
        let mut funs1 = funs.duplicate();
        match check_exp(&decl.body, &mut env1, &mut funs1) {
            Ok(()) => {},
            Err(err) => {
                proof { lemma_fun_bodies_prefix(ds, i + 1, old(env)@, funs@, *ann); }
                return Err(err);
            },
        }
        i += 1;
    }
    assert(ds.take(decls.len() as int) =~= ds);
    Ok(())
}

} // verus!

verus! {

/// `x` is read as a variable somewhere in `e`.
pub open spec fn mentions<S>(e: ExpV<S>, x: Name) -> bool
    decreases e,
{
    match e {
        ExpV::Var(y, _) => y == x,
        ExpV::Prim(_, es, _) => list_mentions(es, x),
        ExpV::Let { bindings, body, .. } => bindings_mention(bindings, x) || mentions(*body, x),
        ExpV::If { cond, thn, els, .. } => mentions(*cond, x) || mentions(*thn, x) || mentions(*els, x),
        ExpV::FunDefs { decls, body, .. } => decls_mention(decls, x) || mentions(*body, x),
        ExpV::Call(_, args, _) => list_mentions(args, x),
        ExpV::InternalTailCall(_, args, _) => list_mentions(args, x),
        ExpV::ExternalCall { args, .. } => list_mentions(args, x),
        _ => false,
    }
}

pub open spec fn list_mentions<S>(es: Seq<ExpV<S>>, x: Name) -> bool
    decreases es,
{
    es.len() > 0 && (list_mentions(es.drop_last(), x) || mentions(es.last(), x))
}

pub open spec fn bindings_mention<S>(bs: Seq<(Name, ExpV<S>)>, x: Name) -> bool
    decreases bs,
{
    bs.len() > 0 && (bindings_mention(bs.drop_last(), x) || mentions(bs.last().1, x))
}

pub open spec fn decls_mention<S>(ds: Seq<DeclV<ExpV<S>, S>>, x: Name) -> bool
    decreases ds,
{
    ds.len() > 0 && (decls_mention(ds.drop_last(), x) || mentions(ds.last().body, x))
}

/// `x` is bound somewhere in `e`, by a let or as a parameter.
pub open spec fn binds<S>(e: ExpV<S>, x: Name) -> bool
    decreases e,
{
    match e {
        ExpV::Prim(_, es, _) => list_binds(es, x),
        ExpV::Let { bindings, body, .. } => bindings_bind(bindings, x) || binds(*body, x),
        ExpV::If { cond, thn, els, .. } => binds(*cond, x) || binds(*thn, x) || binds(*els, x),
        ExpV::FunDefs { decls, body, .. } => decls_bind(decls, x) || binds(*body, x),
        ExpV::Call(_, args, _) => list_binds(args, x),
        ExpV::InternalTailCall(_, args, _) => list_binds(args, x),
        ExpV::ExternalCall { args, .. } => list_binds(args, x),
        _ => false,
    }
}

pub open spec fn list_binds<S>(es: Seq<ExpV<S>>, x: Name) -> bool
    decreases es,
{
    es.len() > 0 && (list_binds(es.drop_last(), x) || binds(es.last(), x))
}

pub open spec fn bindings_bind<S>(bs: Seq<(Name, ExpV<S>)>, x: Name) -> bool
    decreases bs,
{
    bs.len() > 0 && (bindings_bind(bs.drop_last(), x) || bs.last().0 == x || binds(bs.last().1, x))
}

pub open spec fn decls_bind<S>(ds: Seq<DeclV<ExpV<S>, S>>, x: Name) -> bool
    decreases ds,
{
    ds.len() > 0 && (decls_bind(ds.drop_last(), x) || ds.last().parameters.contains(x) || binds(ds.last().body, x))
}

/// A variable that `e` reads, that is not in scope where `e` stands and that
/// `e` binds nowhere, makes the check of `e` fail; the check does not put
/// such a name in scope.
pub proof fn lemma_unbound_use_rejected<S>(e: ExpV<S>, env: Set<Name>, funs: Map<Name, usize>, x: Name)
    requires
        !env.contains(x),
        !binds(e, x),
    ensures
        mentions(e, x) ==> check_v(e, env, funs).0 is Some,
        !check_v(e, env, funs).1.contains(x),
    decreases e,
{
    match e {
        ExpV::Prim(_, es, _) => lemma_list_unbound(es, env, funs, x),
        ExpV::Let { bindings, body, ann } => {
            lemma_bindings_unbound(bindings, env, funs, ann, x);
            let (r, env1) = check_bindings_v(bindings, env, funs, ann);
            lemma_unbound_use_rejected(*body, env1, funs, x);
        },
        ExpV::If { cond, thn, els, .. } => {
            lemma_unbound_use_rejected(*cond, env, funs, x);
            lemma_unbound_use_rejected(*thn, env, funs, x);
            lemma_unbound_use_rejected(*els, env, funs, x);
        },
        ExpV::FunDefs { decls, body, ann } => {
            let (r1, funs1) = check_fun_names_v(decls, funs, ann);
            lemma_bodies_unbound(decls, env, funs1, ann, x);
            let (r2, env2) = check_fun_bodies_v(decls, env, funs1, ann);
            lemma_unbound_use_rejected(*body, env2, funs1, x);
        },
        ExpV::Call(_, args, _) => lemma_list_unbound(args, env, funs, x),
        ExpV::InternalTailCall(_, args, _) => lemma_list_unbound(args, env, funs, x),
        ExpV::ExternalCall { args, .. } => lemma_list_unbound(args, env, funs, x),
        _ => {},
    }
}

proof fn lemma_list_unbound<S>(es: Seq<ExpV<S>>, env: Set<Name>, funs: Map<Name, usize>, x: Name)
    requires
        !env.contains(x),
        !list_binds(es, x),
    ensures
        list_mentions(es, x) ==> check_list_v(es, env, funs) is Some,
    decreases es,
{
    if es.len() > 0 {
        lemma_list_unbound(es.drop_last(), env, funs, x);
        lemma_unbound_use_rejected(es.last(), env, funs, x);
    }
}

proof fn lemma_bindings_unbound<S>(bs: Seq<(Name, ExpV<S>)>, env: Set<Name>, funs: Map<Name, usize>, ann: S, x: Name)
    requires
        !env.contains(x),
        !bindings_bind(bs, x),
    ensures
        bindings_mention(bs, x) ==> check_bindings_v(bs, env, funs, ann).0 is Some,
        !check_bindings_v(bs, env, funs, ann).1.contains(x),
    decreases bs,
{
    if bs.len() > 0 {
        lemma_bindings_unbound(bs.drop_last(), env, funs, ann, x);
        let (r, env1) = check_bindings_v(bs.drop_last(), env, funs, ann);
        lemma_unbound_use_rejected(bs.last().1, env1, funs, x);
    }
}

proof fn lemma_params_unbound<S>(ps: Seq<Name>, env: Set<Name>, ann: S, x: Name)
    requires
        !env.contains(x),
        !ps.contains(x),
    ensures
        !check_params_v(ps, env, ann).1.contains(x),
    decreases ps.len(),
{
    if ps.len() > 0 {
        assert(!ps.drop_last().contains(x)) by {
            if ps.drop_last().contains(x) {
                let i = choose|i: int| 0 <= i < ps.drop_last().len() && ps.drop_last()[i] == x;
                assert(ps[i] == x);
            }
        }
        assert(ps.last() != x) by {
            if ps.last() == x {
                assert(ps[ps.len() - 1] == x);
            }
        }
        lemma_params_unbound(ps.drop_last(), env, ann, x);
    }
}

proof fn lemma_bodies_unbound<S>(ds: Seq<DeclV<ExpV<S>, S>>, env: Set<Name>, funs: Map<Name, usize>, ann: S, x: Name)
    requires
        !env.contains(x),
        !decls_bind(ds, x),
    ensures
        decls_mention(ds, x) ==> check_fun_bodies_v(ds, env, funs, ann).0 is Some,
        !check_fun_bodies_v(ds, env, funs, ann).1.contains(x),
    decreases ds,
{
    if ds.len() > 0 {
        lemma_bodies_unbound(ds.drop_last(), env, funs, ann, x);
        let (r, env1) = check_fun_bodies_v(ds.drop_last(), env, funs, ann);
        lemma_params_unbound(ds.last().parameters, env1, ann, x);
        let (r2, env2) = check_params_v(ds.last().parameters, env1, ann);
        lemma_unbound_use_rejected(ds.last().body, env2, funs, x);
    }
}

} // verus!

verus! {

/// `f` is called somewhere in `e`.
pub open spec fn calls_fn<S>(e: ExpV<S>, f: Name) -> bool
    decreases e,
{
    match e {
        ExpV::Prim(_, es, _) => list_calls_fn(es, f),
        ExpV::Let { bindings, body, .. } => bindings_call_fn(bindings, f) || calls_fn(*body, f),
        ExpV::If { cond, thn, els, .. } => calls_fn(*cond, f) || calls_fn(*thn, f) || calls_fn(*els, f),
        ExpV::FunDefs { decls, body, .. } => decls_call_fn(decls, f) || calls_fn(*body, f),
        ExpV::Call(g, args, _) => g == f || list_calls_fn(args, f),
        ExpV::InternalTailCall(g, args, _) => g == f || list_calls_fn(args, f),
        ExpV::ExternalCall { fun_name, args, .. } => fun_name == f || list_calls_fn(args, f),
        _ => false,
    }
}

pub open spec fn list_calls_fn<S>(es: Seq<ExpV<S>>, f: Name) -> bool
    decreases es,
{
    es.len() > 0 && (list_calls_fn(es.drop_last(), f) || calls_fn(es.last(), f))
}

pub open spec fn bindings_call_fn<S>(bs: Seq<(Name, ExpV<S>)>, f: Name) -> bool
    decreases bs,
{
    bs.len() > 0 && (bindings_call_fn(bs.drop_last(), f) || calls_fn(bs.last().1, f))
}

pub open spec fn decls_call_fn<S>(ds: Seq<DeclV<ExpV<S>, S>>, f: Name) -> bool
    decreases ds,
{
    ds.len() > 0 && (decls_call_fn(ds.drop_last(), f) || calls_fn(ds.last().body, f))
}

/// `f` names a function of some group of definitions in `e`.
pub open spec fn defines<S>(e: ExpV<S>, f: Name) -> bool
    decreases e,
{
    match e {
        ExpV::Prim(_, es, _) => list_defines(es, f),
        ExpV::Let { bindings, body, .. } => bindings_define(bindings, f) || defines(*body, f),
        ExpV::If { cond, thn, els, .. } => defines(*cond, f) || defines(*thn, f) || defines(*els, f),
        ExpV::FunDefs { decls, body, .. } => decls_define(decls, f) || defines(*body, f),
        ExpV::Call(_, args, _) => list_defines(args, f),
        ExpV::InternalTailCall(_, args, _) => list_defines(args, f),
        ExpV::ExternalCall { args, .. } => list_defines(args, f),
        _ => false,
    }
}

pub open spec fn list_defines<S>(es: Seq<ExpV<S>>, f: Name) -> bool
    decreases es,
{
    es.len() > 0 && (list_defines(es.drop_last(), f) || defines(es.last(), f))
}

pub open spec fn bindings_define<S>(bs: Seq<(Name, ExpV<S>)>, f: Name) -> bool
    decreases bs,
{
    bs.len() > 0 && (bindings_define(bs.drop_last(), f) || defines(bs.last().1, f))
}

pub open spec fn decls_define<S>(ds: Seq<DeclV<ExpV<S>, S>>, f: Name) -> bool
    decreases ds,
{
    ds.len() > 0 && (decls_define(ds.drop_last(), f) || ds.last().name == f || defines(ds.last().body, f))
}

/// A call of a function that is not known where `e` stands and that `e`
/// defines nowhere makes the check of `e` fail; the check does not make
/// such a name known.
pub proof fn lemma_undefined_call_rejected<S>(e: ExpV<S>, env: Set<Name>, funs: Map<Name, usize>, f: Name)
    requires
        !funs.contains_key(f),
        !defines(e, f),
    ensures
        calls_fn(e, f) ==> check_v(e, env, funs).0 is Some,
        !check_v(e, env, funs).2.contains_key(f),
    decreases e,
{
    match e {
        ExpV::Prim(_, es, _) => lemma_list_undefined(es, env, funs, f),
        ExpV::Let { bindings, body, ann } => {
            lemma_bindings_undefined(bindings, env, funs, ann, f);
            let (r, env1) = check_bindings_v(bindings, env, funs, ann);
            lemma_undefined_call_rejected(*body, env1, funs, f);
        },
        ExpV::If { cond, thn, els, .. } => {
            lemma_undefined_call_rejected(*cond, env, funs, f);
            lemma_undefined_call_rejected(*thn, env, funs, f);
            lemma_undefined_call_rejected(*els, env, funs, f);
        },
        ExpV::FunDefs { decls, body, ann } => {
            lemma_fun_names_undefined(decls, funs, ann, f);
            let (r1, funs1) = check_fun_names_v(decls, funs, ann);
            lemma_bodies_undefined(decls, env, funs1, ann, f);
            let (r2, env2) = check_fun_bodies_v(decls, env, funs1, ann);
            lemma_undefined_call_rejected(*body, env2, funs1, f);
        },
        ExpV::Call(_, args, _) => lemma_list_undefined(args, env, funs, f),
        ExpV::InternalTailCall(_, args, _) => lemma_list_undefined(args, env, funs, f),
        ExpV::ExternalCall { args, .. } => lemma_list_undefined(args, env, funs, f),
        _ => {},
    }
}

proof fn lemma_list_undefined<S>(es: Seq<ExpV<S>>, env: Set<Name>, funs: Map<Name, usize>, f: Name)
    requires
        !funs.contains_key(f),
        !list_defines(es, f),
    ensures
        list_calls_fn(es, f) ==> check_list_v(es, env, funs) is Some,
    decreases es,
{
    if es.len() > 0 {
        lemma_list_undefined(es.drop_last(), env, funs, f);
        lemma_undefined_call_rejected(es.last(), env, funs, f);
    }
}

proof fn lemma_bindings_undefined<S>(bs: Seq<(Name, ExpV<S>)>, env: Set<Name>, funs: Map<Name, usize>, ann: S, f: Name)
    requires
        !funs.contains_key(f),
        !bindings_define(bs, f),
    ensures
        bindings_call_fn(bs, f) ==> check_bindings_v(bs, env, funs, ann).0 is Some,
    decreases bs,
{
    if bs.len() > 0 {
        lemma_bindings_undefined(bs.drop_last(), env, funs, ann, f);
        let (r, env1) = check_bindings_v(bs.drop_last(), env, funs, ann);
        lemma_undefined_call_rejected(bs.last().1, env1, funs, f);
    }
}

proof fn lemma_fun_names_undefined<S>(ds: Seq<DeclV<ExpV<S>, S>>, funs: Map<Name, usize>, ann: S, f: Name)
    requires
        !funs.contains_key(f),
        !decls_define(ds, f),
    ensures
        !check_fun_names_v(ds, funs, ann).1.contains_key(f),
    decreases ds.len(),
{
    if ds.len() > 0 {
        lemma_fun_names_undefined(ds.drop_last(), funs, ann, f);
    }
}

proof fn lemma_bodies_undefined<S>(ds: Seq<DeclV<ExpV<S>, S>>, env: Set<Name>, funs: Map<Name, usize>, ann: S, f: Name)
    requires
        !funs.contains_key(f),
        !decls_define(ds, f),
    ensures
        decls_call_fn(ds, f) ==> check_fun_bodies_v(ds, env, funs, ann).0 is Some,
    decreases ds,
{
    if ds.len() > 0 {
        lemma_bodies_undefined(ds.drop_last(), env, funs, ann, f);
        let (r, env1) = check_fun_bodies_v(ds.drop_last(), env, funs, ann);
        let (r2, env2) = check_params_v(ds.last().parameters, env1, ann);
        lemma_undefined_call_rejected(ds.last().body, env2, funs, f);
    }
}

} // verus!

verus! {

pub open spec fn decl_names<S>(ds: Seq<DeclV<ExpV<S>, S>>) -> Seq<Name> {
    ds.map_values(|d: DeclV<ExpV<S>, S>| d.name)
}

/// Somewhere in `e`: a literal out of range, a let binding a name twice, a
/// group defining a name twice, or a function with a repeated parameter.
pub open spec fn faulty<S>(e: ExpV<S>) -> bool
    decreases e,
{
    match e {
        ExpV::Num(n, _) => !(MIN_SNAKE_INT <= n <= MAX_SNAKE_INT),
        ExpV::Float(f, _) => !float_in_range(f),
        ExpV::Prim(_, es, _) => list_faulty(es),
        ExpV::Let { bindings, body, .. } => !binding_names(bindings).no_duplicates() || bindings_faulty(bindings) || faulty(*body),
        ExpV::If { cond, thn, els, .. } => faulty(*cond) || faulty(*thn) || faulty(*els),
        ExpV::FunDefs { decls, body, .. } => !decl_names(decls).no_duplicates() || decls_faulty(decls) || faulty(*body),
        ExpV::Call(_, args, _) => list_faulty(args),
        ExpV::InternalTailCall(_, args, _) => list_faulty(args),
        ExpV::ExternalCall { args, .. } => list_faulty(args),
        _ => false,
    }
}

pub open spec fn list_faulty<S>(es: Seq<ExpV<S>>) -> bool
    decreases es,
{
    es.len() > 0 && (list_faulty(es.drop_last()) || faulty(es.last()))
}

pub open spec fn bindings_faulty<S>(bs: Seq<(Name, ExpV<S>)>) -> bool
    decreases bs,
{
    bs.len() > 0 && (bindings_faulty(bs.drop_last()) || faulty(bs.last().1))
}

pub open spec fn decls_faulty<S>(ds: Seq<DeclV<ExpV<S>, S>>) -> bool
    decreases ds,
{
    ds.len() > 0 && (decls_faulty(ds.drop_last()) || !ds.last().parameters.no_duplicates() || faulty(ds.last().body))
}

/// A sequence with a repeated element whose first part has none repeats its
/// last element in the first part.
proof fn lemma_dup_last<T>(s: Seq<T>)
    requires
        s.len() > 0,
        !s.no_duplicates(),
        s.drop_last().no_duplicates(),
    ensures
        s.drop_last().contains(s.last()),
{
    let (i, j) = choose|i: int, j: int| 0 <= i < s.len() && 0 <= j < s.len() && i != j && s[i] == s[j];
    let n = s.len() - 1;
    if i < n && j < n {
        assert(s.drop_last()[i] == s.drop_last()[j]);
    } else if i == n {
        assert(s.drop_last()[j] == s.last());
    } else {
        assert(s.drop_last()[i] == s.last());
    }
}

/// The check of a faulty program fails, whatever the environments.
pub proof fn lemma_faulty_rejected<S>(e: ExpV<S>, env: Set<Name>, funs: Map<Name, usize>)
    requires
        faulty(e),
    ensures
        check_v(e, env, funs).0 is Some,
    decreases e,
{
    match e {
        ExpV::Prim(_, es, _) => lemma_list_faulty(es, env, funs),
        ExpV::Let { bindings, body, ann } => {
            let (r, env1) = check_bindings_v(bindings, env, funs, ann);
            if !binding_names(bindings).no_duplicates() || bindings_faulty(bindings) {
                lemma_bindings_faulty(bindings, env, funs, ann);
            } else {
                lemma_faulty_rejected(*body, env1, funs);
            }
        },
        ExpV::If { cond, thn, els, .. } => {
            if faulty(*cond) {
                lemma_faulty_rejected(*cond, env, funs);
            } else if faulty(*thn) {
                lemma_faulty_rejected(*thn, env, funs);
            } else {
                lemma_faulty_rejected(*els, env, funs);
            }
        },
        ExpV::FunDefs { decls, body, ann } => {
            let (r1, funs1) = check_fun_names_v(decls, funs, ann);
            if !decl_names(decls).no_duplicates() {
                lemma_fun_names_dup(decls, funs, ann);
            } else {
                let (r2, env2) = check_fun_bodies_v(decls, env, funs1, ann);
                if decls_faulty(decls) {
                    lemma_bodies_faulty(decls, env, funs1, ann);
                } else {
                    lemma_faulty_rejected(*body, env2, funs1);
                }
            }
        },
        ExpV::Call(_, args, _) => lemma_list_faulty(args, env, funs),
        ExpV::InternalTailCall(_, args, _) => lemma_list_faulty(args, env, funs),
        ExpV::ExternalCall { args, .. } => lemma_list_faulty(args, env, funs),
        _ => {},
    }
}

proof fn lemma_list_faulty<S>(es: Seq<ExpV<S>>, env: Set<Name>, funs: Map<Name, usize>)
    requires
        list_faulty(es),
    ensures
        check_list_v(es, env, funs) is Some,
    decreases es,
{
    if list_faulty(es.drop_last()) {
        lemma_list_faulty(es.drop_last(), env, funs);
    } else {
        lemma_faulty_rejected(es.last(), env, funs);
    }
}

proof fn lemma_bindings_faulty<S>(bs: Seq<(Name, ExpV<S>)>, env: Set<Name>, funs: Map<Name, usize>, ann: S)
    requires
        !binding_names(bs).no_duplicates() || bindings_faulty(bs),
    ensures
        check_bindings_v(bs, env, funs, ann).0 is Some,
    decreases bs,
{
    let pre = bs.drop_last();
    assert(binding_names(pre) =~= binding_names(bs).drop_last());
    if !binding_names(pre).no_duplicates() || bindings_faulty(pre) {
        lemma_bindings_faulty(pre, env, funs, ann);
    } else if !binding_names(bs).no_duplicates() {
        lemma_dup_last(binding_names(bs));
    } else {
        let (r, env1) = check_bindings_v(pre, env, funs, ann);
        lemma_faulty_rejected(bs.last().1, env1, funs);
    }
}

proof fn lemma_fun_names_known<S>(ds: Seq<DeclV<ExpV<S>, S>>, funs: Map<Name, usize>, ann: S)
    ensures
        check_fun_names_v(ds, funs, ann).0 is None ==> forall|k: int| 0 <= k < ds.len() ==> check_fun_names_v(ds, funs, ann).1.contains_key(#[trigger] ds[k].name),
    decreases ds.len(),
{
    if ds.len() > 0 {
        lemma_fun_names_known(ds.drop_last(), funs, ann);
        assert forall|k: int| check_fun_names_v(ds, funs, ann).0 is None && 0 <= k < ds.len()
            implies check_fun_names_v(ds, funs, ann).1.contains_key(#[trigger] ds[k].name) by {
            if k < ds.len() - 1 {
                assert(ds.drop_last()[k] == ds[k]);
            }
        }
    }
}

proof fn lemma_fun_names_dup<S>(ds: Seq<DeclV<ExpV<S>, S>>, funs: Map<Name, usize>, ann: S)
    requires
        !decl_names(ds).no_duplicates(),
    ensures
        check_fun_names_v(ds, funs, ann).0 is Some,
    decreases ds.len(),
{
    let pre = ds.drop_last();
    assert(decl_names(pre) =~= decl_names(ds).drop_last());
    if !decl_names(pre).no_duplicates() {
        lemma_fun_names_dup(pre, funs, ann);
    } else {
        lemma_dup_last(decl_names(ds));
        lemma_fun_names_known(pre, funs, ann);
        let k = choose|k: int| 0 <= k < decl_names(pre).len() && decl_names(pre)[k] == decl_names(ds).last();
        assert(pre[k].name == ds.last().name);
    }
}

proof fn lemma_params_dup<S>(ps: Seq<Name>, env: Set<Name>, ann: S)
    requires
        !ps.no_duplicates(),
    ensures
        check_params_v(ps, env, ann).0 is Some,
    decreases ps.len(),
{
    if !ps.drop_last().no_duplicates() {
        lemma_params_dup(ps.drop_last(), env, ann);
    } else {
        lemma_dup_last(ps);
    }
}

proof fn lemma_bodies_faulty<S>(ds: Seq<DeclV<ExpV<S>, S>>, env: Set<Name>, funs: Map<Name, usize>, ann: S)
    requires
        decls_faulty(ds),
    ensures
        check_fun_bodies_v(ds, env, funs, ann).0 is Some,
    decreases ds,
{
    if decls_faulty(ds.drop_last()) {
        lemma_bodies_faulty(ds.drop_last(), env, funs, ann);
    } else {
        let (r, env1) = check_fun_bodies_v(ds.drop_last(), env, funs, ann);
        if !ds.last().parameters.no_duplicates() {
            lemma_params_dup(ds.last().parameters, env1, ann);
        } else {
            let (r2, env2) = check_params_v(ds.last().parameters, env1, ann);
            lemma_faulty_rejected(ds.last().body, env2, funs);
        }
    }
}

} // verus!
