use vstd::prelude::*;

use crate::check::{check_exp, check_v};
use crate::lambda_lift::{lambda_lift_helper, lift_state, lift_v, DeclE, LiftSt};
use crate::names::{NameMap, NameSet};
use crate::seq_exp::{seq_body, seq_body_ok, seq_decl, seq_exp, seq_global, seq_global_ok};
use crate::should_lift::{is_surface, non_tail_calls, should_lift_helper};
use crate::syntax::{
    decls_view, exp_view, names_view, seq_decls_view, seq_view, DeclV, Exp, ExpV, FloatWrapper, FunDecl, Name, SeqExp,
    SeqExpV, SeqProg, SurfFunDecl, SurfProg,
};
use crate::tag::{
    decls_anns, lemma_tag_seq_decls_numbers, lemma_tag_seq_numbers, numbered, seq_anns, tag_exp, tag_funs, tag_seq,
    tag_seq_decls_v, tag_seq_v, tag_v,
};
use crate::assembly::{emit, emit_all, instrs_text, instrs_to_string, instrs_view, Instr, InstrV, Instruction};
use crate::compile_with_env::{add_params, bind_env, compile_with_env, cwe_ok, cwe_v, let_slot};
use crate::text::push_str;

verus! {

/// Errors that the well-formedness check reports.
#[allow(inconsistent_fields)]
#[derive(Debug, PartialEq, Eq)]
pub enum CompileErr<Span> {
    UnboundVariable { unbound: String, location: Span },
    UndefinedFunction { undefined: String, location: Span },
    /// The location is that of the let-expression that binds the name twice.
    DuplicateBinding { duplicated_name: String, location: Span },
    NumOverflow { num: i64, location: Span },
    FloatOverflow { num: FloatWrapper, location: Span },
    /// The location is that of the group of definitions.
    DuplicateFunName { duplicated_name: String, location: Span },
    DuplicateArgName { duplicated_name: String, location: Span },
    FunctionUsedAsValue { function_name: String, location: Span },
    ValueUsedAsFunction { variable_name: String, location: Span },
    /// The location is that of the call.
    FunctionCalledWrongArity { function_name: String, correct_arity: usize, arity_used: usize, location: Span },
}

/// The kind of an error, with its data but without its location.
pub enum ErrKind {
    UnboundVariable(Name),
    UndefinedFunction(Name),
    DuplicateBinding(Name),
    NumOverflow(i64),
    FloatOverflow(FloatWrapper),
    DuplicateFunName(Name),
    DuplicateArgName(Name),
    FunctionUsedAsValue(Name),
    ValueUsedAsFunction(Name),
    FunctionCalledWrongArity(Name, usize, usize),
}

pub open spec fn err_kind<Span>(e: CompileErr<Span>) -> ErrKind {
    match e {
        CompileErr::UnboundVariable { unbound, .. } => ErrKind::UnboundVariable(unbound@),
        CompileErr::UndefinedFunction { undefined, .. } => ErrKind::UndefinedFunction(undefined@),
        CompileErr::DuplicateBinding { duplicated_name, .. } => ErrKind::DuplicateBinding(duplicated_name@),
        CompileErr::NumOverflow { num, .. } => ErrKind::NumOverflow(num),
        CompileErr::FloatOverflow { num, .. } => ErrKind::FloatOverflow(num),
        CompileErr::DuplicateFunName { duplicated_name, .. } => ErrKind::DuplicateFunName(duplicated_name@),
        CompileErr::DuplicateArgName { duplicated_name, .. } => ErrKind::DuplicateArgName(duplicated_name@),
        CompileErr::FunctionUsedAsValue { function_name, .. } => ErrKind::FunctionUsedAsValue(function_name@),
        CompileErr::ValueUsedAsFunction { variable_name, .. } => ErrKind::ValueUsedAsFunction(variable_name@),
        CompileErr::FunctionCalledWrongArity { function_name, correct_arity, arity_used, .. } =>
            ErrKind::FunctionCalledWrongArity(function_name@, correct_arity, arity_used),
    }
}

pub open spec fn err_location<Span>(e: CompileErr<Span>) -> Span {
    match e {
        CompileErr::UnboundVariable { location, .. } => location,
        CompileErr::UndefinedFunction { location, .. } => location,
        CompileErr::DuplicateBinding { location, .. } => location,
        CompileErr::NumOverflow { location, .. } => location,
        CompileErr::FloatOverflow { location, .. } => location,
        CompileErr::DuplicateFunName { location, .. } => location,
        CompileErr::DuplicateArgName { location, .. } => location,
        CompileErr::FunctionUsedAsValue { location, .. } => location,
        CompileErr::ValueUsedAsFunction { location, .. } => location,
        CompileErr::FunctionCalledWrongArity { location, .. } => location,
    }
}

/// `res` reports the outcome `r` of a check: no error, or an error of the
/// given kind located at a clone of the given annotation.
pub open spec fn reports<Span: Clone>(res: Result<(), CompileErr<Span>>, r: Option<(ErrKind, Span)>) -> bool {
    match res {
        Ok(()) => r is None,
        Err(e) => r is Some && err_kind(e) == (r->0).0 && cloned((r->0).1, err_location(e)),
    }
}

} // verus!

verus! {

/// Checks a program: every variable bound, every function defined before
/// its call and called with its number of parameters, no name bound twice
/// in one let, one group of definitions or one parameter list, integer
/// literals within 63 bits and float literals within single precision.
pub fn check_prog<Span: Clone>(p: &SurfProg<Span>) -> (res: Result<(), CompileErr<Span>>)
    ensures
        reports(res, check_v(exp_view(*p), Set::empty(), Map::empty()).0),
{
    let mut env = NameSet::new();
    let mut func: NameMap<usize> = NameMap::new();
    check_exp(p, &mut env, &mut func)
}

/// The functions that must be lifted to global definitions: those called
/// somewhere out of tail position.
fn should_lift<Ann>(p: &Exp<Ann>) -> (res: NameSet)
    requires
        is_surface(exp_view(*p)),
    ensures
        res@ == non_tail_calls(exp_view(*p), true),
{
    let mut hashset = NameSet::new();
    should_lift_helper(p, &mut hashset, true);
    assert(hashset@ =~= non_tail_calls(exp_view(*p), true));
    hashset
}

/// The state lambda lifting starts from: nothing in scope, nothing lifted.
pub open spec fn lift_start() -> LiftSt {
    LiftSt { env: Seq::empty(), lifted: Seq::empty(), decls: Map::empty(), envs: Map::empty(), ok: true }
}

/// Lambda lifting of a whole program: the functions called out of tail
/// position are lifted.
pub open spec fn lift_prog_v<A>(e: ExpV<A>) -> (ExpV<()>, LiftSt) {
    lift_v(e, lift_start(), non_tail_calls(e, true), true)
}

/// Lifts the functions that must be lifted to global definitions; returns
/// them, the remaining program, and the variables each function captures.
fn lambda_lift<Ann>(p: &Exp<Ann>) -> (res: (Vec<SurfFunDecl<()>>, Exp<()>, NameMap<Vec<String>>))
    requires
        is_surface(exp_view(*p)),
        lift_prog_v(exp_view(*p)).1.ok,
    ensures
        decls_view(res.0@) == lift_prog_v(exp_view(*p)).1.lifted,
        exp_view(res.1) == lift_prog_v(exp_view(*p)).0,
        res.2@ == lift_prog_v(exp_view(*p)).1.envs,
{
    let mut env: Vec<String> = Vec::new();
    let mut lifted: Vec<FunDecl<Exp<()>, ()>> = Vec::new();
    let should_lift = should_lift(p);
    let mut fun_to_decl: NameMap<FunDecl<Exp<()>, ()>> = NameMap::new();
    let mut fun_to_env: NameMap<Vec<String>> = NameMap::new();
    assert(lift_state(env@, lifted@, fun_to_decl@, fun_to_env@) =~= lift_start()) by {
        assert(names_view(env@) =~= Seq::<Name>::empty());
        assert(decls_view(lifted@) =~= Seq::<DeclE>::empty());
    }
    let body = lambda_lift_helper(p, &mut env, &mut lifted, &should_lift, &mut fun_to_decl, true, &mut fun_to_env);
    (lifted, body, fun_to_env)
}

/// Puts the global functions and the main expression in sequential form.
fn seq_prog(decls: &[SurfFunDecl<()>], p: &Exp<()>) -> (res: SeqProg<()>)
    requires
        forall|i: int| 0 <= i < decls@.len() ==> seq_global_ok(#[trigger] decls_view(decls@)[i]),
        seq_body_ok(exp_view(*p)),
    ensures
        seq_decls_view(res.funs@) == decls_view(decls@).map_values(|d: DeclE| seq_global(d)),
        seq_view(res.main) == seq_body(exp_view(*p)),
{
    let mut counter: u32 = 0;
    let mut fun_map: NameMap<String> = NameMap::new();
    let tagged = tag_exp(p, &mut counter, &mut fun_map, false);
    SeqProg { funs: seq_decl(decls), main: seq_exp(&tagged), ann: () }
}

} // verus!

verus! {

pub open spec fn imax(a: int, b: int) -> int {
    if a >= b { a } else { b }
}

/// Stack slots needed by the variables that `e` binds, beyond those of
/// its environment.
pub open spec fn space_v<A>(e: SeqExpV<A>) -> int
    decreases e,
{
    match e {
        SeqExpV::Let { bound_exp, body, .. } => imax(1 + space_v(*body), space_v(*bound_exp)),
        SeqExpV::If { thn, els, .. } => imax(space_v(*thn), space_v(*els)),
        SeqExpV::FunDefs { decls, body, .. } => imax(space_v(*body), decls_space_v(decls)),
        _ => 0,
    }
}

/// Largest frame a function of `ds` needs: its body's slots plus one per parameter.
pub open spec fn decls_space_v<A>(ds: Seq<DeclV<SeqExpV<A>, A>>) -> int
    decreases ds,
{
    if ds.len() == 0 {
        0
    } else {
        imax(decls_space_v(ds.drop_last()), space_v(ds.last().body) + ds.last().parameters.len())
    }
}

proof fn lemma_space_nonneg<A>(e: SeqExpV<A>)
    ensures
        space_v(e) >= 0,
    decreases e,
{
    match e {
        SeqExpV::Let { body, .. } => lemma_space_nonneg(*body),
        SeqExpV::If { thn, .. } => lemma_space_nonneg(*thn),
        SeqExpV::FunDefs { body, .. } => lemma_space_nonneg(*body),
        _ => {},
    }
}

proof fn lemma_decls_space<A>(ds: Seq<DeclV<SeqExpV<A>, A>>, i: int)
    requires
        0 <= i <= ds.len(),
    ensures
        0 <= decls_space_v(ds.take(i)) <= decls_space_v(ds),
        i < ds.len() ==> space_v(ds[i].body) + ds[i].parameters.len() <= decls_space_v(ds),
        i < ds.len() ==> decls_space_v(ds.take(i + 1)) == imax(decls_space_v(ds.take(i)), space_v(ds[i].body) + ds[i].parameters.len()),
    decreases ds.len(),
{
    if ds.len() > 0 {
        if i < ds.len() {
            lemma_decls_space(ds.drop_last(), if i < ds.len() - 1 { i } else { i });
            if i < ds.len() - 1 {
                assert(ds.drop_last().take(i) =~= ds.take(i));
                assert(ds.drop_last().take(i + 1) =~= ds.take(i + 1));
            } else {
                assert(ds.drop_last() =~= ds.take(i));
                assert(ds.take(i + 1) =~= ds);
                assert(ds.take(i + 1).drop_last() =~= ds.take(i));
            }
        } else {
            assert(ds.take(i) =~= ds);
            lemma_decls_space(ds.drop_last(), 0);
        }
    } else {
        assert(ds.take(i) =~= ds);
    }
}

/// Stack slots needed by the variables bound in `e`.
fn space_needed<Ann>(e: &SeqExp<Ann>) -> (res: i32)
    requires
        space_v(seq_view(*e)) <= i32::MAX,
    ensures
        res == space_v(seq_view(*e)),
    decreases e, 1nat,
{
    match e {
        SeqExp::Let { bound_exp, body, .. } => {
            proof {
                lemma_space_nonneg(seq_view(**body));
                lemma_space_nonneg(seq_view(**bound_exp));
            }
            let a = 1 + space_needed(body);
            let b = space_needed(bound_exp);
            if a >= b { a } else { b }
        },
        SeqExp::If { thn, els, .. } => {
            let a = space_needed(thn);
            let b = space_needed(els);
            if a >= b { a } else { b }
        },
        SeqExp::FunDefs { decls, body, .. } => {
            proof {
                lemma_space_nonneg(seq_view(**body));
                lemma_decls_space(seq_decls_view(decls@), 0);
            }
            let a = space_needed(body);
            let b = decls_space(decls);
            if a >= b { a } else { b }
        },
        _ => 0,
    }
}

/// Largest frame a function of `decls` needs.
fn decls_space<Ann>(decls: &Vec<FunDecl<SeqExp<Ann>, Ann>>) -> (res: i32)
    requires
        decls_space_v(seq_decls_view(decls@)) <= i32::MAX,
    ensures
        res == decls_space_v(seq_decls_view(decls@)),
    decreases decls, 0nat,
{
    let ghost ds = seq_decls_view(decls@);
    proof { crate::syntax::lemma_seq_decls_view(decls@); }
    let mut max: i32 = 0;
    let mut i: usize = 0;
    assert(ds.take(0) =~= Seq::<DeclV<SeqExpV<Ann>, Ann>>::empty());
    while i < decls.len()
        invariant
            i <= decls@.len(),
            ds == seq_decls_view(decls@),
            ds.len() == decls@.len(),
            decls_space_v(ds) <= i32::MAX,
            max == decls_space_v(ds.take(i as int)),
        decreases decls@.len() - i,
    {
        proof {
            lemma_decls_space(ds, i as int);
            lemma_space_nonneg(ds[i as int].body);
            crate::syntax::lemma_seq_decls_view(decls@);
            assert(ds[i as int].parameters.len() == decls@[i as int].parameters@.len());
        }
        let decl = &decls[i];
        let k: i32 = decl.parameters.len() as i32;
        let s = space_needed(&decl.body) + k;
        if s > max {
            max = s;
        }
        i += 1;
    }
    assert(ds.take(decls@.len() as int) =~= ds);
    max
}

/// The frame size: the largest need over the global functions and the main
/// expression, made odd so that the stack stays 16-byte aligned at calls.
pub open spec fn frame_size<A>(funs: Seq<DeclV<SeqExpV<A>, A>>, main: SeqExpV<A>) -> int {
    let s = imax(decls_space_v(funs), space_v(main));
    if s % 2 == 0 { s + 1 } else { s }
}

/// Each global function: its label, its body with its parameters in scope, a return.
pub open spec fn globals_v(ds: Seq<DeclV<SeqExpV<u32>, u32>>, space: i32, fenv: Map<Name, Seq<Name>>) -> Seq<InstrV>
    decreases ds.len(),
{
    if ds.len() == 0 {
        Seq::empty()
    } else {
        globals_v(ds.drop_last(), space, fenv) + seq![Instruction::Label(ds.last().name)]
            + cwe_v(ds.last().body, ds.last().parameters, space, fenv) + seq![Instruction::Ret]
    }
}

/// The global functions and the main expression, tagged from 1 in that order.
pub open spec fn tag_prog_v(funs: Seq<DeclV<SeqExpV<()>, ()>>, main: SeqExpV<()>) -> (Seq<DeclV<SeqExpV<u32>, u32>>, SeqExpV<u32>, bool) {
    let tf = tag_seq_decls_v(funs, 1);
    let tm = tag_seq_v(main, tf.counter);
    (tf.val, tm.val, tf.ok && tm.ok)
}

/// Code generation can run: tagging does not overflow, the frame size fits
/// in an `i32`, and every function body and the main expression compile.
pub open spec fn instrs_ok(funs: Seq<DeclV<SeqExpV<()>, ()>>, main: SeqExpV<()>, fenv: Map<Name, Seq<Name>>) -> bool {
    let (tf, tm, ok) = tag_prog_v(funs, main);
    let frame = frame_size(tf, tm);
    &&& ok
    &&& imax(decls_space_v(tf), space_v(tm)) < i32::MAX
    &&& forall|i: int| 0 <= i < tf.len() ==> cwe_ok(#[trigger] tf[i].body, tf[i].parameters, frame as i32, fenv)
    &&& cwe_ok(tm, Seq::empty(), frame as i32, fenv)
}

/// The code of the global functions, then a label ending them; the code
/// of the main expression, then a return.
pub open spec fn instrs_v(funs: Seq<DeclV<SeqExpV<()>, ()>>, main: SeqExpV<()>, fenv: Map<Name, Seq<Name>>) -> (Seq<InstrV>, Seq<InstrV>) {
    let (tf, tm, _) = tag_prog_v(funs, main);
    let frame = frame_size(tf, tm) as i32;
    (
        globals_v(tf, frame, fenv) + seq![Instruction::Label("funend_0"@)],
        cwe_v(tm, Seq::empty(), frame, fenv) + seq![Instruction::Ret],
    )
}

fn compile_to_instrs(seq_prog: &SeqProg<()>, fun_to_env: &NameMap<Vec<String>>) -> (res: (Vec<Instr>, Vec<Instr>))
    requires
        instrs_ok(seq_decls_view(seq_prog.funs@), seq_view(seq_prog.main), fun_to_env@),
    ensures
        (instrs_view(res.0@), instrs_view(res.1@)) == instrs_v(seq_decls_view(seq_prog.funs@), seq_view(seq_prog.main), fun_to_env@),
{
    let ghost fv = seq_decls_view(seq_prog.funs@);
    let ghost mv = seq_view(seq_prog.main);
    let ghost fenv = fun_to_env@;
    let mut counter: u32 = 1;
    let funs = tag_funs(&seq_prog.funs, &mut counter);
    let main = tag_seq(&seq_prog.main, &mut counter);
    let ghost tf = seq_decls_view(funs@);
    let ghost tm = seq_view(main);
    assert(tag_prog_v(fv, mv) == (tf, tm, true));

    let fs = decls_space(&funs);
    let ms = space_needed(&main);
    let space0 = if fs >= ms { fs } else { ms };
    let space = if space0 % 2 == 0 { space0 + 1 } else { space0 };
    assert(space == frame_size(tf, tm));

    proof { crate::syntax::lemma_seq_decls_view(funs@); }
    let mut funs_instrs: Vec<Instr> = Vec::new();
    let mut i: usize = 0;
    assert(tf.take(0) =~= Seq::<DeclV<SeqExpV<u32>, u32>>::empty());
    assert(instrs_view(funs_instrs@) =~= globals_v(tf.take(0), space, fenv));
    while i < funs.len()
        invariant
            i <= funs@.len(),
            tf == seq_decls_view(funs@),
            tf.len() == funs@.len(),
            fenv == fun_to_env@,
            forall|j: int| 0 <= j < tf.len() ==> cwe_ok(#[trigger] tf[j].body, tf[j].parameters, space, fenv),
            instrs_view(funs_instrs@) == globals_v(tf.take(i as int), space, fenv),
        decreases funs@.len() - i,
    {
        proof {
            crate::syntax::lemma_seq_decls_view(funs@);
            assert(tf.take(i + 1).drop_last() =~= tf.take(i as int));
            assert(tf.take(i + 1).last() == tf[i as int]);
            assert(tf[i as int].parameters == names_view(funs@[i as int].parameters@));
            assert(cwe_ok(tf[i as int].body, tf[i as int].parameters, space, fenv));
        }
        let decl = &funs[i];
        emit(&mut funs_instrs, Instruction::Label(decl.name.clone()));
        emit_all(&mut funs_instrs, compile_with_env(&decl.body, crate::names::copy_names(&decl.parameters), space, fun_to_env));
        emit(&mut funs_instrs, Instruction::Ret);
        i += 1;
        assert(instrs_view(funs_instrs@) =~= globals_v(tf.take(i as int), space, fenv));
    }
    assert(tf.take(funs@.len() as int) =~= tf);
    emit(&mut funs_instrs, Instruction::Label(String::from_str("funend_0")));

    let no_vars: Vec<String> = Vec::new();
    assert(names_view(no_vars@) =~= Seq::<Name>::empty());
    let mut main_instrs = compile_with_env(&main, no_vars, space, fun_to_env);
    emit(&mut main_instrs, Instruction::Ret);
    assert(instrs_view(funs_instrs@) =~= globals_v(tf, space, fenv) + seq![Instruction::Label("funend_0"@)]);
    (funs_instrs, main_instrs)
}

} // verus!

verus! {

/// Every stage after the check can run on the program `e`: renaming does
/// not overflow its counter, the renamed program is a surface program whose
/// lifting succeeds, the lifted functions and the rest can be put in
/// sequential form, and code generation can run.
pub open spec fn pipeline_ok<S>(e: ExpV<S>) -> bool {
    let u = tag_v(e, 0, Map::empty(), true);
    let (body, st) = lift_prog_v(u.val);
    &&& u.ok
    &&& is_surface(u.val)
    &&& st.ok
    &&& forall|i: int| 0 <= i < st.lifted.len() ==> seq_global_ok(#[trigger] st.lifted[i])
    &&& seq_body_ok(body)
    &&& instrs_ok(st.lifted.map_values(|d: DeclE| seq_global(d)), seq_body(body), st.envs)
}

/// The code of a program: renamed apart, lambda lifted, put in sequential
/// form, tagged and compiled.
pub open spec fn program_instrs<S>(e: ExpV<S>) -> (Seq<InstrV>, Seq<InstrV>) {
    let u = tag_v(e, 0, Map::empty(), true);
    let (body, st) = lift_prog_v(u.val);
    instrs_v(st.lifted.map_values(|d: DeclE| seq_global(d)), seq_body(body), st.envs)
}

pub open spec fn prologue_text() -> Seq<char> {
    "section .text\n        global start_here\n        extern print_snake_val\n        extern snake_error\n"@
}

pub open spec fn start_text() -> Seq<char> {
    "        start_here:\n        push r15\n        mov r15, rdi\n        call main\n        pop r15\n        ret\nmain:\n"@
}

pub open spec fn epilogue_text() -> Seq<char> {
    "\n        "@
}

/// The assembly file: the declarations, the global functions, the entry
/// point that calls `main`, and the code of `main`.
pub open spec fn asm_file(funs: Seq<char>, main: Seq<char>) -> Seq<char> {
    prologue_text() + funs + start_text() + main + epilogue_text()
}

pub open spec fn program_text<S>(e: ExpV<S>) -> Seq<char> {
    asm_file(instrs_text(program_instrs(e).0), instrs_text(program_instrs(e).1))
}

/// Compiles a program to assembly text, or reports the error the check finds.
pub fn compile_to_string<Span: Clone>(p: &SurfProg<Span>) -> (res: Result<String, CompileErr<Span>>)
    requires
        check_v(exp_view(*p), Set::empty(), Map::empty()).0 is None ==> pipeline_ok(exp_view(*p)),
    ensures
        res is Ok <==> check_v(exp_view(*p), Set::empty(), Map::empty()).0 is None,
        res matches Ok(s) ==> s@ == program_text(exp_view(*p)),
        res matches Err(e) ==> reports(Err(e), check_v(exp_view(*p), Set::empty(), Map::empty()).0),
{
    match check_prog(p) {
        Err(e) => {
            return Err(e);
        },
        Ok(()) => {},
    }
    let mut counter: u32 = 0;
    let mut fun_map: NameMap<String> = NameMap::new();
    let uniquified = tag_exp(p, &mut counter, &mut fun_map, true);
    let (lifted, exp, fun_to_env) = lambda_lift(&uniquified);
    let ghost st = lift_prog_v(exp_view(uniquified)).1;
    assert forall|i: int| 0 <= i < lifted@.len() implies seq_global_ok(#[trigger] decls_view(lifted@)[i]) by {
        crate::syntax::lemma_decls_view(lifted@);
        assert(decls_view(lifted@)[i] == st.lifted[i]);
    }
    let seq_prog = seq_prog(lifted.as_slice(), &exp);
    let (fun_instrs, main_instrs) = compile_to_instrs(&seq_prog, &fun_to_env);
    let mut out = String::new();
    push_str(&mut out, "section .text\n        global start_here\n        extern print_snake_val\n        extern snake_error\n");
    let funs_text = instrs_to_string(fun_instrs.as_slice());
    push_str(&mut out, funs_text.as_str());
    push_str(&mut out, "        start_here:\n        push r15\n        mov r15, rdi\n        call main\n        pop r15\n        ret\nmain:\n");
    let main_text = instrs_to_string(main_instrs.as_slice());
    push_str(&mut out, main_text.as_str());
    push_str(&mut out, "\n        ");
    Ok(out)
}

} // verus!

verus! {

/// The frame is odd (with the return address, the stack pointer stays
/// 16-byte aligned at calls) and holds every slot the program needs.
pub proof fn lemma_frame_size<A>(funs: Seq<DeclV<SeqExpV<A>, A>>, main: SeqExpV<A>)
    ensures
        frame_size(funs, main) % 2 == 1,
        frame_size(funs, main) >= decls_space_v(funs),
        frame_size(funs, main) >= space_v(main),
{
}

/// Tagging a whole program numbers the global functions' nodes, the
/// functions themselves and the main expression's nodes consecutively from
/// 1, so no two of them share a tag.
pub proof fn lemma_prog_tags_distinct(funs: Seq<DeclV<SeqExpV<()>, ()>>, main: SeqExpV<()>)
    requires
        tag_prog_v(funs, main).2,
    ensures
        ({
            let anns = decls_anns(tag_prog_v(funs, main).0) + seq_anns(tag_prog_v(funs, main).1);
            &&& anns == numbered(1, anns.len() as int)
            &&& forall|i: int, j: int| 0 <= i < j < anns.len() ==> anns[i] != anns[j]
        }),
{
    let tf = tag_seq_decls_v(funs, 1);
    let tm = tag_seq_v(main, tf.counter);
    lemma_tag_seq_decls_numbers(funs, 1);
    lemma_tag_seq_numbers(main, tf.counter);
    let anns = decls_anns(tf.val) + seq_anns(tm.val);
    assert(anns =~= numbered(1, tm.counter - 1));
    assert forall|i: int, j: int| 0 <= i < j < anns.len() implies anns[i] != anns[j] by {
        assert(anns[i] == (1 + i) as u32);
        assert(anns[j] == (1 + j) as u32);
    }
}

} // verus!

verus! {

/// Only functions that the program calls somewhere out of tail position
/// become global definitions.
pub proof fn lemma_lifted_are_called_out_of_tail_position<A>(e: ExpV<A>)
    ensures
        forall|i: int| 0 <= i < lift_prog_v(e).1.lifted.len()
            ==> non_tail_calls(e, true).contains(#[trigger] lift_prog_v(e).1.lifted[i].name),
{
    crate::lambda_lift::lemma_lift_only_from_set(e, lift_start(), non_tail_calls(e, true), true);
}

} // verus!

verus! {

/// Every slot that a let of `e` stores to, with `env` in scope, is below `k`.
pub open spec fn lets_below(e: SeqExpV<u32>, env: Seq<Name>, fenv: Map<Name, Seq<Name>>, k: int) -> bool
    decreases e,
{
    match e {
        SeqExpV::Let { var, bound_exp, body, .. } =>
            let_slot(env, var) < k && lets_below(*bound_exp, env, fenv, k) && lets_below(*body, bind_env(env, var), fenv, k),
        SeqExpV::If { thn, els, .. } => lets_below(*thn, env, fenv, k) && lets_below(*els, env, fenv, k),
        SeqExpV::FunDefs { decls, body, .. } => decls_lets_below(decls, fenv, k) && lets_below(*body, env, fenv, k),
        _ => true,
    }
}

pub open spec fn decls_lets_below(ds: Seq<DeclV<SeqExpV<u32>, u32>>, fenv: Map<Name, Seq<Name>>, k: int) -> bool
    decreases ds,
{
    ds.len() == 0 || (decls_lets_below(ds.drop_last(), fenv, k)
        && lets_below(ds.last().body, add_params(fenv[ds.last().name], ds.last().parameters), fenv, k))
}

/// Each local function of `e` captures no more variables than are in scope
/// where it is defined.
pub open spec fn captures_fit(e: SeqExpV<u32>, env: Seq<Name>, fenv: Map<Name, Seq<Name>>) -> bool
    decreases e,
{
    match e {
        SeqExpV::Let { var, bound_exp, body, .. } => captures_fit(*bound_exp, env, fenv) && captures_fit(*body, bind_env(env, var), fenv),
        SeqExpV::If { thn, els, .. } => captures_fit(*thn, env, fenv) && captures_fit(*els, env, fenv),
        SeqExpV::FunDefs { decls, body, .. } => decls_captures_fit(decls, env.len() as int, fenv) && captures_fit(*body, env, fenv),
        _ => true,
    }
}

pub open spec fn decls_captures_fit(ds: Seq<DeclV<SeqExpV<u32>, u32>>, n: int, fenv: Map<Name, Seq<Name>>) -> bool
    decreases ds,
{
    ds.len() == 0 || (decls_captures_fit(ds.drop_last(), n, fenv) && fenv[ds.last().name].len() <= n
        && captures_fit(ds.last().body, add_params(fenv[ds.last().name], ds.last().parameters), fenv))
}

proof fn lemma_add_params_len(env: Seq<Name>, ps: Seq<Name>)
    ensures
        add_params(env, ps).len() <= env.len() + ps.len(),
    decreases ps.len(),
{
    if ps.len() > 0 {
        lemma_add_params_len(env, ps.drop_last());
    }
}

proof fn lemma_lets_below_mono(e: SeqExpV<u32>, env: Seq<Name>, fenv: Map<Name, Seq<Name>>, k: int, k2: int)
    requires
        lets_below(e, env, fenv, k),
        k <= k2,
    ensures
        lets_below(e, env, fenv, k2),
    decreases e,
{
    match e {
        SeqExpV::Let { var, bound_exp, body, .. } => {
            lemma_lets_below_mono(*bound_exp, env, fenv, k, k2);
            lemma_lets_below_mono(*body, bind_env(env, var), fenv, k, k2);
        },
        SeqExpV::If { thn, els, .. } => {
            lemma_lets_below_mono(*thn, env, fenv, k, k2);
            lemma_lets_below_mono(*els, env, fenv, k, k2);
        },
        SeqExpV::FunDefs { decls, body, .. } => {
            lemma_decls_lets_below_mono(decls, fenv, k, k2);
            lemma_lets_below_mono(*body, env, fenv, k, k2);
        },
        _ => {},
    }
}

proof fn lemma_decls_lets_below_mono(ds: Seq<DeclV<SeqExpV<u32>, u32>>, fenv: Map<Name, Seq<Name>>, k: int, k2: int)
    requires
        decls_lets_below(ds, fenv, k),
        k <= k2,
    ensures
        decls_lets_below(ds, fenv, k2),
    decreases ds,
{
    if ds.len() > 0 {
        lemma_decls_lets_below_mono(ds.drop_last(), fenv, k, k2);
        lemma_lets_below_mono(ds.last().body, add_params(fenv[ds.last().name], ds.last().parameters), fenv, k, k2);
    }
}

/// The slots that `space_needed` counts hold every let: when each local
/// function captures no more variables than are in scope where it is
/// defined, every let of `e` stores below `env.len() + space_v(e)`.
pub proof fn lemma_space_holds_lets(e: SeqExpV<u32>, env: Seq<Name>, fenv: Map<Name, Seq<Name>>)
    requires
        captures_fit(e, env, fenv),
    ensures
        lets_below(e, env, fenv, env.len() + space_v(e)),
    decreases e,
{
    let k = env.len() + space_v(e);
    match e {
        SeqExpV::Let { var, bound_exp, body, .. } => {
            lemma_space_nonneg(*bound_exp);
            lemma_space_nonneg(*body);
            lemma_space_holds_lets(*bound_exp, env, fenv);
            lemma_lets_below_mono(*bound_exp, env, fenv, env.len() + space_v(*bound_exp), k);
            let env2 = bind_env(env, var);
            lemma_space_holds_lets(*body, env2, fenv);
            lemma_lets_below_mono(*body, env2, fenv, env2.len() + space_v(*body), k);
            crate::names::lemma_first_index(env, var);
        },
        SeqExpV::If { thn, els, .. } => {
            lemma_space_holds_lets(*thn, env, fenv);
            lemma_lets_below_mono(*thn, env, fenv, env.len() + space_v(*thn), k);
            lemma_space_holds_lets(*els, env, fenv);
            lemma_lets_below_mono(*els, env, fenv, env.len() + space_v(*els), k);
        },
        SeqExpV::FunDefs { decls, body, .. } => {
            lemma_space_holds_decls(decls, env.len() as int, fenv, k);
            lemma_space_holds_lets(*body, env, fenv);
            lemma_lets_below_mono(*body, env, fenv, env.len() + space_v(*body), k);
        },
        _ => {},
    }
}

proof fn lemma_space_holds_decls(ds: Seq<DeclV<SeqExpV<u32>, u32>>, n: int, fenv: Map<Name, Seq<Name>>, k: int)
    requires
        decls_captures_fit(ds, n, fenv),
        n + decls_space_v(ds) <= k,
    ensures
        decls_lets_below(ds, fenv, k),
    decreases ds,
{
    if ds.len() > 0 {
        let d = ds.last();
        lemma_decls_space(ds.drop_last(), 0);
        lemma_space_holds_decls(ds.drop_last(), n, fenv, k);
        let env_d = add_params(fenv[d.name], d.parameters);
        lemma_add_params_len(fenv[d.name], d.parameters);
        lemma_space_holds_lets(d.body, env_d, fenv);
        lemma_lets_below_mono(d.body, env_d, fenv, env_d.len() + space_v(d.body), k);
    }
}

} // verus!

verus! {

/// The frame holds every let of the program: in each global function (its
/// parameters in scope) and in the main expression, every let stores below
/// the frame size, when local functions capture no more variables than are
/// in scope where they are defined.
pub proof fn lemma_frame_holds_lets(
    funs: Seq<DeclV<SeqExpV<u32>, u32>>,
    main: SeqExpV<u32>,
    fenv: Map<Name, Seq<Name>>,
)
    requires
        forall|i: int| 0 <= i < funs.len() ==> captures_fit(#[trigger] funs[i].body, funs[i].parameters, fenv),
        captures_fit(main, Seq::empty(), fenv),
    ensures
        forall|i: int| 0 <= i < funs.len() ==> lets_below(#[trigger] funs[i].body, funs[i].parameters, fenv, frame_size(funs, main)),
        lets_below(main, Seq::empty(), fenv, frame_size(funs, main)),
{
    let frame = frame_size(funs, main);
    assert forall|i: int| 0 <= i < funs.len() implies lets_below(#[trigger] funs[i].body, funs[i].parameters, fenv, frame) by {
        lemma_decls_space(funs, i);
        lemma_space_holds_lets(funs[i].body, funs[i].parameters, fenv);
        lemma_lets_below_mono(funs[i].body, funs[i].parameters, fenv, funs[i].parameters.len() + space_v(funs[i].body), frame);
    }
    lemma_space_holds_lets(main, Seq::empty(), fenv);
    lemma_lets_below_mono(main, Seq::empty(), fenv, space_v(main), frame);
}

} // verus!
