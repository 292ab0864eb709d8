use vstd::prelude::*;

verus! {

/// Primitive operators of the source language.
#[derive(Clone, Copy, Debug, PartialEq, Eq, Structural)]
pub enum Prim {
    Add1,
    Sub1,
    Not,
    Print,
    IsBool,
    IsNum,
    IsFloat,
    Sqrt,
    Cos,
    Add,
    Sub,
    Mul,
    Div,
    FloorDiv,
    And,
    Or,
    Lt,
    Gt,
    Le,
    Ge,
    Eq,
    Neq,
}

/// A floating-point literal, held as the bit pattern of its IEEE-754 double.
#[derive(Clone, Copy, Debug, PartialEq, Eq, Structural)]
pub struct FloatWrapper(pub u64);

/// A function declaration: name, parameters, body and annotation.
#[derive(Debug, PartialEq, Eq)]
pub struct FunDecl<E, Ann> {
    pub name: String,
    pub parameters: Vec<String>,
    pub body: E,
    pub ann: Ann,
}

/// Expressions of the source language.
#[derive(Debug, PartialEq, Eq)]
pub enum Exp<Ann> {
    Num(i64, Ann),
    Bool(bool, Ann),
    Float(FloatWrapper, Ann),
    Var(String, Ann),
    Prim(Prim, Vec<Box<Exp<Ann>>>, Ann),
    Let { bindings: Vec<(String, Exp<Ann>)>, body: Box<Exp<Ann>>, ann: Ann },
    If { cond: Box<Exp<Ann>>, thn: Box<Exp<Ann>>, els: Box<Exp<Ann>>, ann: Ann },
    FunDefs { decls: Vec<FunDecl<Exp<Ann>, Ann>>, body: Box<Exp<Ann>>, ann: Ann },
    Call(String, Vec<Exp<Ann>>, Ann),
    InternalTailCall(String, Vec<Exp<Ann>>, Ann),
    ExternalCall { fun_name: String, args: Vec<Exp<Ann>>, is_tail: bool, ann: Ann },
}

pub type SurfProg<Ann> = Exp<Ann>;

pub type SurfFunDecl<Ann> = FunDecl<Exp<Ann>, Ann>;

/// Immediate expressions of the sequential form.
#[derive(Debug, PartialEq, Eq)]
pub enum ImmExp {
    Num(i64),
    Bool(bool),
    Var(String),
    Float(FloatWrapper),
}

/// Expressions in sequential (A-normal) form.
#[derive(Debug, PartialEq, Eq)]
pub enum SeqExp<Ann> {
    Imm(ImmExp, Ann),
    Prim(Prim, Vec<ImmExp>, Ann),
    Let { var: String, bound_exp: Box<SeqExp<Ann>>, body: Box<SeqExp<Ann>>, ann: Ann },
    If { cond: ImmExp, thn: Box<SeqExp<Ann>>, els: Box<SeqExp<Ann>>, ann: Ann },
    FunDefs { decls: Vec<FunDecl<SeqExp<Ann>, Ann>>, body: Box<SeqExp<Ann>>, ann: Ann },
    InternalTailCall(String, Vec<ImmExp>, Ann),
    ExternalCall { fun_name: String, args: Vec<ImmExp>, is_tail: bool, ann: Ann },
}

pub type SeqFunDecl<Ann> = FunDecl<SeqExp<Ann>, Ann>;

/// A whole program in sequential form: global functions and the main expression.
#[derive(Debug, PartialEq, Eq)]
pub struct SeqProg<Ann> {
    pub funs: Vec<SeqFunDecl<Ann>>,
    pub main: SeqExp<Ann>,
    pub ann: Ann,
}

// ---------------------------------------------------------------------------
// Mathematical models: names become character sequences, vectors become Seq.
// ---------------------------------------------------------------------------

pub type Name = Seq<char>;

pub struct DeclV<E, Ann> {
    pub name: Name,
    pub parameters: Seq<Name>,
    pub body: E,
    pub ann: Ann,
}

pub enum ExpV<Ann> {
    Num(i64, Ann),
    Bool(bool, Ann),
    Float(FloatWrapper, Ann),
    Var(Name, Ann),
    Prim(Prim, Seq<ExpV<Ann>>, Ann),
    Let { bindings: Seq<(Name, ExpV<Ann>)>, body: Box<ExpV<Ann>>, ann: Ann },
    If { cond: Box<ExpV<Ann>>, thn: Box<ExpV<Ann>>, els: Box<ExpV<Ann>>, ann: Ann },
    FunDefs { decls: Seq<DeclV<ExpV<Ann>, Ann>>, body: Box<ExpV<Ann>>, ann: Ann },
    Call(Name, Seq<ExpV<Ann>>, Ann),
    InternalTailCall(Name, Seq<ExpV<Ann>>, Ann),
    ExternalCall { fun_name: Name, args: Seq<ExpV<Ann>>, is_tail: bool, ann: Ann },
}

pub enum ImmV {
    Num(i64),
    Bool(bool),
    Var(Name),
    Float(FloatWrapper),
}

pub enum SeqExpV<Ann> {
    Imm(ImmV, Ann),
    Prim(Prim, Seq<ImmV>, Ann),
    Let { var: Name, bound_exp: Box<SeqExpV<Ann>>, body: Box<SeqExpV<Ann>>, ann: Ann },
    If { cond: ImmV, thn: Box<SeqExpV<Ann>>, els: Box<SeqExpV<Ann>>, ann: Ann },
    FunDefs { decls: Seq<DeclV<SeqExpV<Ann>, Ann>>, body: Box<SeqExpV<Ann>>, ann: Ann },
    InternalTailCall(Name, Seq<ImmV>, Ann),
    ExternalCall { fun_name: Name, args: Seq<ImmV>, is_tail: bool, ann: Ann },
}

pub open spec fn names_view(v: Seq<String>) -> Seq<Name> {
    v.map_values(|s: String| s@)
}

pub open spec fn exp_view<A>(e: Exp<A>) -> ExpV<A>
    decreases e,
{
    match e {
        Exp::Num(n, a) => ExpV::Num(n, a),
        Exp::Bool(b, a) => ExpV::Bool(b, a),
        Exp::Float(f, a) => ExpV::Float(f, a),
        Exp::Var(x, a) => ExpV::Var(x@, a),
        Exp::Prim(p, es, a) => ExpV::Prim(p, boxed_exps_view(es@), a),
        Exp::Let { bindings, body, ann } => ExpV::Let {
            bindings: bindings_view(bindings@),
            body: Box::new(exp_view(*body)),
            ann,
        },
        Exp::If { cond, thn, els, ann } => ExpV::If {
            cond: Box::new(exp_view(*cond)),
            thn: Box::new(exp_view(*thn)),
            els: Box::new(exp_view(*els)),
            ann,
        },
        Exp::FunDefs { decls, body, ann } => ExpV::FunDefs {
            decls: decls_view(decls@),
            body: Box::new(exp_view(*body)),
            ann,
        },
        Exp::Call(f, args, a) => ExpV::Call(f@, exps_view(args@), a),
        Exp::InternalTailCall(f, args, a) => ExpV::InternalTailCall(f@, exps_view(args@), a),
        Exp::ExternalCall { fun_name, args, is_tail, ann } => ExpV::ExternalCall {
            fun_name: fun_name@,
            args: exps_view(args@),
            is_tail,
            ann,
        },
    }
}

pub open spec fn boxed_exps_view<A>(es: Seq<Box<Exp<A>>>) -> Seq<ExpV<A>>
    decreases es,
{
    if es.len() == 0 {
        Seq::empty()
    } else {
        boxed_exps_view(es.drop_last()).push(exp_view(*es.last()))
    }
}

pub open spec fn exps_view<A>(es: Seq<Exp<A>>) -> Seq<ExpV<A>>
    decreases es,
{
    if es.len() == 0 {
        Seq::empty()
    } else {
        exps_view(es.drop_last()).push(exp_view(es.last()))
    }
}

pub open spec fn bindings_view<A>(bs: Seq<(String, Exp<A>)>) -> Seq<(Name, ExpV<A>)>
    decreases bs,
{
    if bs.len() == 0 {
        Seq::empty()
    } else {
        bindings_view(bs.drop_last()).push((bs.last().0@, exp_view(bs.last().1)))
    }
}

pub open spec fn decl_view<A>(d: FunDecl<Exp<A>, A>) -> DeclV<ExpV<A>, A>
    decreases d,
{
    DeclV { name: d.name@, parameters: names_view(d.parameters@), body: exp_view(d.body), ann: d.ann }
}

pub open spec fn decls_view<A>(ds: Seq<FunDecl<Exp<A>, A>>) -> Seq<DeclV<ExpV<A>, A>>
    decreases ds,
{
    if ds.len() == 0 {
        Seq::empty()
    } else {
        decls_view(ds.drop_last()).push(decl_view(ds.last()))
    }
}


pub open spec fn imm_view(i: ImmExp) -> ImmV {
    match i {
        ImmExp::Num(n) => ImmV::Num(n),
        ImmExp::Bool(b) => ImmV::Bool(b),
        ImmExp::Var(x) => ImmV::Var(x@),
        ImmExp::Float(f) => ImmV::Float(f),
    }
}

pub open spec fn imms_view(v: Seq<ImmExp>) -> Seq<ImmV> {
    v.map_values(|i: ImmExp| imm_view(i))
}

pub open spec fn seq_view<A>(e: SeqExp<A>) -> SeqExpV<A>
    decreases e,
{
    match e {
        SeqExp::Imm(i, a) => SeqExpV::Imm(imm_view(i), a),
        SeqExp::Prim(p, is, a) => SeqExpV::Prim(p, imms_view(is@), a),
        SeqExp::Let { var, bound_exp, body, ann } => SeqExpV::Let {
            var: var@,
            bound_exp: Box::new(seq_view(*bound_exp)),
            body: Box::new(seq_view(*body)),
            ann,
        },
        SeqExp::If { cond, thn, els, ann } => SeqExpV::If {
            cond: imm_view(cond),
            thn: Box::new(seq_view(*thn)),
            els: Box::new(seq_view(*els)),
            ann,
        },
        SeqExp::FunDefs { decls, body, ann } => SeqExpV::FunDefs {
            decls: seq_decls_view(decls@),
            body: Box::new(seq_view(*body)),
            ann,
        },
        SeqExp::InternalTailCall(f, args, a) => SeqExpV::InternalTailCall(f@, imms_view(args@), a),
        SeqExp::ExternalCall { fun_name, args, is_tail, ann } => SeqExpV::ExternalCall {
            fun_name: fun_name@,
            args: imms_view(args@),
            is_tail,
            ann,
        },
    }
}

pub open spec fn seq_decl_view<A>(d: FunDecl<SeqExp<A>, A>) -> DeclV<SeqExpV<A>, A>
    decreases d,
{
    DeclV { name: d.name@, parameters: names_view(d.parameters@), body: seq_view(d.body), ann: d.ann }
}

pub open spec fn seq_decls_view<A>(ds: Seq<FunDecl<SeqExp<A>, A>>) -> Seq<DeclV<SeqExpV<A>, A>>
    decreases ds,
{
    if ds.len() == 0 {
        Seq::empty()
    } else {
        seq_decls_view(ds.drop_last()).push(seq_decl_view(ds.last()))
    }
}

} // verus!

verus! {

pub broadcast proof fn lemma_boxed_exps_view<A>(s: Seq<Box<Exp<A>>>)
    ensures
        #[trigger] boxed_exps_view(s).len() == s.len(),
        forall|i: int| 0 <= i < s.len() ==> boxed_exps_view(s)[i] == exp_view(*s[i]),
    decreases s.len(),
{
    if s.len() > 0 {
        lemma_boxed_exps_view(s.drop_last());
    }
}

pub broadcast proof fn lemma_exps_view<A>(s: Seq<Exp<A>>)
    ensures
        #[trigger] exps_view(s).len() == s.len(),
        forall|i: int| 0 <= i < s.len() ==> exps_view(s)[i] == exp_view(s[i]),
    decreases s.len(),
{
    if s.len() > 0 {
        lemma_exps_view(s.drop_last());
    }
}

pub broadcast proof fn lemma_bindings_view<A>(s: Seq<(String, Exp<A>)>)
    ensures
        #[trigger] bindings_view(s).len() == s.len(),
        forall|i: int| 0 <= i < s.len() ==> bindings_view(s)[i] == (s[i].0@, exp_view(s[i].1)),
    decreases s.len(),
{
    if s.len() > 0 {
        lemma_bindings_view(s.drop_last());
    }
}

pub broadcast proof fn lemma_decls_view<A>(s: Seq<FunDecl<Exp<A>, A>>)
    ensures
        #[trigger] decls_view(s).len() == s.len(),
        forall|i: int| 0 <= i < s.len() ==> decls_view(s)[i] == decl_view(s[i]),
    decreases s.len(),
{
    if s.len() > 0 {
        lemma_decls_view(s.drop_last());
    }
}

pub broadcast proof fn lemma_seq_decls_view<A>(s: Seq<FunDecl<SeqExp<A>, A>>)
    ensures
        #[trigger] seq_decls_view(s).len() == s.len(),
        forall|i: int| 0 <= i < s.len() ==> seq_decls_view(s)[i] == seq_decl_view(s[i]),
    decreases s.len(),
{
    if s.len() > 0 {
        lemma_seq_decls_view(s.drop_last());
    }
}

pub broadcast group group_views {
    lemma_boxed_exps_view,
    lemma_exps_view,
    lemma_bindings_view,
    lemma_decls_view,
    lemma_seq_decls_view,
}

} // verus!

verus! {

/// A copy of an immediate.
pub fn copy_imm(i: &ImmExp) -> (res: ImmExp)
    ensures
        imm_view(res) == imm_view(*i),
{
    match i {
        ImmExp::Num(n) => ImmExp::Num(*n),
        ImmExp::Bool(b) => ImmExp::Bool(*b),
        ImmExp::Var(x) => ImmExp::Var(x.clone()),
        ImmExp::Float(f) => ImmExp::Float(*f),
    }
}

/// A copy of a list of immediates.
pub fn copy_imms(v: &Vec<ImmExp>) -> (res: Vec<ImmExp>)
    ensures
        imms_view(res@) == imms_view(v@),
{
    let mut res: Vec<ImmExp> = Vec::new();
    let mut i: usize = 0;
    while i < v.len()
        invariant
            i <= v.len(),
            res@.len() == i,
            imms_view(res@) =~= imms_view(v@).take(i as int),
        decreases v.len() - i,
    {
        let c = copy_imm(&v[i]);
        res.push(c);
        assert(imms_view(res@) =~= imms_view(v@).take(i + 1)) by {
            assert(imm_view(res@[i as int]) == imm_view(v@[i as int]));
        }
        i += 1;
    }
    assert(imms_view(v@).take(v.len() as int) =~= imms_view(v@));
    res
}

} // verus!

verus! {

impl DeepView for FunDecl<Exp<()>, ()> {
    type V = DeclV<ExpV<()>, ()>;

    open spec fn deep_view(&self) -> DeclV<ExpV<()>, ()> {
        decl_view(*self)
    }
}

/// A deep copy of an expression.
pub fn copy_exp<A: Copy>(e: &Exp<A>) -> (res: Exp<A>)
    ensures
        exp_view(res) == exp_view(*e),
    decreases e, 1nat,
{
    match e {
        Exp::Num(n, a) => Exp::Num(*n, *a),
        Exp::Bool(b, a) => Exp::Bool(*b, *a),
        Exp::Float(f, a) => Exp::Float(*f, *a),
        Exp::Var(x, a) => Exp::Var(x.clone(), *a),
        Exp::Prim(p, es, a) => Exp::Prim(*p, copy_boxed_exps(es), *a),
        Exp::Let { bindings, body, ann } => Exp::Let {
            bindings: copy_bindings(bindings),
            body: Box::new(copy_exp(body)),
            ann: *ann,
        },
        Exp::If { cond, thn, els, ann } => Exp::If {
            cond: Box::new(copy_exp(cond)),
            thn: Box::new(copy_exp(thn)),
            els: Box::new(copy_exp(els)),
            ann: *ann,
        },
        Exp::FunDefs { decls, body, ann } => Exp::FunDefs {
            decls: copy_decls(decls),
            body: Box::new(copy_exp(body)),
            ann: *ann,
        },
        Exp::Call(f, args, a) => Exp::Call(f.clone(), copy_exps(args), *a),
        Exp::InternalTailCall(f, args, a) => Exp::InternalTailCall(f.clone(), copy_exps(args), *a),
        Exp::ExternalCall { fun_name, args, is_tail, ann } => Exp::ExternalCall {
            fun_name: fun_name.clone(),
            args: copy_exps(args),
            is_tail: *is_tail,
            ann: *ann,
        },
    }
}

pub fn copy_boxed_exps<A: Copy>(es: &Vec<Box<Exp<A>>>) -> (res: Vec<Box<Exp<A>>>)
    ensures
        boxed_exps_view(res@) == boxed_exps_view(es@),
    decreases es, 0nat,
{
    let mut out: Vec<Box<Exp<A>>> = Vec::new();
    let mut i: usize = 0;
    while i < es.len()
        invariant
            i <= es.len(),
            boxed_exps_view(out@) == boxed_exps_view(es@.take(i as int)),
        decreases es.len() - i,
    {
        let x = copy_exp(&es[i]);
        let ghost prev = out@;
        out.push(Box::new(x));
        assert(out@.drop_last() =~= prev);
        assert(es@.take(i + 1).drop_last() =~= es@.take(i as int));
        i += 1;
    }
    assert(es@.take(es.len() as int) =~= es@);
    out
}

pub fn copy_exps<A: Copy>(es: &Vec<Exp<A>>) -> (res: Vec<Exp<A>>)
    ensures
        exps_view(res@) == exps_view(es@),
    decreases es, 0nat,
{
    let mut out: Vec<Exp<A>> = Vec::new();
    let mut i: usize = 0;
    while i < es.len()
        invariant
            i <= es.len(),
            exps_view(out@) == exps_view(es@.take(i as int)),
        decreases es.len() - i,
    {
        let x = copy_exp(&es[i]);
        let ghost prev = out@;
        out.push(x);
        assert(out@.drop_last() =~= prev);
        assert(es@.take(i + 1).drop_last() =~= es@.take(i as int));
        i += 1;
    }
    assert(es@.take(es.len() as int) =~= es@);
    out
}

pub fn copy_bindings<A: Copy>(bs: &Vec<(String, Exp<A>)>) -> (res: Vec<(String, Exp<A>)>)
    ensures
        bindings_view(res@) == bindings_view(bs@),
    decreases bs, 0nat,
{
    let mut out: Vec<(String, Exp<A>)> = Vec::new();
    let mut i: usize = 0;
    while i < bs.len()
        invariant
            i <= bs.len(),
            bindings_view(out@) == bindings_view(bs@.take(i as int)),
        decreases bs.len() - i,
    {
        let x = copy_exp(&bs[i].1);
        let ghost prev = out@;
        out.push((bs[i].0.clone(), x));
        assert(out@.drop_last() =~= prev);
        assert(bs@.take(i + 1).drop_last() =~= bs@.take(i as int));
        i += 1;
    }
    assert(bs@.take(bs.len() as int) =~= bs@);
    out
}

pub fn copy_decl<A: Copy>(d: &FunDecl<Exp<A>, A>) -> (res: FunDecl<Exp<A>, A>)
    ensures
        decl_view(res) == decl_view(*d),
    decreases d, 0nat,
{
    FunDecl {
        name: d.name.clone(),
        parameters: crate::names::copy_names(&d.parameters),
        body: copy_exp(&d.body),
        ann: d.ann,
    }
}

pub fn copy_decls<A: Copy>(ds: &Vec<FunDecl<Exp<A>, A>>) -> (res: Vec<FunDecl<Exp<A>, A>>)
    ensures
        decls_view(res@) == decls_view(ds@),
    decreases ds, 0nat,
{
    let mut out: Vec<FunDecl<Exp<A>, A>> = Vec::new();
    let mut i: usize = 0;
    while i < ds.len()
        invariant
            i <= ds.len(),
            decls_view(out@) == decls_view(ds@.take(i as int)),
        decreases ds.len() - i,
    {
        let x = copy_decl(&ds[i]);
        let ghost prev = out@;
        out.push(x);
        assert(out@.drop_last() =~= prev);
        assert(ds@.take(i + 1).drop_last() =~= ds@.take(i as int));
        i += 1;
    }
    assert(ds@.take(ds.len() as int) =~= ds@);
    out
}

} // verus!
