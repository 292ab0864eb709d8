use vstd::prelude::*;

use crate::text::{int_text, nat_text, push_int, push_nat, push_str};

verus! {

/// x86-64 registers (and the 16-bit `ax`, read by `fstsw`).
#[derive(Clone, Copy, Debug, PartialEq, Eq, Structural)]
pub enum Reg {
    Rax,
    Rbx,
    Rcx,
    Rdx,
    Rsi,
    Rdi,
    Rsp,
    Rbp,
    R8,
    R9,
    R10,
    R11,
    R12,
    R13,
    R14,
    R15,
    Ax,
}

/// A memory operand `[reg + offset]`.
#[derive(Clone, Copy, Debug, PartialEq, Eq, Structural)]
pub struct MemRef {
    pub reg: Reg,
    pub offset: i32,
}

#[derive(Clone, Copy, Debug, PartialEq, Eq, Structural)]
pub enum Arg64 {
    Reg(Reg),
    Signed(i64),
    Unsigned(u64),
    Mem(MemRef),
}

#[derive(Clone, Copy, Debug, PartialEq, Eq, Structural)]
pub enum Arg32 {
    Reg(Reg),
    Signed(i32),
    Unsigned(u32),
    Mem(MemRef),
}

#[derive(Clone, Copy, Debug, PartialEq, Eq, Structural)]
pub enum Reg32 {
    Reg(Reg),
    Signed(i32),
    Unsigned(u32),
}

#[derive(Clone, Copy, Debug, PartialEq, Eq, Structural)]
pub enum MovArgs {
    ToReg(Reg, Arg64),
    ToMem(MemRef, Reg32),
}

#[derive(Clone, Copy, Debug, PartialEq, Eq, Structural)]
pub enum BinArgs {
    ToReg(Reg, Arg32),
    ToMem(MemRef, Reg32),
}

/// Operand of an x87 instruction that takes an optional register.
#[derive(Clone, Copy, Debug, PartialEq, Eq, Structural)]
pub enum FloatArg {
    Blank,
    Reg(Reg),
}

/// Memory operand of an x87 load or store.
#[derive(Clone, Copy, Debug, PartialEq, Eq, Structural)]
pub enum FloatMem {
    RegMem(MemRef),
}

/// Instructions, with labels of type `S` (a `String` in code, a character
/// sequence in specifications).
#[derive(Debug, PartialEq, Eq)]
pub enum Instruction<S> {
    Mov(MovArgs),
    Add(BinArgs),
    Sub(BinArgs),
    IMul(BinArgs),
    And(BinArgs),
    Or(BinArgs),
    Xor(BinArgs),
    Shr(BinArgs),
    Sar(BinArgs),
    Shl(BinArgs),
    Cmp(BinArgs),
    Label(S),
    Call(S),
    Ret,
    Jmp(S),
    Je(S),
    Jne(S),
    Jl(S),
    Jle(S),
    Jg(S),
    Jge(S),
    Jz(S),
    Jo(S),
    Fld1,
    Faddp(FloatArg),
    Fsubp(FloatArg),
    Fmulp(FloatArg),
    Fdivp(FloatArg),
    Fcos,
    Fsqrt,
    Fld(FloatMem),
    Fild(FloatMem),
    Fstp(FloatMem),
    Fistp(FloatMem),
    Fcompp(FloatArg),
    Fcomp(FloatArg),
    Fcom(FloatArg),
    Fstsw(FloatArg),
}

pub type Instr = Instruction<String>;

pub type InstrV = Instruction<Seq<char>>;

pub open spec fn instr_view(i: Instr) -> InstrV {
    match i {
        Instruction::Mov(a) => Instruction::Mov(a),
        Instruction::Add(a) => Instruction::Add(a),
        Instruction::Sub(a) => Instruction::Sub(a),
        Instruction::IMul(a) => Instruction::IMul(a),
        Instruction::And(a) => Instruction::And(a),
        Instruction::Or(a) => Instruction::Or(a),
        Instruction::Xor(a) => Instruction::Xor(a),
        Instruction::Shr(a) => Instruction::Shr(a),
        Instruction::Sar(a) => Instruction::Sar(a),
        Instruction::Shl(a) => Instruction::Shl(a),
        Instruction::Cmp(a) => Instruction::Cmp(a),
        Instruction::Label(s) => Instruction::Label(s@),
        Instruction::Call(s) => Instruction::Call(s@),
        Instruction::Ret => Instruction::Ret,
        Instruction::Jmp(s) => Instruction::Jmp(s@),
        Instruction::Je(s) => Instruction::Je(s@),
        Instruction::Jne(s) => Instruction::Jne(s@),
        Instruction::Jl(s) => Instruction::Jl(s@),
        Instruction::Jle(s) => Instruction::Jle(s@),
        Instruction::Jg(s) => Instruction::Jg(s@),
        Instruction::Jge(s) => Instruction::Jge(s@),
        Instruction::Jz(s) => Instruction::Jz(s@),
        Instruction::Jo(s) => Instruction::Jo(s@),
        Instruction::Fld1 => Instruction::Fld1,
        Instruction::Faddp(a) => Instruction::Faddp(a),
        Instruction::Fsubp(a) => Instruction::Fsubp(a),
        Instruction::Fmulp(a) => Instruction::Fmulp(a),
        Instruction::Fdivp(a) => Instruction::Fdivp(a),
        Instruction::Fcos => Instruction::Fcos,
        Instruction::Fsqrt => Instruction::Fsqrt,
        Instruction::Fld(m) => Instruction::Fld(m),
        Instruction::Fild(m) => Instruction::Fild(m),
        Instruction::Fstp(m) => Instruction::Fstp(m),
        Instruction::Fistp(m) => Instruction::Fistp(m),
        Instruction::Fcompp(a) => Instruction::Fcompp(a),
        Instruction::Fcomp(a) => Instruction::Fcomp(a),
        Instruction::Fcom(a) => Instruction::Fcom(a),
        Instruction::Fstsw(a) => Instruction::Fstsw(a),
    }
}

pub open spec fn instrs_view(v: Seq<Instr>) -> Seq<InstrV> {
    v.map_values(|i: Instr| instr_view(i))
}

// ---------------------------------------------------------------------------
// Textual (NASM) form
// ---------------------------------------------------------------------------

pub open spec fn reg_text(r: Reg) -> Seq<char> {
    match r {
        Reg::Rax => "rax"@,
        Reg::Rbx => "rbx"@,
        Reg::Rcx => "rcx"@,
        Reg::Rdx => "rdx"@,
        Reg::Rsi => "rsi"@,
        Reg::Rdi => "rdi"@,
        Reg::Rsp => "rsp"@,
        Reg::Rbp => "rbp"@,
        Reg::R8 => "r8"@,
        Reg::R9 => "r9"@,
        Reg::R10 => "r10"@,
        Reg::R11 => "r11"@,
        Reg::R12 => "r12"@,
        Reg::R13 => "r13"@,
        Reg::R14 => "r14"@,
        Reg::R15 => "r15"@,
        Reg::Ax => "ax"@,
    }
}

pub open spec fn mem_text(m: MemRef) -> Seq<char> {
    "QWORD ["@ + reg_text(m.reg) + " + "@ + int_text(m.offset as int) + "]"@
}

pub open spec fn arg64_text(a: Arg64) -> Seq<char> {
    match a {
        Arg64::Reg(r) => reg_text(r),
        Arg64::Signed(n) => int_text(n as int),
        Arg64::Unsigned(n) => nat_text(n as nat),
        Arg64::Mem(m) => mem_text(m),
    }
}

pub open spec fn arg32_text(a: Arg32) -> Seq<char> {
    match a {
        Arg32::Reg(r) => reg_text(r),
        Arg32::Signed(n) => int_text(n as int),
        Arg32::Unsigned(n) => nat_text(n as nat),
        Arg32::Mem(m) => mem_text(m),
    }
}

pub open spec fn reg32_text(a: Reg32) -> Seq<char> {
    match a {
        Reg32::Reg(r) => reg_text(r),
        Reg32::Signed(n) => int_text(n as int),
        Reg32::Unsigned(n) => nat_text(n as nat),
    }
}

pub open spec fn mov_args_text(a: MovArgs) -> Seq<char> {
    match a {
        MovArgs::ToReg(r, x) => reg_text(r) + ", "@ + arg64_text(x),
        MovArgs::ToMem(m, x) => mem_text(m) + ", "@ + reg32_text(x),
    }
}

pub open spec fn bin_args_text(a: BinArgs) -> Seq<char> {
    match a {
        BinArgs::ToReg(r, x) => reg_text(r) + ", "@ + arg32_text(x),
        BinArgs::ToMem(m, x) => mem_text(m) + ", "@ + reg32_text(x),
    }
}

pub open spec fn float_arg_text(a: FloatArg) -> Seq<char> {
    match a {
        FloatArg::Blank => Seq::empty(),
        FloatArg::Reg(r) => " "@ + reg_text(r),
    }
}

pub open spec fn float_mem_text(m: FloatMem) -> Seq<char> {
    match m {
        FloatMem::RegMem(r) => " "@ + mem_text(r),
    }
}

/// One line of assembly, without its line break.
pub open spec fn instr_text(i: InstrV) -> Seq<char> {
    match i {
        Instruction::Mov(a) => "        mov "@ + mov_args_text(a),
        Instruction::Add(a) => "        add "@ + bin_args_text(a),
        Instruction::Sub(a) => "        sub "@ + bin_args_text(a),
        Instruction::IMul(a) => "        imul "@ + bin_args_text(a),
        Instruction::And(a) => "        and "@ + bin_args_text(a),
        Instruction::Or(a) => "        or "@ + bin_args_text(a),
        Instruction::Xor(a) => "        xor "@ + bin_args_text(a),
        Instruction::Shr(a) => "        shr "@ + bin_args_text(a),
        Instruction::Sar(a) => "        sar "@ + bin_args_text(a),
        Instruction::Shl(a) => "        shl "@ + bin_args_text(a),
        Instruction::Cmp(a) => "        cmp "@ + bin_args_text(a),
        Instruction::Label(s) => s + ":"@,
        Instruction::Call(s) => "        call "@ + s,
        Instruction::Ret => "        ret"@,
        Instruction::Jmp(s) => "        jmp "@ + s,
        Instruction::Je(s) => "        je "@ + s,
        Instruction::Jne(s) => "        jne "@ + s,
        Instruction::Jl(s) => "        jl "@ + s,
        Instruction::Jle(s) => "        jle "@ + s,
        Instruction::Jg(s) => "        jg "@ + s,
        Instruction::Jge(s) => "        jge "@ + s,
        Instruction::Jz(s) => "        jz "@ + s,
        Instruction::Jo(s) => "        jo "@ + s,
        Instruction::Fld1 => "        fld1"@,
        Instruction::Faddp(a) => "        faddp"@ + float_arg_text(a),
        Instruction::Fsubp(a) => "        fsubp"@ + float_arg_text(a),
        Instruction::Fmulp(a) => "        fmulp"@ + float_arg_text(a),
        Instruction::Fdivp(a) => "        fdivp"@ + float_arg_text(a),
        Instruction::Fcos => "        fcos"@,
        Instruction::Fsqrt => "        fsqrt"@,
        Instruction::Fld(m) => "        fld"@ + float_mem_text(m),
        Instruction::Fild(m) => "        fild"@ + float_mem_text(m),
        Instruction::Fstp(m) => "        fstp"@ + float_mem_text(m),
        Instruction::Fistp(m) => "        fistp"@ + float_mem_text(m),
        Instruction::Fcompp(a) => "        fcompp"@ + float_arg_text(a),
        Instruction::Fcomp(a) => "        fcomp"@ + float_arg_text(a),
        Instruction::Fcom(a) => "        fcom"@ + float_arg_text(a),
        Instruction::Fstsw(a) => "        fstsw"@ + float_arg_text(a),
    }
}

/// The text of a list of instructions, one per line.
pub open spec fn instrs_text(is: Seq<InstrV>) -> Seq<char>
    decreases is.len(),
{
    if is.len() == 0 {
        Seq::empty()
    } else {
        instrs_text(is.drop_last()) + instr_text(is.last()) + "\n"@
    }
}

fn push_reg(s: &mut String, r: Reg)
    ensures
        final(s)@ == old(s)@ + reg_text(r),
{
    let t = match r {
        Reg::Rax => "rax",
        Reg::Rbx => "rbx",
        Reg::Rcx => "rcx",
        Reg::Rdx => "rdx",
        Reg::Rsi => "rsi",
        Reg::Rdi => "rdi",
        Reg::Rsp => "rsp",
        Reg::Rbp => "rbp",
        Reg::R8 => "r8",
        Reg::R9 => "r9",
        Reg::R10 => "r10",
        Reg::R11 => "r11",
        Reg::R12 => "r12",
        Reg::R13 => "r13",
        Reg::R14 => "r14",
        Reg::R15 => "r15",
        Reg::Ax => "ax",
    };
    push_str(s, t);
}

fn push_mem(s: &mut String, m: MemRef)
    ensures
        final(s)@ == old(s)@ + mem_text(m),
{
    push_str(s, "QWORD [");
    push_reg(s, m.reg);
    push_str(s, " + ");
    push_int(s, m.offset as i64);
    push_str(s, "]");
    assert(final(s)@ =~= old(s)@ + mem_text(m));
}

fn push_arg64(s: &mut String, a: Arg64)
    ensures
        final(s)@ == old(s)@ + arg64_text(a),
{
    match a {
        Arg64::Reg(r) => push_reg(s, r),
        Arg64::Signed(n) => push_int(s, n),
        Arg64::Unsigned(n) => push_nat(s, n),
        Arg64::Mem(m) => push_mem(s, m),
    }
}

fn push_arg32(s: &mut String, a: Arg32)
    ensures
        final(s)@ == old(s)@ + arg32_text(a),
{
    match a {
        Arg32::Reg(r) => push_reg(s, r),
        Arg32::Signed(n) => push_int(s, n as i64),
        Arg32::Unsigned(n) => push_nat(s, n as u64),
        Arg32::Mem(m) => push_mem(s, m),
    }
}

fn push_reg32(s: &mut String, a: Reg32)
    ensures
        final(s)@ == old(s)@ + reg32_text(a),
{
    match a {
        Reg32::Reg(r) => push_reg(s, r),
        Reg32::Signed(n) => push_int(s, n as i64),
        Reg32::Unsigned(n) => push_nat(s, n as u64),
    }
}

fn push_mov_args(s: &mut String, a: MovArgs)
    ensures
        final(s)@ == old(s)@ + mov_args_text(a),
{
    match a {
        MovArgs::ToReg(r, x) => {
            push_reg(s, r);
            push_str(s, ", ");
            push_arg64(s, x);
        },
        MovArgs::ToMem(m, x) => {
            push_mem(s, m);
            push_str(s, ", ");
            push_reg32(s, x);
        },
    }
    assert(final(s)@ =~= old(s)@ + mov_args_text(a));
}

fn push_bin_args(s: &mut String, a: BinArgs)
    ensures
        final(s)@ == old(s)@ + bin_args_text(a),
{
    match a {
        BinArgs::ToReg(r, x) => {
            push_reg(s, r);
            push_str(s, ", ");
            push_arg32(s, x);
        },
        BinArgs::ToMem(m, x) => {
            push_mem(s, m);
            push_str(s, ", ");
            push_reg32(s, x);
        },
    }
    assert(final(s)@ =~= old(s)@ + bin_args_text(a));
}

fn push_float_arg(s: &mut String, a: FloatArg)
    ensures
        final(s)@ == old(s)@ + float_arg_text(a),
{
    match a {
        FloatArg::Blank => {
            assert(old(s)@ + float_arg_text(a) =~= old(s)@);
        },
        FloatArg::Reg(r) => {
            push_str(s, " ");
            push_reg(s, r);
            assert(final(s)@ =~= old(s)@ + float_arg_text(a));
        },
    }
}

fn push_float_mem(s: &mut String, m: FloatMem)
    ensures
        final(s)@ == old(s)@ + float_mem_text(m),
{
    match m {
        FloatMem::RegMem(r) => {
            push_str(s, " ");
            push_mem(s, r);
            assert(final(s)@ =~= old(s)@ + float_mem_text(m));
        },
    }
}

fn push_op_bin(s: &mut String, op: &str, a: BinArgs)
    ensures
        final(s)@ == old(s)@ + op@ + bin_args_text(a),
{
    push_str(s, op);
    push_bin_args(s, a);
    assert(final(s)@ =~= old(s)@ + op@ + bin_args_text(a));
}

fn push_op_label(s: &mut String, op: &str, l: &String)
    ensures
        final(s)@ == old(s)@ + op@ + l@,
{
    push_str(s, op);
    push_str(s, l.as_str());
    assert(final(s)@ =~= old(s)@ + op@ + l@);
}

fn push_op_float(s: &mut String, op: &str, a: FloatArg)
    ensures
        final(s)@ == old(s)@ + op@ + float_arg_text(a),
{
    push_str(s, op);
    push_float_arg(s, a);
    assert(final(s)@ =~= old(s)@ + op@ + float_arg_text(a));
}

fn push_op_mem(s: &mut String, op: &str, m: FloatMem)
    ensures
        final(s)@ == old(s)@ + op@ + float_mem_text(m),
{
    push_str(s, op);
    push_float_mem(s, m);
    assert(final(s)@ =~= old(s)@ + op@ + float_mem_text(m));
}

/// Appends the text of one instruction (without a line break).
pub fn push_instr(s: &mut String, i: &Instr)
    ensures
        final(s)@ == old(s)@ + instr_text(instr_view(*i)),
{
    match i {
        Instruction::Mov(a) => {
            push_str(s, "        mov ");
            push_mov_args(s, *a);
            assert(final(s)@ =~= old(s)@ + instr_text(instr_view(*i)));
        },
        Instruction::Add(a) => push_op_bin(s, "        add ", *a),
        Instruction::Sub(a) => push_op_bin(s, "        sub ", *a),
        Instruction::IMul(a) => push_op_bin(s, "        imul ", *a),
        Instruction::And(a) => push_op_bin(s, "        and ", *a),
        Instruction::Or(a) => push_op_bin(s, "        or ", *a),
        Instruction::Xor(a) => push_op_bin(s, "        xor ", *a),
        Instruction::Shr(a) => push_op_bin(s, "        shr ", *a),
        Instruction::Sar(a) => push_op_bin(s, "        sar ", *a),
        Instruction::Shl(a) => push_op_bin(s, "        shl ", *a),
        Instruction::Cmp(a) => push_op_bin(s, "        cmp ", *a),
        Instruction::Label(l) => {
            push_str(s, l.as_str());
            push_str(s, ":");
            assert(final(s)@ =~= old(s)@ + instr_text(instr_view(*i)));
        },
        Instruction::Call(l) => push_op_label(s, "        call ", l),
        Instruction::Ret => push_str(s, "        ret"),
        Instruction::Jmp(l) => push_op_label(s, "        jmp ", l),
        Instruction::Je(l) => push_op_label(s, "        je ", l),
        Instruction::Jne(l) => push_op_label(s, "        jne ", l),
        Instruction::Jl(l) => push_op_label(s, "        jl ", l),
        Instruction::Jle(l) => push_op_label(s, "        jle ", l),
        Instruction::Jg(l) => push_op_label(s, "        jg ", l),
        Instruction::Jge(l) => push_op_label(s, "        jge ", l),
        Instruction::Jz(l) => push_op_label(s, "        jz ", l),
        Instruction::Jo(l) => push_op_label(s, "        jo ", l),
        Instruction::Fld1 => push_str(s, "        fld1"),
        Instruction::Faddp(a) => push_op_float(s, "        faddp", *a),
        Instruction::Fsubp(a) => push_op_float(s, "        fsubp", *a),
        Instruction::Fmulp(a) => push_op_float(s, "        fmulp", *a),
        Instruction::Fdivp(a) => push_op_float(s, "        fdivp", *a),
        Instruction::Fcos => push_str(s, "        fcos"),
        Instruction::Fsqrt => push_str(s, "        fsqrt"),
        Instruction::Fld(m) => push_op_mem(s, "        fld", *m),
        Instruction::Fild(m) => push_op_mem(s, "        fild", *m),
        Instruction::Fstp(m) => push_op_mem(s, "        fstp", *m),
        Instruction::Fistp(m) => push_op_mem(s, "        fistp", *m),
        Instruction::Fcompp(a) => push_op_float(s, "        fcompp", *a),
        Instruction::Fcomp(a) => push_op_float(s, "        fcomp", *a),
        Instruction::Fcom(a) => push_op_float(s, "        fcom", *a),
        Instruction::Fstsw(a) => push_op_float(s, "        fstsw", *a),
    }
}

/// The assembly text of a list of instructions, one instruction per line.
pub fn instrs_to_string(is: &[Instr]) -> (res: String)
    ensures
        res@ == instrs_text(instrs_view(is@)),
{
    let mut s = String::new();
    let mut k: usize = 0;
    while k < is.len()
        invariant
            k <= is@.len(),
            s@ == instrs_text(instrs_view(is@.take(k as int))),
        decreases is@.len() - k,
    {
        push_instr(&mut s, &is[k]);
        push_str(&mut s, "\n");
        proof {
            let t = instrs_view(is@.take(k + 1));
            assert(t.drop_last() =~= instrs_view(is@.take(k as int)));
            assert(t.last() == instr_view(is@[k as int]));
        }
        k += 1;
    }
    assert(is@.take(is@.len() as int) =~= is@);
    s
}

} // verus!

verus! {

/// A copy of an instruction.
pub fn copy_instr(i: &Instr) -> (res: Instr)
    ensures
        instr_view(res) == instr_view(*i),
{
    match i {
        Instruction::Mov(a) => Instruction::Mov(*a),
        Instruction::Add(a) => Instruction::Add(*a),
        Instruction::Sub(a) => Instruction::Sub(*a),
        Instruction::IMul(a) => Instruction::IMul(*a),
        Instruction::And(a) => Instruction::And(*a),
        Instruction::Or(a) => Instruction::Or(*a),
        Instruction::Xor(a) => Instruction::Xor(*a),
        Instruction::Shr(a) => Instruction::Shr(*a),
        Instruction::Sar(a) => Instruction::Sar(*a),
        Instruction::Shl(a) => Instruction::Shl(*a),
        Instruction::Cmp(a) => Instruction::Cmp(*a),
        Instruction::Faddp(a) => Instruction::Faddp(*a),
        Instruction::Fsubp(a) => Instruction::Fsubp(*a),
        Instruction::Fmulp(a) => Instruction::Fmulp(*a),
        Instruction::Fdivp(a) => Instruction::Fdivp(*a),
        Instruction::Fld(a) => Instruction::Fld(*a),
        Instruction::Fild(a) => Instruction::Fild(*a),
        Instruction::Fstp(a) => Instruction::Fstp(*a),
        Instruction::Fistp(a) => Instruction::Fistp(*a),
        Instruction::Fcompp(a) => Instruction::Fcompp(*a),
        Instruction::Fcomp(a) => Instruction::Fcomp(*a),
        Instruction::Fcom(a) => Instruction::Fcom(*a),
        Instruction::Fstsw(a) => Instruction::Fstsw(*a),
        Instruction::Label(s) => Instruction::Label(s.clone()),
        Instruction::Call(s) => Instruction::Call(s.clone()),
        Instruction::Jmp(s) => Instruction::Jmp(s.clone()),
        Instruction::Je(s) => Instruction::Je(s.clone()),
        Instruction::Jne(s) => Instruction::Jne(s.clone()),
        Instruction::Jl(s) => Instruction::Jl(s.clone()),
        Instruction::Jle(s) => Instruction::Jle(s.clone()),
        Instruction::Jg(s) => Instruction::Jg(s.clone()),
        Instruction::Jge(s) => Instruction::Jge(s.clone()),
        Instruction::Jz(s) => Instruction::Jz(s.clone()),
        Instruction::Jo(s) => Instruction::Jo(s.clone()),
        Instruction::Ret => Instruction::Ret,
        Instruction::Fld1 => Instruction::Fld1,
        Instruction::Fcos => Instruction::Fcos,
        Instruction::Fsqrt => Instruction::Fsqrt,
    }
}

/// A copy of a list of instructions.
pub fn copy_instrs(v: &Vec<Instr>) -> (res: Vec<Instr>)
    ensures
        instrs_view(res@) == instrs_view(v@),
{
    let mut res: Vec<Instr> = Vec::new();
    let mut k: usize = 0;
    while k < v.len()
        invariant
            k <= v.len(),
            res@.len() == k,
            instrs_view(res@) =~= instrs_view(v@).take(k as int),
        decreases v.len() - k,
    {
        let c = copy_instr(&v[k]);
        res.push(c);
        assert(instrs_view(res@) =~= instrs_view(v@).take(k + 1)) by {
            assert(instr_view(res@[k as int]) == instr_view(v@[k as int]));
        }
        k += 1;
    }
    assert(instrs_view(v@).take(v.len() as int) =~= instrs_view(v@));
    res
}

/// Appends one instruction.
pub fn emit(v: &mut Vec<Instr>, i: Instr)
    ensures
        instrs_view(final(v)@) == instrs_view(old(v)@).push(instr_view(i)),
{
    let ghost iv = instr_view(i);
    v.push(i);
    assert(instrs_view(v@) =~= instrs_view(old(v)@).push(iv));
}

/// Appends a list of instructions.
pub fn emit_all(v: &mut Vec<Instr>, w: Vec<Instr>)
    ensures
        instrs_view(final(v)@) == instrs_view(old(v)@) + instrs_view(w@),
{
    let mut w = w;
    let ghost wv = instrs_view(w@);
    v.append(&mut w);
    assert(instrs_view(v@) =~= instrs_view(old(v)@) + wv);
}

} // verus!
