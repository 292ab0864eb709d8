//! What the emitted comparisons and jumps mean, stated against the x86
//! reading of the instructions and of their assembly text.
use vstd::prelude::*;

use crate::assembly::{
    Arg32, Arg64, BinArgs, FloatArg, FloatMem, InstrV, Instruction, Reg, bin_args_text, float_arg_text, float_mem_text,
    instr_text, mov_args_text,
};
use crate::compile_with_env::{SNAKE_FALSE, SNAKE_TRUE, comp_op_v, comparison_result, is_comp, jump_target, lbl, comparison_stem, movr};
use crate::syntax::Prim;

verus! {

/// Whether a jump is taken after `cmp a, b` on signed values, as the
/// processor decides it.
pub open spec fn jump_taken(i: InstrV, a: int, b: int) -> bool {
    match i {
        Instruction::Jmp(_) => true,
        Instruction::Je(_) => a == b,
        Instruction::Jz(_) => a == b,
        Instruction::Jne(_) => a != b,
        Instruction::Jl(_) => a < b,
        Instruction::Jle(_) => a <= b,
        Instruction::Jg(_) => a > b,
        Instruction::Jge(_) => a >= b,
        _ => false,
    }
}

/// The assembler's reading of a jump mnemonic after `cmp a, b`.
pub open spec fn mnemonic_taken(m: Seq<char>, a: int, b: int) -> bool {
    if m == "jmp"@ {
        true
    } else if m == "je"@ || m == "jz"@ {
        a == b
    } else if m == "jne"@ {
        a != b
    } else if m == "jl"@ {
        a < b
    } else if m == "jle"@ {
        a <= b
    } else if m == "jg"@ {
        a > b
    } else if m == "jge"@ {
        a >= b
    } else {
        false
    }
}

/// The meaning of a comparison operator of the source language on numbers.
pub open spec fn compares(op: Prim, a: int, b: int) -> bool {
    match op {
        Prim::Lt => a < b,
        Prim::Gt => a > b,
        Prim::Le => a <= b,
        Prim::Ge => a >= b,
        Prim::Eq => a == b,
        _ => a != b,
    }
}

/// On two numbers (first in `rax`, second in `r8`), the code of a
/// comparison compares them, sets `rax` to true, jumps past the reset to
/// false exactly when the operator holds of the two values, and otherwise
/// sets `rax` to false.
pub proof fn lemma_int_comparison_code(op: Prim, ann: u32, off: i32, a: int, b: int)
    requires
        is_comp(op),
    ensures
        ({
            let c = comp_op_v(op, ann, off);
            &&& c[8] == Instruction::<Seq<char>>::Cmp(BinArgs::ToReg(Reg::Rax, Arg32::Reg(Reg::R8)))
            &&& c[9] == movr(Reg::Rax, Arg64::Unsigned(SNAKE_TRUE))
            &&& jump_target(c[10]) == Some(lbl(comparison_stem(op), ann))
            &&& c[11] == movr(Reg::Rax, Arg64::Unsigned(SNAKE_FALSE))
            &&& c[12] == Instruction::<Seq<char>>::Label(lbl(comparison_stem(op), ann))
            &&& (jump_taken(c[10], a, b) <==> compares(op, a, b))
        }),
{
}

/// What the x87 comparison of the second operand `b` (top of the stack)
/// with the first `a` finds: `b` larger (0), smaller (1) or equal (2).
pub open spec fn float_outcome(a: int, b: int) -> int {
    if b > a { 0 } else if b < a { 1 } else { 2 }
}

/// On floats, a comparison yields true exactly when the operator holds of
/// the two values, except that `<=` and `>=` on equal values yield false;
/// it always yields a boolean.
pub proof fn lemma_float_comparison_result(op: Prim, a: int, b: int)
    requires
        is_comp(op),
    ensures
        comparison_result(op, float_outcome(a, b)) == SNAKE_TRUE || comparison_result(op, float_outcome(a, b)) == SNAKE_FALSE,
        !((op is Le || op is Ge) && a == b) ==> (comparison_result(op, float_outcome(a, b)) == SNAKE_TRUE <==> compares(op, a, b)),
        (op is Le || op is Ge) && a == b ==> comparison_result(op, float_outcome(a, b)) == SNAKE_FALSE,
{
    assert(SNAKE_TRUE != SNAKE_FALSE);
}

proof fn lemma_mnemonics()
    ensures
        "jmp"@ =~= seq!['j', 'm', 'p'],
        "je"@ =~= seq!['j', 'e'],
        "jz"@ =~= seq!['j', 'z'],
        "jne"@ =~= seq!['j', 'n', 'e'],
        "jl"@ =~= seq!['j', 'l'],
        "jle"@ =~= seq!['j', 'l', 'e'],
        "jg"@ =~= seq!['j', 'g'],
        "jge"@ =~= seq!['j', 'g', 'e'],
        "jo"@ =~= seq!['j', 'o'],
{
    reveal_strlit("jmp");
    reveal_strlit("je");
    reveal_strlit("jz");
    reveal_strlit("jne");
    reveal_strlit("jl");
    reveal_strlit("jle");
    reveal_strlit("jg");
    reveal_strlit("jge");
    reveal_strlit("jo");
}

/// The assembly text of a jump is an indented mnemonic, a space and the
/// target, and the assembler's reading of that mnemonic is the jump itself.
pub proof fn lemma_jump_text(i: InstrV, a: int, b: int)
    requires
        jump_target(i) is Some,
        !(i is Jo),
    ensures
        exists|m: Seq<char>| #![trigger mnemonic_taken(m, a, b)]
            instr_text(i) == "        "@ + m + " "@ + jump_target(i)->0 && (mnemonic_taken(m, a, b) <==> jump_taken(i, a, b)),
{
    lemma_mnemonics();
    reveal_strlit("        ");
    reveal_strlit(" ");
    reveal_strlit("        jmp ");
    reveal_strlit("        je ");
    reveal_strlit("        jz ");
    reveal_strlit("        jne ");
    reveal_strlit("        jl ");
    reveal_strlit("        jle ");
    reveal_strlit("        jg ");
    reveal_strlit("        jge ");
    let l = jump_target(i)->0;
    let m: Seq<char> = match i {
        Instruction::Jmp(_) => "jmp"@,
        Instruction::Je(_) => "je"@,
        Instruction::Jz(_) => "jz"@,
        Instruction::Jne(_) => "jne"@,
        Instruction::Jl(_) => "jl"@,
        Instruction::Jle(_) => "jle"@,
        Instruction::Jg(_) => "jg"@,
        _ => "jge"@,
    };
    assert(instr_text(i) =~= "        "@ + m + " "@ + l);
    assert(mnemonic_taken(m, a, b) <==> jump_taken(i, a, b));
}

} // verus!

verus! {

/// The x86 mnemonic of each instruction.
pub open spec fn x86_mnemonic(i: InstrV) -> Seq<char> {
    match i {
        Instruction::Mov(_) => "mov"@,
        Instruction::Add(_) => "add"@,
        Instruction::Sub(_) => "sub"@,
        Instruction::IMul(_) => "imul"@,
        Instruction::And(_) => "and"@,
        Instruction::Or(_) => "or"@,
        Instruction::Xor(_) => "xor"@,
        Instruction::Shr(_) => "shr"@,
        Instruction::Sar(_) => "sar"@,
        Instruction::Shl(_) => "shl"@,
        Instruction::Cmp(_) => "cmp"@,
        Instruction::Call(_) => "call"@,
        Instruction::Ret => "ret"@,
        Instruction::Jmp(_) => "jmp"@,
        Instruction::Je(_) => "je"@,
        Instruction::Jne(_) => "jne"@,
        Instruction::Jl(_) => "jl"@,
        Instruction::Jle(_) => "jle"@,
        Instruction::Jg(_) => "jg"@,
        Instruction::Jge(_) => "jge"@,
        Instruction::Jz(_) => "jz"@,
        Instruction::Jo(_) => "jo"@,
        Instruction::Fld1 => "fld1"@,
        Instruction::Faddp(_) => "faddp"@,
        Instruction::Fsubp(_) => "fsubp"@,
        Instruction::Fmulp(_) => "fmulp"@,
        Instruction::Fdivp(_) => "fdivp"@,
        Instruction::Fcos => "fcos"@,
        Instruction::Fsqrt => "fsqrt"@,
        Instruction::Fld(_) => "fld"@,
        Instruction::Fild(_) => "fild"@,
        Instruction::Fstp(_) => "fstp"@,
        Instruction::Fistp(_) => "fistp"@,
        Instruction::Fcompp(_) => "fcompp"@,
        Instruction::Fcomp(_) => "fcomp"@,
        Instruction::Fcom(_) => "fcom"@,
        Instruction::Fstsw(_) => "fstsw"@,
        Instruction::Label(_) => Seq::empty(),
    }
}

/// The operands' text that follows the mnemonic.
spec fn operands_text(i: InstrV) -> Seq<char> {
    match i {
        Instruction::Mov(a) => " "@ + mov_args_text(a),
        Instruction::Add(a) => " "@ + bin_args_text(a),
        Instruction::Sub(a) => " "@ + bin_args_text(a),
        Instruction::IMul(a) => " "@ + bin_args_text(a),
        Instruction::And(a) => " "@ + bin_args_text(a),
        Instruction::Or(a) => " "@ + bin_args_text(a),
        Instruction::Xor(a) => " "@ + bin_args_text(a),
        Instruction::Shr(a) => " "@ + bin_args_text(a),
        Instruction::Sar(a) => " "@ + bin_args_text(a),
        Instruction::Shl(a) => " "@ + bin_args_text(a),
        Instruction::Cmp(a) => " "@ + bin_args_text(a),
        Instruction::Call(s) => " "@ + s,
        Instruction::Ret => Seq::empty(),
        Instruction::Jmp(s) => " "@ + s,
        Instruction::Je(s) => " "@ + s,
        Instruction::Jne(s) => " "@ + s,
        Instruction::Jl(s) => " "@ + s,
        Instruction::Jle(s) => " "@ + s,
        Instruction::Jg(s) => " "@ + s,
        Instruction::Jge(s) => " "@ + s,
        Instruction::Jz(s) => " "@ + s,
        Instruction::Jo(s) => " "@ + s,
        Instruction::Fld1 => Seq::empty(),
        Instruction::Faddp(a) => float_arg_text(a),
        Instruction::Fsubp(a) => float_arg_text(a),
        Instruction::Fmulp(a) => float_arg_text(a),
        Instruction::Fdivp(a) => float_arg_text(a),
        Instruction::Fcos => Seq::empty(),
        Instruction::Fsqrt => Seq::empty(),
        Instruction::Fld(m) => float_mem_text(m),
        Instruction::Fild(m) => float_mem_text(m),
        Instruction::Fstp(m) => float_mem_text(m),
        Instruction::Fistp(m) => float_mem_text(m),
        Instruction::Fcompp(a) => float_arg_text(a),
        Instruction::Fcomp(a) => float_arg_text(a),
        Instruction::Fcom(a) => float_arg_text(a),
        Instruction::Fstsw(a) => float_arg_text(a),
        Instruction::Label(_) => Seq::empty(),
    }
}

/// The assembly text of a label is its name and a colon; that of any other
/// instruction is an indented x86 mnemonic, followed by nothing or by a
/// space and the operands, so no instruction prints another's mnemonic.
pub proof fn lemma_instr_text_mnemonic(i: InstrV)
    ensures
        i is Label ==> instr_text(i) == i->Label_0 + ":"@,
        !(i is Label) ==> exists|rest: Seq<char>| #![trigger instr_text(i) + rest]
            instr_text(i) == "        "@ + x86_mnemonic(i) + rest && (rest.len() == 0 || rest[0] == ' '),
{
    reveal_strlit(" ");
    reveal_strlit("        ");
    reveal_strlit("        add ");
    reveal_strlit("        and ");
    reveal_strlit("        call ");
    reveal_strlit("        cmp ");
    reveal_strlit("        faddp");
    reveal_strlit("        fcom");
    reveal_strlit("        fcomp");
    reveal_strlit("        fcompp");
    reveal_strlit("        fcos");
    reveal_strlit("        fdivp");
    reveal_strlit("        fild");
    reveal_strlit("        fistp");
    reveal_strlit("        fld");
    reveal_strlit("        fld1");
    reveal_strlit("        fmulp");
    reveal_strlit("        fsqrt");
    reveal_strlit("        fstp");
    reveal_strlit("        fstsw");
    reveal_strlit("        fsubp");
    reveal_strlit("        imul ");
    reveal_strlit("        je ");
    reveal_strlit("        jg ");
    reveal_strlit("        jge ");
    reveal_strlit("        jl ");
    reveal_strlit("        jle ");
    reveal_strlit("        jmp ");
    reveal_strlit("        jne ");
    reveal_strlit("        jo ");
    reveal_strlit("        jz ");
    reveal_strlit("        mov ");
    reveal_strlit("        or ");
    reveal_strlit("        ret");
    reveal_strlit("        sar ");
    reveal_strlit("        shl ");
    reveal_strlit("        shr ");
    reveal_strlit("        sub ");
    reveal_strlit("        xor ");
    reveal_strlit("add");
    reveal_strlit("and");
    reveal_strlit("call");
    reveal_strlit("cmp");
    reveal_strlit("faddp");
    reveal_strlit("fcom");
    reveal_strlit("fcomp");
    reveal_strlit("fcompp");
    reveal_strlit("fcos");
    reveal_strlit("fdivp");
    reveal_strlit("fild");
    reveal_strlit("fistp");
    reveal_strlit("fld");
    reveal_strlit("fld1");
    reveal_strlit("fmulp");
    reveal_strlit("fsqrt");
    reveal_strlit("fstp");
    reveal_strlit("fstsw");
    reveal_strlit("fsubp");
    reveal_strlit("imul");
    reveal_strlit("je");
    reveal_strlit("jg");
    reveal_strlit("jge");
    reveal_strlit("jl");
    reveal_strlit("jle");
    reveal_strlit("jmp");
    reveal_strlit("jne");
    reveal_strlit("jo");
    reveal_strlit("jz");
    reveal_strlit("mov");
    reveal_strlit("or");
    reveal_strlit("ret");
    reveal_strlit("sar");
    reveal_strlit("shl");
    reveal_strlit("shr");
    reveal_strlit("sub");
    reveal_strlit("xor");
    if !(i is Label) {
        let rest = operands_text(i);
        assert(instr_text(i) =~= "        "@ + x86_mnemonic(i) + rest);
        match i {
            Instruction::Faddp(a) | Instruction::Fsubp(a) | Instruction::Fmulp(a) | Instruction::Fdivp(a)
            | Instruction::Fcompp(a) | Instruction::Fcomp(a) | Instruction::Fcom(a) | Instruction::Fstsw(a) => {
                match a {
                    FloatArg::Blank => {},
                    FloatArg::Reg(r) => { assert(rest[0] == ' '); },
                }
            },
            Instruction::Fld(m) | Instruction::Fild(m) | Instruction::Fstp(m) | Instruction::Fistp(m) => {
                match m {
                    FloatMem::RegMem(r) => { assert(rest[0] == ' '); },
                }
            },
            _ => {},
        }
        assert(instr_text(i) + rest == instr_text(i) + rest);
    }
}

} // verus!
