use vstd::prelude::*;

use crate::assembly::{
    Arg32, Arg64, BinArgs, FloatArg, FloatMem, Instr, InstrV, Instruction, MemRef, MovArgs, Reg, Reg32,
    instr_view, instrs_view,
};
use crate::float_bits::{f32_rounded, f32_rounded_bits};
use crate::names::{NameMap, contains_name, copy_names, first_index, lemma_first_index, position};
use crate::syntax::{
    DeclV, ImmExp, ImmV, Name, Prim, SeqExp, SeqExpV, SeqFunDecl, imm_view, imms_view, names_view, seq_decls_view,
    seq_view,
};
use crate::text::nat_text;

verus! {

pub type Space = i32;

/// Tag of `true`: all bits set.
pub const SNAKE_TRUE: u64 = 0xFF_FF_FF_FF_FF_FF_FF_FFu64;
/// Tag of `false`: all bits but the highest set.
pub const SNAKE_FALSE: u64 = 0x7F_FF_FF_FF_FF_FF_FF_FFu64;
/// The bit that tells `true` from `false`.
pub const BOOL_MASK: u64 = 0x80_00_00_00_00_00_00_00u64;
/// Keeps the bits of a double that a single-precision value can use.
pub const FLOAT_MASK: u64 = 0xFF_FF_FF_FF_E0_00_00_00u64;

pub type ErrorCode = u64;
pub const ARITH_ERROR: ErrorCode = 0;
pub const COMP_ERROR: ErrorCode = 1;
pub const OVERFLOW_ERROR: ErrorCode = 2;
pub const LOGIC_ERROR: ErrorCode = 3;
pub const IF_ERROR: ErrorCode = 4;
pub const DIVISION_ERROR: ErrorCode = 5;
pub const SQRT_ERROR: ErrorCode = 6;

/// Bit patterns of the doubles 0.0, 0.5, `f32::MAX` and `f32::MIN`.
pub const ZERO_BITS: u64 = 0u64;
pub const HALF_BITS: u64 = 0x3FE0_0000_0000_0000u64;
pub const F32_MAX_BITS: u64 = 0x47EF_FFFF_E000_0000u64;
pub const F32_MIN_BITS: u64 = 0xC7EF_FFFF_E000_0000u64;

/// Kinds of values at run time.
pub enum RuntimeType {
    Num,
    Bool,
}

// ---------------------------------------------------------------------------
// Building blocks of the specification
// ---------------------------------------------------------------------------

/// A label: a prefix followed by a node's tag.
pub open spec fn lbl(prefix: Seq<char>, ann: u32) -> Seq<char> {
    prefix + nat_text(ann as nat)
}

pub open spec fn rsp(offset: i32) -> MemRef {
    MemRef { reg: Reg::Rsp, offset }
}

/// `-8 * v` fits in an `i32`.
pub open spec fn times8_ok(v: int) -> bool {
    -268435455 <= v <= 268435456
}

/// Offset of stack slot `i` (counted from 0) below the stack pointer.
pub open spec fn slot(i: int) -> i32 {
    (-8 * (i + 1)) as i32
}

/// Slot `i` can be addressed with an `i32` offset.
pub open spec fn slot_ok(i: int) -> bool {
    0 <= i && i + 1 <= 268435456
}

pub open spec fn movr(r: Reg, a: Arg64) -> InstrV {
    Instruction::Mov(MovArgs::ToReg(r, a))
}

pub open spec fn movm(m: MemRef, r: Reg) -> InstrV {
    Instruction::Mov(MovArgs::ToMem(m, Reg32::Reg(r)))
}

pub open spec fn snake_error() -> Seq<char> {
    "snake_error"@
}

/// Loads an immediate into `rax`.
pub open spec fn imm_instrs_v(i: ImmV, env: Seq<Name>) -> Seq<InstrV> {
    match i {
        ImmV::Num(n) => seq![movr(Reg::Rax, Arg64::Signed(n << 1))],
        ImmV::Bool(b) => seq![movr(Reg::Rax, Arg64::Unsigned(if b { SNAKE_TRUE } else { SNAKE_FALSE }))],
        ImmV::Var(x) => seq![movr(Reg::Rax, Arg64::Mem(rsp(slot(first_index(env, x)))))],
        ImmV::Float(f) => st_constfloat_v(Reg::Rax, f32_rounded(f.0)),
    }
}

/// A variable read is found in the environment at an addressable slot.
pub open spec fn var_ok(env: Seq<Name>, x: Name) -> bool {
    slot_ok(first_index(env, x))
}

pub open spec fn imm_ok(i: ImmV, env: Seq<Name>) -> bool {
    match i {
        ImmV::Var(x) => var_ok(env, x),
        _ => true,
    }
}

pub open spec fn check_bool_v(reg: Reg, code: ErrorCode, is_or_not: bool) -> Seq<InstrV> {
    seq![
        movr(Reg::R9, Arg64::Unsigned(3)),
        Instruction::And(BinArgs::ToReg(Reg::R9, Arg32::Reg(reg))),
        Instruction::Cmp(BinArgs::ToReg(Reg::R9, Arg32::Unsigned(3))),
        movr(Reg::Rdi, Arg64::Unsigned(code)),
        if is_or_not { Instruction::Jne(snake_error()) } else { Instruction::Je(snake_error()) },
    ]
}

pub open spec fn if_float_v(reg: Reg, label: Seq<char>) -> Seq<InstrV> {
    seq![
        movr(Reg::R9, Arg64::Unsigned(1)),
        Instruction::And(BinArgs::ToReg(Reg::R9, Arg32::Reg(reg))),
        Instruction::Cmp(BinArgs::ToReg(Reg::R9, Arg32::Unsigned(1))),
        Instruction::Je(label),
    ]
}

pub open spec fn ld_float_from_reg_v(reg: Reg, offset: i32) -> Seq<InstrV> {
    seq![
        Instruction::Sub(BinArgs::ToReg(reg, Arg32::Unsigned(1))),
        movm(rsp(offset), reg),
        Instruction::Fld(FloatMem::RegMem(rsp(offset))),
    ]
}

pub open spec fn ld_num_from_reg_v(reg: Reg, offset: i32) -> Seq<InstrV> {
    seq![
        Instruction::Shr(BinArgs::ToReg(reg, Arg32::Unsigned(1))),
        movm(rsp(offset), reg),
        Instruction::Fild(FloatMem::RegMem(rsp(offset))),
    ]
}

pub open spec fn st_constfloat_v(reg: Reg, bits: u64) -> Seq<InstrV> {
    seq![movr(reg, Arg64::Unsigned(bits)), Instruction::Add(BinArgs::ToReg(reg, Arg32::Unsigned(1)))]
}

pub open spec fn ld_constfloat_v(bits: u64, offset: i32) -> Seq<InstrV> {
    seq![
        movr(Reg::R9, Arg64::Unsigned(bits)),
        movm(rsp(offset), Reg::R9),
        Instruction::Fld(FloatMem::RegMem(rsp(offset))),
    ]
}

pub open spec fn st_float_to_reg_v(reg: Reg, offset: i32) -> Seq<InstrV> {
    seq![
        Instruction::Fstp(FloatMem::RegMem(rsp(offset))),
        movr(reg, Arg64::Mem(rsp(offset))),
        movr(Reg::R9, Arg64::Unsigned(FLOAT_MASK)),
        Instruction::Add(BinArgs::ToReg(reg, Arg32::Unsigned(0x10000000))),
        Instruction::And(BinArgs::ToReg(reg, Arg32::Reg(Reg::R9))),
        Instruction::Add(BinArgs::ToReg(reg, Arg32::Unsigned(1))),
    ]
}

pub open spec fn st_floornum_to_reg_v(reg: Reg, offset: i32) -> Seq<InstrV> {
    ld_constfloat_v(HALF_BITS, offset) + seq![
        Instruction::Fsubp(FloatArg::Blank),
        Instruction::Fistp(FloatMem::RegMem(rsp(offset))),
        movr(reg, Arg64::Mem(rsp(offset))),
        Instruction::Shl(BinArgs::ToReg(reg, Arg32::Unsigned(1))),
    ]
}

/// Compares the two values on top of the x87 stack (popping `pop` of them)
/// and runs `larger`, `smaller` or `equal` code accordingly.
pub open spec fn compare_floats_v(
    larger: (Seq<InstrV>, Seq<char>),
    smaller: (Seq<InstrV>, Seq<char>),
    equal: (Seq<InstrV>, Seq<char>),
    done: Seq<char>,
    pop: u32,
) -> Seq<InstrV> {
    seq![
        if pop == 2 {
            Instruction::Fcompp(FloatArg::Blank)
        } else if pop == 1 {
            Instruction::Fcomp(FloatArg::Blank)
        } else {
            Instruction::Fcom(FloatArg::Blank)
        },
        Instruction::Fstsw(FloatArg::Reg(Reg::Ax)),
        Instruction::And(BinArgs::ToReg(Reg::Ax, Arg32::Unsigned(0x4100))),
        Instruction::Cmp(BinArgs::ToReg(Reg::Ax, Arg32::Unsigned(0x4000))),
        Instruction::Je(equal.1),
        Instruction::Cmp(BinArgs::ToReg(Reg::Ax, Arg32::Unsigned(0x0100))),
        Instruction::Je(smaller.1),
    ] + larger.0 + seq![Instruction::Jmp(done), Instruction::Label(equal.1)] + equal.0
        + seq![Instruction::Jmp(done), Instruction::Label(smaller.1)] + smaller.0 + seq![Instruction::Label(done)]
}

pub open spec fn error_exit_v(code: ErrorCode) -> Seq<InstrV> {
    seq![movr(Reg::Rdi, Arg64::Unsigned(code)), Instruction::Jmp(snake_error())]
}

pub open spec fn check_float_overflow_v(ann: u32, offset: i32) -> Seq<InstrV> {
    ld_constfloat_v(F32_MAX_BITS, offset)
        + compare_floats_v(
            (Seq::empty(), lbl("checkfloatover1_larger_"@, ann)),
            (error_exit_v(OVERFLOW_ERROR), lbl("checkfloatover1_smaller_"@, ann)),
            (Seq::empty(), lbl("checkfloatover1_equal_"@, ann)),
            lbl("overflow1_done_"@, ann),
            1,
        )
        + ld_constfloat_v(F32_MIN_BITS, offset)
        + compare_floats_v(
            (seq![movr(Reg::Rdi, Arg64::Unsigned(OVERFLOW_ERROR)), Instruction::Jo(snake_error())], lbl("checkfloatover2_larger_"@, ann)),
            (Seq::empty(), lbl("checkfloatover2_smaller_"@, ann)),
            (Seq::empty(), lbl("checkfloatover2_equal_"@, ann)),
            lbl("overflow2_done_"@, ann),
            1,
        )
}

pub open spec fn check_division_zero_num_v(reg: Reg, ann: u32) -> Seq<InstrV> {
    seq![
        movr(Reg::R9, Arg64::Unsigned(0)),
        Instruction::Cmp(BinArgs::ToReg(Reg::R9, Arg32::Reg(reg))),
        Instruction::Jne(lbl("not_zero_"@, ann)),
        movr(Reg::Rdi, Arg64::Unsigned(DIVISION_ERROR)),
        Instruction::Jmp(snake_error()),
        Instruction::Label(lbl("not_zero_"@, ann)),
    ]
}

pub open spec fn check_sqrt_num_v(reg: Reg, ann: u32) -> Seq<InstrV> {
    seq![
        movr(Reg::R9, Arg64::Unsigned(0)),
        Instruction::Cmp(BinArgs::ToReg(Reg::R9, Arg32::Reg(reg))),
        Instruction::Jle(lbl("not_lt_zero_"@, ann)),
        movr(Reg::Rdi, Arg64::Unsigned(SQRT_ERROR)),
        Instruction::Jmp(snake_error()),
        Instruction::Label(lbl("not_lt_zero_"@, ann)),
    ]
}

pub open spec fn check_division_zero_float_v(ann: u32, offset: i32) -> Seq<InstrV> {
    ld_constfloat_v(ZERO_BITS, offset)
        + compare_floats_v(
            (Seq::empty(), lbl("check_div_larger_"@, ann)),
            (Seq::empty(), lbl("check_div_smaller_"@, ann)),
            (error_exit_v(DIVISION_ERROR), lbl("check_div_equal_"@, ann)),
            lbl("cmp_done_"@, ann),
            1,
        )
}

/// A negative float operand of `sqrt` exits with the sqrt error code.
pub open spec fn check_sqrt_float_v(ann: u32, offset: i32) -> Seq<InstrV> {
    ld_constfloat_v(ZERO_BITS, offset)
        + compare_floats_v(
            (error_exit_v(SQRT_ERROR), lbl("check_sqrt_larger_"@, ann)),
            (Seq::empty(), lbl("check_sqrt_smaller_"@, ann)),
            (Seq::empty(), lbl("check_sqrt_equal_"@, ann)),
            lbl("cmp_done_"@, ann),
            1,
        )
}

pub open spec fn check_overflow_v() -> Seq<InstrV> {
    seq![movr(Reg::Rdi, Arg64::Unsigned(OVERFLOW_ERROR)), Instruction::Jo(snake_error())]
}

/// Dispatch of a unary operator: `instr1` for a number in `rax`,
/// `instr2` on the x87 stack for a float.
pub open spec fn unaryop_v(instr1: Seq<InstrV>, instr2: Seq<InstrV>, ann: u32, offset: i32) -> Seq<InstrV> {
    if_float_v(Reg::Rax, lbl("when_float_"@, ann)) + instr1 + seq![Instruction::Jmp(lbl("done_"@, ann))]
        + seq![Instruction::Label(lbl("when_float_"@, ann))] + ld_float_from_reg_v(Reg::Rax, offset) + instr2
        + check_float_overflow_v(ann, offset) + st_float_to_reg_v(Reg::Rax, offset)
        + seq![Instruction::Label(lbl("done_"@, ann))]
}

/// Dispatch of a binary operator on `rax` and `r8`: `instr1` when both are
/// numbers, otherwise both are loaded on the x87 stack and `instr2` runs.
pub open spec fn binop_v(instr1: Seq<InstrV>, instr2: Seq<InstrV>, ann: u32, offset: i32) -> Seq<InstrV> {
    if_float_v(Reg::Rax, lbl("first_float_"@, ann)) + if_float_v(Reg::R8, lbl("second_float_"@, ann)) + instr1
        + seq![Instruction::Jmp(lbl("done_"@, ann)), Instruction::Label(lbl("first_float_"@, ann))]
        + if_float_v(Reg::R8, lbl("both_floats_"@, ann))
        + ld_float_from_reg_v(Reg::Rax, offset) + ld_num_from_reg_v(Reg::R8, offset)
        + seq![Instruction::Jmp(lbl("handle_float_"@, ann)), Instruction::Label(lbl("both_floats_"@, ann))]
        + ld_float_from_reg_v(Reg::Rax, offset) + ld_float_from_reg_v(Reg::R8, offset)
        + seq![Instruction::Jmp(lbl("handle_float_"@, ann)), Instruction::Label(lbl("second_float_"@, ann))]
        + ld_num_from_reg_v(Reg::Rax, offset) + ld_float_from_reg_v(Reg::R8, offset)
        + seq![Instruction::Label(lbl("handle_float_"@, ann))] + instr2
        + seq![Instruction::Label(lbl("done_"@, ann))]
}


/// `8 * v` fits in an `i32`.
pub open spec fn mul8_ok(v: int) -> bool {
    -268435456 <= v <= 268435455
}

/// Loads the operands of a primitive: the second (if any) into `r8`, the
/// first into `rax`, each checked to be a boolean (`is_bool`) or not.
pub open spec fn load_operands_v(exps: Seq<ImmV>, env: Seq<Name>, code: ErrorCode, is_bool: bool) -> Seq<InstrV> {
    if exps.len() == 1 {
        imm_instrs_v(exps[0], env) + check_bool_v(Reg::Rax, code, is_bool)
    } else if exps.len() == 2 {
        imm_instrs_v(exps[1], env) + check_bool_v(Reg::Rax, code, is_bool) + seq![movr(Reg::R8, Arg64::Reg(Reg::Rax))]
            + imm_instrs_v(exps[0], env) + check_bool_v(Reg::Rax, code, is_bool)
    } else {
        Seq::empty()
    }
}

pub open spec fn operands_ok(exps: Seq<ImmV>, env: Seq<Name>) -> bool {
    if exps.len() == 1 {
        imm_ok(exps[0], env)
    } else if exps.len() == 2 {
        imm_ok(exps[0], env) && imm_ok(exps[1], env)
    } else {
        true
    }
}

/// Scratch slot just below the variables of `env`.
pub open spec fn frame_slot(env: Seq<Name>) -> i32 {
    slot(env.len() as int)
}

pub open spec fn arith_prim_v(op: Prim, exps: Seq<ImmV>, ann: u32, env: Seq<Name>) -> Seq<InstrV> {
    load_operands_v(exps, env, ARITH_ERROR, false) + arith_op_v(op, ann, frame_slot(env))
}

/// The arithmetic itself, once the operands are in `rax` and `r8`.
pub open spec fn arith_op_v(op: Prim, ann: u32, off: i32) -> Seq<InstrV> {
    let stf = st_float_to_reg_v(Reg::Rax, off);
    let cfo = check_float_overflow_v(ann, off);
    match op {
        Prim::Add1 => unaryop_v(
            seq![Instruction::Add(BinArgs::ToReg(Reg::Rax, Arg32::Signed(2)))] + check_overflow_v(),
            seq![Instruction::Fld1, Instruction::Faddp(FloatArg::Blank)],
            ann,
            off,
        ),
        Prim::Sub1 => unaryop_v(
            seq![Instruction::Sub(BinArgs::ToReg(Reg::Rax, Arg32::Signed(2)))] + check_overflow_v(),
            seq![Instruction::Fld1, Instruction::Fsubp(FloatArg::Blank)],
            ann,
            off,
        ),
        Prim::Add => binop_v(
            seq![Instruction::Add(BinArgs::ToReg(Reg::Rax, Arg32::Reg(Reg::R8)))] + check_overflow_v(),
            seq![Instruction::Faddp(FloatArg::Blank)] + cfo + stf,
            ann,
            off,
        ),
        Prim::Sub => binop_v(
            seq![Instruction::Sub(BinArgs::ToReg(Reg::Rax, Arg32::Reg(Reg::R8)))] + check_overflow_v(),
            seq![Instruction::Fsubp(FloatArg::Blank)] + cfo + stf,
            ann,
            off,
        ),
        Prim::Mul => binop_v(
            seq![
                Instruction::Sar(BinArgs::ToReg(Reg::R8, Arg32::Unsigned(1))),
                Instruction::Sar(BinArgs::ToReg(Reg::Rax, Arg32::Unsigned(1))),
                Instruction::IMul(BinArgs::ToReg(Reg::Rax, Arg32::Reg(Reg::R8))),
            ] + check_overflow_v() + seq![Instruction::Shl(BinArgs::ToReg(Reg::Rax, Arg32::Unsigned(1)))],
            seq![Instruction::Fmulp(FloatArg::Blank)] + cfo + stf,
            ann,
            off,
        ),
        Prim::Div => binop_v(
            ld_num_from_reg_v(Reg::Rax, off) + ld_num_from_reg_v(Reg::R8, off) + check_division_zero_num_v(Reg::R8, ann)
                + seq![Instruction::Fdivp(FloatArg::Blank)] + stf,
            check_division_zero_float_v(ann, off) + seq![Instruction::Fdivp(FloatArg::Blank)] + cfo + stf,
            ann,
            off,
        ),
        Prim::FloorDiv => binop_v(
            ld_num_from_reg_v(Reg::Rax, off) + ld_num_from_reg_v(Reg::R8, off) + check_division_zero_num_v(Reg::R8, ann)
                + seq![Instruction::Fdivp(FloatArg::Blank)] + st_floornum_to_reg_v(Reg::Rax, off),
            check_division_zero_float_v(ann, off) + seq![Instruction::Fdivp(FloatArg::Blank)] + cfo
                + st_floornum_to_reg_v(Reg::Rax, off),
            ann,
            off,
        ),
        Prim::Cos => unaryop_v(
            ld_num_from_reg_v(Reg::Rax, off) + seq![Instruction::Fcos] + stf,
            seq![Instruction::Fcos],
            ann,
            off,
        ),
        Prim::Sqrt => unaryop_v(
            check_sqrt_num_v(Reg::Rax, ann) + ld_num_from_reg_v(Reg::Rax, off) + seq![Instruction::Fsqrt] + stf,
            check_sqrt_float_v(ann, off) + seq![Instruction::Fsqrt],
            ann,
            off,
        ),
        _ => Seq::empty(),
    }
}

/// The label prefix and conditional jump of a comparison.
pub open spec fn comparison_stem(op: Prim) -> Seq<char> {
    match op {
        Prim::Lt => "less_than_"@,
        Prim::Gt => "greater_than_"@,
        Prim::Le => "less_equal_"@,
        Prim::Ge => "greater_equal_"@,
        Prim::Eq => "equal_"@,
        _ => "not_equal_"@,
    }
}

pub open spec fn comparison_jump(op: Prim, l: Seq<char>) -> InstrV {
    match op {
        Prim::Ge => Instruction::Jge(l),
        Prim::Eq => Instruction::Je(l),
        Prim::Neq => Instruction::Jne(l),
        Prim::Lt => Instruction::Jl(l),
        Prim::Gt => Instruction::Jg(l),
        _ => Instruction::Jle(l),
    }
}

/// Result of a float comparison, by what the x87 comparison of the second
/// operand (on top of the stack) with the first found: the second operand
/// larger (`which == 0`), smaller (1) or equal (2).
pub open spec fn comparison_result(op: Prim, which: int) -> u64 {
    match op {
        Prim::Ge => if which == 1 { SNAKE_TRUE } else { SNAKE_FALSE },
        Prim::Eq => if which == 2 { SNAKE_TRUE } else { SNAKE_FALSE },
        Prim::Neq => if which == 2 { SNAKE_FALSE } else { SNAKE_TRUE },
        Prim::Lt => if which == 0 { SNAKE_TRUE } else { SNAKE_FALSE },
        Prim::Gt => if which == 1 { SNAKE_TRUE } else { SNAKE_FALSE },
        _ => if which == 0 { SNAKE_TRUE } else { SNAKE_FALSE },
    }
}

pub open spec fn comp_prim_v(op: Prim, exps: Seq<ImmV>, ann: u32, env: Seq<Name>) -> Seq<InstrV> {
    load_operands_v(exps, env, COMP_ERROR, false) + comp_op_v(op, ann, frame_slot(env))
}

/// The comparison itself, once the operands are in `rax` and `r8`.
pub open spec fn comp_op_v(op: Prim, ann: u32, off: i32) -> Seq<InstrV> {
    let l = lbl(comparison_stem(op), ann);
    binop_v(
        seq![
            Instruction::Cmp(BinArgs::ToReg(Reg::Rax, Arg32::Reg(Reg::R8))),
            movr(Reg::Rax, Arg64::Unsigned(SNAKE_TRUE)),
            comparison_jump(op, l),
            movr(Reg::Rax, Arg64::Unsigned(SNAKE_FALSE)),
            Instruction::Label(l),
        ],
        compare_floats_v(
            (seq![movr(Reg::Rax, Arg64::Unsigned(comparison_result(op, 0)))], lbl("logic_larger_"@, ann)),
            (seq![movr(Reg::Rax, Arg64::Unsigned(comparison_result(op, 1)))], lbl("logic_smaller_"@, ann)),
            (seq![movr(Reg::Rax, Arg64::Unsigned(comparison_result(op, 2)))], lbl("logic_equal_"@, ann)),
            lbl("cmp_done_"@, ann),
            2,
        ),
        ann,
        off,
    )
}

pub open spec fn logic_prim_v(op: Prim, exps: Seq<ImmV>, env: Seq<Name>) -> Seq<InstrV> {
    load_operands_v(exps, env, LOGIC_ERROR, true) + match op {
        Prim::Not => seq![
            movr(Reg::R8, Arg64::Unsigned(BOOL_MASK)),
            Instruction::Xor(BinArgs::ToReg(Reg::Rax, Arg32::Reg(Reg::R8))),
        ],
        Prim::And => seq![Instruction::And(BinArgs::ToReg(Reg::Rax, Arg32::Reg(Reg::R8)))],
        _ => seq![Instruction::Or(BinArgs::ToReg(Reg::Rax, Arg32::Reg(Reg::R8)))],
    }
}

/// A type test of the value in `rax`: `mask` selects the tag bits, `expected` the tag.
pub open spec fn type_test_v(mask: u64, expected: u32, done: Seq<char>) -> Seq<InstrV> {
    seq![
        movr(Reg::R9, Arg64::Unsigned(mask)),
        Instruction::And(BinArgs::ToReg(Reg::R9, Arg32::Reg(Reg::Rax))),
        Instruction::Cmp(BinArgs::ToReg(Reg::R9, Arg32::Unsigned(expected))),
        movr(Reg::Rax, Arg64::Unsigned(SNAKE_TRUE)),
        Instruction::Jz(done),
        movr(Reg::Rax, Arg64::Unsigned(SNAKE_FALSE)),
        Instruction::Label(done),
    ]
}

pub open spec fn other_prim_v(op: Prim, exps: Seq<ImmV>, env: Seq<Name>, ann: u32, space: i32) -> Seq<InstrV> {
    match op {
        Prim::Print => imm_instrs_v(exps[0], env) + seq![
            movr(Reg::Rdi, Arg64::Reg(Reg::Rax)),
            Instruction::Sub(BinArgs::ToReg(Reg::Rsp, Arg32::Signed((8 * space) as i32))),
            Instruction::Call("print_snake_val"@),
            Instruction::Add(BinArgs::ToReg(Reg::Rsp, Arg32::Signed((8 * space) as i32))),
        ],
        Prim::IsNum => type_test_v(1, 0, lbl("isnum_done_"@, ann)),
        Prim::IsBool => type_test_v(3, 3, lbl("isbool_done_"@, ann)),
        _ => type_test_v(3, 1, lbl("isfloat_done_"@, ann)),
    }
}

pub open spec fn is_arith(op: Prim) -> bool {
    match op {
        Prim::Add1 | Prim::Sub1 | Prim::Add | Prim::Sub | Prim::Mul | Prim::Div | Prim::FloorDiv | Prim::Cos | Prim::Sqrt => true,
        _ => false,
    }
}

pub open spec fn is_comp(op: Prim) -> bool {
    match op {
        Prim::Lt | Prim::Gt | Prim::Le | Prim::Ge | Prim::Eq | Prim::Neq => true,
        _ => false,
    }
}

pub open spec fn is_logic(op: Prim) -> bool {
    match op {
        Prim::And | Prim::Or | Prim::Not => true,
        _ => false,
    }
}

pub open spec fn prim_v(op: Prim, exps: Seq<ImmV>, ann: u32, env: Seq<Name>, space: i32) -> Seq<InstrV> {
    if is_arith(op) {
        arith_prim_v(op, exps, ann, env)
    } else if is_comp(op) {
        comp_prim_v(op, exps, ann, env)
    } else if is_logic(op) {
        logic_prim_v(op, exps, env)
    } else {
        other_prim_v(op, exps, env, ann, space)
    }
}

/// The primitive can be compiled without panicking.
pub open spec fn prim_ok(op: Prim, exps: Seq<ImmV>, env: Seq<Name>, space: i32) -> bool {
    if is_arith(op) || is_comp(op) {
        operands_ok(exps, env) && slot_ok(env.len() as int)
    } else if is_logic(op) {
        operands_ok(exps, env)
    } else if op == Prim::Print {
        exps.len() >= 1 && imm_ok(exps[0], env) && mul8_ok(space as int)
    } else {
        true
    }
}

/// Copies the variables `srcs` (found in `env`) to the slots `base`, `base + 1`, ...
pub open spec fn moves_v(srcs: Seq<Name>, env: Seq<Name>, base: int) -> Seq<InstrV>
    decreases srcs.len(),
{
    if srcs.len() == 0 {
        Seq::empty()
    } else {
        moves_v(srcs.drop_last(), env, base) + seq![
            movr(Reg::Rax, Arg64::Mem(rsp(slot(first_index(env, srcs.last()))))),
            movm(rsp(slot(base + srcs.len() - 1)), Reg::Rax),
        ]
    }
}

pub open spec fn moves_ok(srcs: Seq<Name>, env: Seq<Name>, base: int) -> bool {
    forall|k: int| 0 <= k < srcs.len() ==> var_ok(env, #[trigger] srcs[k]) && times8_ok(base + k + 1)
}

/// The names of variable arguments.
pub open spec fn arg_names(args: Seq<ImmV>) -> Seq<Name> {
    args.map_values(|a: ImmV| match a { ImmV::Var(x) => x, _ => Seq::empty() })
}

pub open spec fn all_vars(args: Seq<ImmV>) -> bool {
    forall|k: int| 0 <= k < args.len() ==> (#[trigger] args[k]) is Var
}

/// A tail call: the callee's captured variables, then the arguments, are
/// copied to the bottom of the frame, and control jumps to the callee.
pub open spec fn incall_v(f: Name, args: Seq<ImmV>, env: Seq<Name>, fenv: Map<Name, Seq<Name>>) -> Seq<InstrV> {
    let e = fenv[f];
    moves_v(e, env, 0) + moves_v(arg_names(args), env, e.len() as int) + seq![Instruction::Jmp(f)]
}

pub open spec fn incall_ok(f: Name, args: Seq<ImmV>, env: Seq<Name>, fenv: Map<Name, Seq<Name>>) -> bool {
    &&& fenv.contains_key(f)
    &&& all_vars(args)
    &&& moves_ok(fenv[f], env, 0)
    &&& moves_ok(arg_names(args), env, fenv[f].len() as int)
}

/// A non-tail call: captured variables and arguments go below the current
/// frame, the stack pointer moves down by the frame size around the call.
pub open spec fn excall_v(f: Name, args: Seq<ImmV>, env: Seq<Name>, space: i32, fenv: Map<Name, Seq<Name>>) -> Seq<InstrV> {
    let e = fenv[f];
    moves_v(e, env, space + 1) + moves_v(arg_names(args), env, space + 1 + e.len()) + seq![
        Instruction::Sub(BinArgs::ToReg(Reg::Rsp, Arg32::Signed((8 * space) as i32))),
        Instruction::Call(f),
        Instruction::Add(BinArgs::ToReg(Reg::Rsp, Arg32::Signed((8 * space) as i32))),
    ]
}

pub open spec fn excall_ok(f: Name, args: Seq<ImmV>, env: Seq<Name>, space: i32, fenv: Map<Name, Seq<Name>>) -> bool {
    &&& fenv.contains_key(f)
    &&& all_vars(args)
    &&& fenv[f].len() + args.len() <= 0x8000_0000
    &&& moves_ok(fenv[f], env, space + 1)
    &&& moves_ok(arg_names(args), env, space + 1 + fenv[f].len())
    &&& mul8_ok(space as int)
}

/// The environment after binding `x`: unchanged when `x` is already in it.
pub open spec fn bind_env(env: Seq<Name>, x: Name) -> Seq<Name> {
    if env.contains(x) { env } else { env.push(x) }
}

/// The environment of a function body: its captured variables, then its
/// parameters not already among them.
pub open spec fn add_params(env: Seq<Name>, ps: Seq<Name>) -> Seq<Name>
    decreases ps.len(),
{
    if ps.len() == 0 {
        env
    } else {
        bind_env(add_params(env, ps.drop_last()), ps.last())
    }
}

/// Slot where a let stores its variable: its first occurrence, or a new slot.
pub open spec fn let_slot(env: Seq<Name>, x: Name) -> int {
    if first_index(env, x) >= 0 { first_index(env, x) } else { env.len() as int }
}

/// Instructions for `e` with the variables of `env` in the slots below the
/// stack pointer, frame size `space`, and captured variables `fenv`.
pub open spec fn cwe_v(e: SeqExpV<u32>, env: Seq<Name>, space: i32, fenv: Map<Name, Seq<Name>>) -> Seq<InstrV>
    decreases e,
{
    match e {
        SeqExpV::Imm(i, _) => imm_instrs_v(i, env),
        SeqExpV::Let { var, bound_exp, body, .. } =>
            cwe_v(*bound_exp, env, space, fenv) + seq![movm(rsp(slot(let_slot(env, var))), Reg::Rax)]
                + cwe_v(*body, bind_env(env, var), space, fenv),
        SeqExpV::If { cond, thn, els, ann } =>
            imm_instrs_v(cond, env) + check_bool_v(Reg::Rax, IF_ERROR, true) + seq![
                movr(Reg::R8, Arg64::Unsigned(SNAKE_FALSE)),
                Instruction::Cmp(BinArgs::ToReg(Reg::Rax, Arg32::Reg(Reg::R8))),
                Instruction::Je(lbl("else_"@, ann)),
            ] + cwe_v(*thn, env, space, fenv) + seq![Instruction::Jmp(lbl("end_"@, ann)), Instruction::Label(lbl("else_"@, ann))]
                + cwe_v(*els, env, space, fenv) + seq![Instruction::Label(lbl("end_"@, ann))],
        SeqExpV::Prim(op, exps, ann) => prim_v(op, exps, ann, env, space),
        SeqExpV::InternalTailCall(f, args, _) => incall_v(f, args, env, fenv),
        SeqExpV::ExternalCall { fun_name, args, is_tail, .. } =>
            if is_tail { incall_v(fun_name, args, env, fenv) } else { excall_v(fun_name, args, env, space, fenv) },
        SeqExpV::FunDefs { decls, body, ann } =>
            seq![Instruction::Jmp(lbl("funend_"@, ann))] + cwe_decls_v(decls, space, fenv)
                + seq![Instruction::Label(lbl("funend_"@, ann))] + cwe_v(*body, env, space, fenv),
    }
}

/// Each local function: its label, its body, a return.
pub open spec fn cwe_decls_v(ds: Seq<DeclV<SeqExpV<u32>, u32>>, space: i32, fenv: Map<Name, Seq<Name>>) -> Seq<InstrV>
    decreases ds,
{
    if ds.len() == 0 {
        Seq::empty()
    } else {
        cwe_decls_v(ds.drop_last(), space, fenv) + seq![Instruction::Label(ds.last().name)]
            + cwe_v(ds.last().body, add_params(fenv[ds.last().name], ds.last().parameters), space, fenv)
            + seq![Instruction::Ret]
    }
}

/// Compiling `e` does not panic: every variable and function is found,
/// calls pass variables, and every offset fits in an `i32`.
pub open spec fn cwe_ok(e: SeqExpV<u32>, env: Seq<Name>, space: i32, fenv: Map<Name, Seq<Name>>) -> bool
    decreases e,
{
    match e {
        SeqExpV::Imm(i, _) => imm_ok(i, env),
        SeqExpV::Let { var, bound_exp, body, .. } =>
            cwe_ok(*bound_exp, env, space, fenv) && slot_ok(let_slot(env, var)) && cwe_ok(*body, bind_env(env, var), space, fenv),
        SeqExpV::If { cond, thn, els, .. } =>
            imm_ok(cond, env) && cwe_ok(*thn, env, space, fenv) && cwe_ok(*els, env, space, fenv),
        SeqExpV::Prim(op, exps, _) => prim_ok(op, exps, env, space),
        SeqExpV::InternalTailCall(f, args, _) => incall_ok(f, args, env, fenv),
        SeqExpV::ExternalCall { fun_name, args, is_tail, .. } =>
            if is_tail { incall_ok(fun_name, args, env, fenv) } else { excall_ok(fun_name, args, env, space, fenv) },
        SeqExpV::FunDefs { decls, body, .. } => cwe_decls_ok(decls, space, fenv) && cwe_ok(*body, env, space, fenv),
    }
}

pub open spec fn cwe_decls_ok(ds: Seq<DeclV<SeqExpV<u32>, u32>>, space: i32, fenv: Map<Name, Seq<Name>>) -> bool
    decreases ds,
{
    ds.len() == 0 || (cwe_decls_ok(ds.drop_last(), space, fenv) && fenv.contains_key(ds.last().name)
        && cwe_ok(ds.last().body, add_params(fenv[ds.last().name], ds.last().parameters), space, fenv))
}


/// Number of nodes of a sequential expression (a measure for recursion).
pub open spec fn seq_size(e: SeqExpV<u32>) -> nat
    decreases e,
{
    match e {
        SeqExpV::Let { bound_exp, body, .. } => 1 + seq_size(*bound_exp) + seq_size(*body),
        SeqExpV::If { thn, els, .. } => 1 + seq_size(*thn) + seq_size(*els),
        SeqExpV::FunDefs { decls, body, .. } => 1 + decls_size(decls) + seq_size(*body),
        _ => 1,
    }
}

pub open spec fn decls_size(ds: Seq<DeclV<SeqExpV<u32>, u32>>) -> nat
    decreases ds,
{
    if ds.len() == 0 {
        0
    } else {
        decls_size(ds.drop_last()) + seq_size(ds.last().body)
    }
}

proof fn lemma_decls_size(ds: Seq<DeclV<SeqExpV<u32>, u32>>, i: int)
    requires
        0 <= i < ds.len(),
    ensures
        seq_size(ds[i].body) <= decls_size(ds),
    decreases ds.len(),
{
    if i < ds.len() - 1 {
        lemma_decls_size(ds.drop_last(), i);
    }
}

proof fn lemma_cwe_decls_ok(ds: Seq<DeclV<SeqExpV<u32>, u32>>, i: int, space: i32, fenv: Map<Name, Seq<Name>>)
    requires
        0 <= i < ds.len(),
        cwe_decls_ok(ds, space, fenv),
    ensures
        fenv.contains_key(ds[i].name),
        cwe_ok(ds[i].body, add_params(fenv[ds[i].name], ds[i].parameters), space, fenv),
    decreases ds.len(),
{
    if i < ds.len() - 1 {
        lemma_cwe_decls_ok(ds.drop_last(), i, space, fenv);
    }
}

} // verus!

verus! {

use crate::assembly::{copy_instrs, emit, emit_all};
use crate::seq_exp::text_nat;

fn label(prefix: &str, ann: u32) -> (res: String)
    ensures
        res@ == lbl(prefix@, ann),
{
    text_nat(prefix, ann as u64)
}

fn snake_error_label() -> (res: String)
    ensures
        res@ == snake_error(),
{
    String::from_str("snake_error")
}

fn mem(offset: i32) -> (m: MemRef)
    ensures
        m == rsp(offset),
{
    MemRef { reg: Reg::Rsp, offset }
}

fn check_bool(reg: Reg, error_code: ErrorCode, is_or_not: bool) -> (res: Vec<Instr>)
    ensures
        instrs_view(res@) == check_bool_v(reg, error_code, is_or_not),
{
    let mut v: Vec<Instr> = Vec::new();
    emit(&mut v, Instruction::Mov(MovArgs::ToReg(Reg::R9, Arg64::Unsigned(3))));
    emit(&mut v, Instruction::And(BinArgs::ToReg(Reg::R9, Arg32::Reg(reg))));
    emit(&mut v, Instruction::Cmp(BinArgs::ToReg(Reg::R9, Arg32::Unsigned(3))));
    emit(&mut v, Instruction::Mov(MovArgs::ToReg(Reg::Rdi, Arg64::Unsigned(error_code))));
    if is_or_not {
        emit(&mut v, Instruction::Jne(snake_error_label()));
    } else {
        emit(&mut v, Instruction::Je(snake_error_label()));
    }
    assert(instrs_view(v@) =~= check_bool_v(reg, error_code, is_or_not));
    v
}

fn if_float(reg: Reg, label: &String) -> (res: Vec<Instr>)
    ensures
        instrs_view(res@) == if_float_v(reg, label@),
{
    let mut v: Vec<Instr> = Vec::new();
    emit(&mut v, Instruction::Mov(MovArgs::ToReg(Reg::R9, Arg64::Unsigned(1))));
    emit(&mut v, Instruction::And(BinArgs::ToReg(Reg::R9, Arg32::Reg(reg))));
    emit(&mut v, Instruction::Cmp(BinArgs::ToReg(Reg::R9, Arg32::Unsigned(1))));
    emit(&mut v, Instruction::Je(label.clone()));
    assert(instrs_view(v@) =~= if_float_v(reg, label@));
    v
}

fn ld_float_from_reg(reg: Reg, offset: i32) -> (res: Vec<Instr>)
    ensures
        instrs_view(res@) == ld_float_from_reg_v(reg, offset),
{
    let mut v: Vec<Instr> = Vec::new();
    emit(&mut v, Instruction::Sub(BinArgs::ToReg(reg, Arg32::Unsigned(1))));
    emit(&mut v, Instruction::Mov(MovArgs::ToMem(mem(offset), Reg32::Reg(reg))));
    emit(&mut v, Instruction::Fld(FloatMem::RegMem(mem(offset))));
    assert(instrs_view(v@) =~= ld_float_from_reg_v(reg, offset));
    v
}

fn ld_num_from_reg(reg: Reg, offset: i32) -> (res: Vec<Instr>)
    ensures
        instrs_view(res@) == ld_num_from_reg_v(reg, offset),
{
    let mut v: Vec<Instr> = Vec::new();
    emit(&mut v, Instruction::Shr(BinArgs::ToReg(reg, Arg32::Unsigned(1))));
    emit(&mut v, Instruction::Mov(MovArgs::ToMem(mem(offset), Reg32::Reg(reg))));
    emit(&mut v, Instruction::Fild(FloatMem::RegMem(mem(offset))));
    assert(instrs_view(v@) =~= ld_num_from_reg_v(reg, offset));
    v
}

fn st_constfloat(reg: Reg, bits: u64) -> (res: Vec<Instr>)
    ensures
        instrs_view(res@) == st_constfloat_v(reg, bits),
{
    let mut v: Vec<Instr> = Vec::new();
    emit(&mut v, Instruction::Mov(MovArgs::ToReg(reg, Arg64::Unsigned(bits))));
    emit(&mut v, Instruction::Add(BinArgs::ToReg(reg, Arg32::Unsigned(1))));
    assert(instrs_view(v@) =~= st_constfloat_v(reg, bits));
    v
}

fn ld_constfloat(bits: u64, offset: i32) -> (res: Vec<Instr>)
    ensures
        instrs_view(res@) == ld_constfloat_v(bits, offset),
{
    let mut v: Vec<Instr> = Vec::new();
    emit(&mut v, Instruction::Mov(MovArgs::ToReg(Reg::R9, Arg64::Unsigned(bits))));
    emit(&mut v, Instruction::Mov(MovArgs::ToMem(mem(offset), Reg32::Reg(Reg::R9))));
    emit(&mut v, Instruction::Fld(FloatMem::RegMem(mem(offset))));
    assert(instrs_view(v@) =~= ld_constfloat_v(bits, offset));
    v
}

fn st_float_to_reg(reg: Reg, offset: i32) -> (res: Vec<Instr>)
    ensures
        instrs_view(res@) == st_float_to_reg_v(reg, offset),
{
    let mut v: Vec<Instr> = Vec::new();
    emit(&mut v, Instruction::Fstp(FloatMem::RegMem(mem(offset))));
    emit(&mut v, Instruction::Mov(MovArgs::ToReg(reg, Arg64::Mem(mem(offset)))));
    emit(&mut v, Instruction::Mov(MovArgs::ToReg(Reg::R9, Arg64::Unsigned(FLOAT_MASK))));
    emit(&mut v, Instruction::Add(BinArgs::ToReg(reg, Arg32::Unsigned(0x10000000))));
    emit(&mut v, Instruction::And(BinArgs::ToReg(reg, Arg32::Reg(Reg::R9))));
    emit(&mut v, Instruction::Add(BinArgs::ToReg(reg, Arg32::Unsigned(1))));
    assert(instrs_view(v@) =~= st_float_to_reg_v(reg, offset));
    v
}

fn st_floornum_to_reg(reg: Reg, offset: i32) -> (res: Vec<Instr>)
    ensures
        instrs_view(res@) == st_floornum_to_reg_v(reg, offset),
{
    let mut v = ld_constfloat(HALF_BITS, offset);
    emit(&mut v, Instruction::Fsubp(FloatArg::Blank));
    emit(&mut v, Instruction::Fistp(FloatMem::RegMem(mem(offset))));
    emit(&mut v, Instruction::Mov(MovArgs::ToReg(reg, Arg64::Mem(mem(offset)))));
    emit(&mut v, Instruction::Shl(BinArgs::ToReg(reg, Arg32::Unsigned(1))));
    assert(instrs_view(v@) =~= st_floornum_to_reg_v(reg, offset));
    v
}

/// Compares the two values on top of the x87 stack, popping `pop` of them,
/// and runs the code of `larger`, `smaller` or `equal` (each with its label).
fn compare_floats(
    larger: (&Vec<Instr>, String),
    smaller: (&Vec<Instr>, String),
    equal: (&Vec<Instr>, String),
    done: String,
    pop: u32,
) -> (res: Vec<Instr>)
    requires
        pop <= 2,
    ensures
        instrs_view(res@) == compare_floats_v(
            (instrs_view(larger.0@), larger.1@),
            (instrs_view(smaller.0@), smaller.1@),
            (instrs_view(equal.0@), equal.1@),
            done@,
            pop,
        ),
{
    let mut v: Vec<Instr> = Vec::new();
    if pop == 2 {
        emit(&mut v, Instruction::Fcompp(FloatArg::Blank));
    } else if pop == 1 {
        emit(&mut v, Instruction::Fcomp(FloatArg::Blank));
    } else {
        emit(&mut v, Instruction::Fcom(FloatArg::Blank));
    }
    emit(&mut v, Instruction::Fstsw(FloatArg::Reg(Reg::Ax)));
    emit(&mut v, Instruction::And(BinArgs::ToReg(Reg::Ax, Arg32::Unsigned(0x4100))));
    emit(&mut v, Instruction::Cmp(BinArgs::ToReg(Reg::Ax, Arg32::Unsigned(0x4000))));
    emit(&mut v, Instruction::Je(equal.1.clone()));
    emit(&mut v, Instruction::Cmp(BinArgs::ToReg(Reg::Ax, Arg32::Unsigned(0x0100))));
    emit(&mut v, Instruction::Je(smaller.1.clone()));
    emit_all(&mut v, copy_instrs(larger.0));
    emit(&mut v, Instruction::Jmp(done.clone()));
    emit(&mut v, Instruction::Label(equal.1.clone()));
    emit_all(&mut v, copy_instrs(equal.0));
    emit(&mut v, Instruction::Jmp(done.clone()));
    emit(&mut v, Instruction::Label(smaller.1.clone()));
    emit_all(&mut v, copy_instrs(smaller.0));
    emit(&mut v, Instruction::Label(done));
    assert(instrs_view(v@) =~= compare_floats_v(
        (instrs_view(larger.0@), larger.1@),
        (instrs_view(smaller.0@), smaller.1@),
        (instrs_view(equal.0@), equal.1@),
        done@,
        pop,
    ));
    v
}

fn error_exit(code: ErrorCode) -> (res: Vec<Instr>)
    ensures
        instrs_view(res@) == error_exit_v(code),
{
    let mut v: Vec<Instr> = Vec::new();
    emit(&mut v, Instruction::Mov(MovArgs::ToReg(Reg::Rdi, Arg64::Unsigned(code))));
    emit(&mut v, Instruction::Jmp(snake_error_label()));
    assert(instrs_view(v@) =~= error_exit_v(code));
    v
}

fn check_float_overflow(ann: &u32, offset: i32) -> (res: Vec<Instr>)
    ensures
        instrs_view(res@) == check_float_overflow_v(*ann, offset),
{
    let mut instr = ld_constfloat(F32_MAX_BITS, offset);
    let smaller = error_exit(OVERFLOW_ERROR);
    let larger: Vec<Instr> = Vec::new();
    let equal: Vec<Instr> = Vec::new();
    let c1 = compare_floats(
        (&larger, label("checkfloatover1_larger_", *ann)),
        (&smaller, label("checkfloatover1_smaller_", *ann)),
        (&equal, label("checkfloatover1_equal_", *ann)),
        label("overflow1_done_", *ann),
        1,
    );
    emit_all(&mut instr, c1);
    emit_all(&mut instr, ld_constfloat(F32_MIN_BITS, offset));
    let mut larger2: Vec<Instr> = Vec::new();
    emit(&mut larger2, Instruction::Mov(MovArgs::ToReg(Reg::Rdi, Arg64::Unsigned(OVERFLOW_ERROR))));
    emit(&mut larger2, Instruction::Jo(snake_error_label()));
    let smaller2: Vec<Instr> = Vec::new();
    let equal2: Vec<Instr> = Vec::new();
    let c2 = compare_floats(
        (&larger2, label("checkfloatover2_larger_", *ann)),
        (&smaller2, label("checkfloatover2_smaller_", *ann)),
        (&equal2, label("checkfloatover2_equal_", *ann)),
        label("overflow2_done_", *ann),
        1,
    );
    emit_all(&mut instr, c2);
    assert(instrs_view(larger@) =~= Seq::<InstrV>::empty());
    assert(instrs_view(larger2@) =~= seq![movr(Reg::Rdi, Arg64::Unsigned(OVERFLOW_ERROR)), Instruction::Jo(snake_error())]);
    assert(instrs_view(instr@) =~= check_float_overflow_v(*ann, offset));
    instr
}

/// Exits with the division error when the number in `reg` is zero.
pub fn check_division_zero_num(reg: Reg, ann: &u32) -> (res: Vec<Instr>)
    ensures
        instrs_view(res@) == check_division_zero_num_v(reg, *ann),
{
    let mut instr: Vec<Instr> = Vec::new();
    emit(&mut instr, Instruction::Mov(MovArgs::ToReg(Reg::R9, Arg64::Unsigned(0))));
    emit(&mut instr, Instruction::Cmp(BinArgs::ToReg(Reg::R9, Arg32::Reg(reg))));
    emit(&mut instr, Instruction::Jne(label("not_zero_", *ann)));
    emit(&mut instr, Instruction::Mov(MovArgs::ToReg(Reg::Rdi, Arg64::Unsigned(DIVISION_ERROR))));
    emit(&mut instr, Instruction::Jmp(snake_error_label()));
    emit(&mut instr, Instruction::Label(label("not_zero_", *ann)));
    assert(instrs_view(instr@) =~= check_division_zero_num_v(reg, *ann));
    instr
}

/// Exits with the square-root error when the number in `reg` is negative.
pub fn check_sqrt_num(reg: Reg, ann: &u32) -> (res: Vec<Instr>)
    ensures
        instrs_view(res@) == check_sqrt_num_v(reg, *ann),
{
    let mut instr: Vec<Instr> = Vec::new();
    emit(&mut instr, Instruction::Mov(MovArgs::ToReg(Reg::R9, Arg64::Unsigned(0))));
    emit(&mut instr, Instruction::Cmp(BinArgs::ToReg(Reg::R9, Arg32::Reg(reg))));
    emit(&mut instr, Instruction::Jle(label("not_lt_zero_", *ann)));
    emit(&mut instr, Instruction::Mov(MovArgs::ToReg(Reg::Rdi, Arg64::Unsigned(SQRT_ERROR))));
    emit(&mut instr, Instruction::Jmp(snake_error_label()));
    emit(&mut instr, Instruction::Label(label("not_lt_zero_", *ann)));
    assert(instrs_view(instr@) =~= check_sqrt_num_v(reg, *ann));
    instr
}

/// Exits with the division error when the float on top of the x87 stack is zero.
pub fn check_division_zero_float(ann: &u32, offset: i32) -> (res: Vec<Instr>)
    ensures
        instrs_view(res@) == check_division_zero_float_v(*ann, offset),
{
    let mut instr = ld_constfloat(ZERO_BITS, offset);
    let equal = error_exit(DIVISION_ERROR);
    let larger: Vec<Instr> = Vec::new();
    let smaller: Vec<Instr> = Vec::new();
    let c = compare_floats(
        (&larger, label("check_div_larger_", *ann)),
        (&smaller, label("check_div_smaller_", *ann)),
        (&equal, label("check_div_equal_", *ann)),
        label("cmp_done_", *ann),
        1,
    );
    emit_all(&mut instr, c);
    assert(instrs_view(larger@) =~= Seq::<InstrV>::empty());
    assert(instrs_view(instr@) =~= check_division_zero_float_v(*ann, offset));
    instr
}

/// Exits (with the division error code) when the float on top of the x87 stack is negative.
pub fn check_sqrt_float(ann: &u32, offset: i32) -> (res: Vec<Instr>)
    ensures
        instrs_view(res@) == check_sqrt_float_v(*ann, offset),
{
    let mut instr = ld_constfloat(ZERO_BITS, offset);
    let larger = error_exit(SQRT_ERROR);
    let equal: Vec<Instr> = Vec::new();
    let smaller: Vec<Instr> = Vec::new();
    let c = compare_floats(
        (&larger, label("check_sqrt_larger_", *ann)),
        (&smaller, label("check_sqrt_smaller_", *ann)),
        (&equal, label("check_sqrt_equal_", *ann)),
        label("cmp_done_", *ann),
        1,
    );
    emit_all(&mut instr, c);
    assert(instrs_view(equal@) =~= Seq::<InstrV>::empty());
    assert(instrs_view(instr@) =~= check_sqrt_float_v(*ann, offset));
    instr
}

/// Exits with the overflow error when the last integer operation overflowed.
pub fn check_overflow() -> (res: Vec<Instr>)
    ensures
        instrs_view(res@) == check_overflow_v(),
{
    let mut v: Vec<Instr> = Vec::new();
    emit(&mut v, Instruction::Mov(MovArgs::ToReg(Reg::Rdi, Arg64::Unsigned(OVERFLOW_ERROR))));
    emit(&mut v, Instruction::Jo(snake_error_label()));
    assert(instrs_view(v@) =~= check_overflow_v());
    v
}

/// Appends the dispatch of a unary operator on `rax` (see `unaryop_v`).
pub fn unaryop(instr1: &Vec<Instr>, instr2: &Vec<Instr>, ann: &u32, offset: i32, instr: &mut Vec<Instr>)
    ensures
        instrs_view(final(instr)@) == instrs_view(old(instr)@) + unaryop_v(instrs_view(instr1@), instrs_view(instr2@), *ann, offset),
{
    let label_f = label("when_float_", *ann);
    let done = label("done_", *ann);
    emit_all(instr, if_float(Reg::Rax, &label_f));
    emit_all(instr, copy_instrs(instr1));
    emit(instr, Instruction::Jmp(done.clone()));
    emit(instr, Instruction::Label(label_f));
    emit_all(instr, ld_float_from_reg(Reg::Rax, offset));
    emit_all(instr, copy_instrs(instr2));
    emit_all(instr, check_float_overflow(ann, offset));
    emit_all(instr, st_float_to_reg(Reg::Rax, offset));
    emit(instr, Instruction::Label(done));
    assert(instrs_view(instr@) =~= instrs_view(old(instr)@) + unaryop_v(instrs_view(instr1@), instrs_view(instr2@), *ann, offset));
}

/// Appends the dispatch of a binary operator on `rax` and `r8` (see `binop_v`).
pub fn binop(instr1: &Vec<Instr>, instr2: &Vec<Instr>, ann: &u32, offset: i32, instr: &mut Vec<Instr>)
    ensures
        instrs_view(final(instr)@) == instrs_view(old(instr)@) + binop_v(instrs_view(instr1@), instrs_view(instr2@), *ann, offset),
{
    let first_float_label = label("first_float_", *ann);
    let second_float_label = label("second_float_", *ann);
    let handle_floats = label("handle_float_", *ann);
    let done = label("done_", *ann);
    let both_floats_label = label("both_floats_", *ann);
    emit_all(instr, if_float(Reg::Rax, &first_float_label));
    emit_all(instr, if_float(Reg::R8, &second_float_label));
    emit_all(instr, copy_instrs(instr1));
    emit(instr, Instruction::Jmp(done.clone()));
    emit(instr, Instruction::Label(first_float_label));
    emit_all(instr, if_float(Reg::R8, &both_floats_label));
    emit_all(instr, ld_float_from_reg(Reg::Rax, offset));
    emit_all(instr, ld_num_from_reg(Reg::R8, offset));
    emit(instr, Instruction::Jmp(handle_floats.clone()));
    emit(instr, Instruction::Label(both_floats_label));
    emit_all(instr, ld_float_from_reg(Reg::Rax, offset));
    emit_all(instr, ld_float_from_reg(Reg::R8, offset));
    emit(instr, Instruction::Jmp(handle_floats.clone()));
    emit(instr, Instruction::Label(second_float_label));
    emit_all(instr, ld_num_from_reg(Reg::Rax, offset));
    emit_all(instr, ld_float_from_reg(Reg::R8, offset));
    emit(instr, Instruction::Label(handle_floats));
    emit_all(instr, copy_instrs(instr2));
    emit(instr, Instruction::Label(done));
    assert(instrs_view(instr@) =~= instrs_view(old(instr)@) + binop_v(instrs_view(instr1@), instrs_view(instr2@), *ann, offset));
}


/// Offset of stack slot `i`.
fn slot_offset(i: usize) -> (res: i32)
    requires
        slot_ok(i as int),
    ensures
        res == slot(i as int),
{
    let k: i32 = i as i32;
    -8 * (k + 1)
}

/// Appends the loading of an immediate into `rax`.
fn immexp_instrs(imme: &ImmExp, env: &Vec<String>, instr: &mut Vec<Instr>)
    requires
        imm_ok(imm_view(*imme), names_view(env@)),
    ensures
        instrs_view(final(instr)@) == instrs_view(old(instr)@) + imm_instrs_v(imm_view(*imme), names_view(env@)),
{
    let ghost old_v = instrs_view(instr@);
    match imme {
        ImmExp::Num(n) => {
            let v: i64 = *n << 1;
            emit(instr, Instruction::Mov(MovArgs::ToReg(Reg::Rax, Arg64::Signed(v))));
        },
        ImmExp::Bool(b) => {
            if *b {
                emit(instr, Instruction::Mov(MovArgs::ToReg(Reg::Rax, Arg64::Unsigned(SNAKE_TRUE))));
            } else {
                emit(instr, Instruction::Mov(MovArgs::ToReg(Reg::Rax, Arg64::Unsigned(SNAKE_FALSE))));
            }
        },
        ImmExp::Var(id) => {
            let off = slot_offset(position(env, id).unwrap());
            emit(instr, Instruction::Mov(MovArgs::ToReg(Reg::Rax, Arg64::Mem(mem(off)))));
        },
        ImmExp::Float(f) => {
            let bits = f32_rounded_bits(f.0);
            emit_all(instr, st_constfloat(Reg::Rax, bits));
        },
    }
    assert(instrs_view(instr@) =~= old_v + imm_instrs_v(imm_view(*imme), names_view(env@)));
}


/// Appends the loading of a primitive's operands: the second (if any) into
/// `r8`, the first into `rax`, each checked for its kind.
fn load_operands(exps: &Vec<ImmExp>, env: &Vec<String>, code: ErrorCode, is_bool: bool, instr: &mut Vec<Instr>)
    requires
        operands_ok(imms_view(exps@), names_view(env@)),
    ensures
        instrs_view(final(instr)@) == instrs_view(old(instr)@) + load_operands_v(imms_view(exps@), names_view(env@), code, is_bool),
{
    let ghost old_v = instrs_view(instr@);
    let ghost es = imms_view(exps@);
    let ghost nv = names_view(env@);
    if exps.len() == 1 {
        immexp_instrs(&exps[0], env, instr);
        emit_all(instr, check_bool(Reg::Rax, code, is_bool));
        assert(instrs_view(instr@) =~= old_v + load_operands_v(es, nv, code, is_bool));
    } else if exps.len() == 2 {
        immexp_instrs(&exps[1], env, instr);
        emit_all(instr, check_bool(Reg::Rax, code, is_bool));
        emit(instr, Instruction::Mov(MovArgs::ToReg(Reg::R8, Arg64::Reg(Reg::Rax))));
        immexp_instrs(&exps[0], env, instr);
        emit_all(instr, check_bool(Reg::Rax, code, is_bool));
        assert(instrs_view(instr@) =~= old_v + load_operands_v(es, nv, code, is_bool));
    } else {
        assert(instrs_view(instr@) =~= old_v + load_operands_v(es, nv, code, is_bool));
    }
}

/// Appends the code of `not`, `and` or `or`.
fn logic_prim(op: &Prim, exps: &Vec<ImmExp>, env: &Vec<String>, instr: &mut Vec<Instr>)
    requires
        is_logic(*op),
        operands_ok(imms_view(exps@), names_view(env@)),
    ensures
        instrs_view(final(instr)@) == instrs_view(old(instr)@) + logic_prim_v(*op, imms_view(exps@), names_view(env@)),
{
    let ghost old_v = instrs_view(instr@);
    load_operands(exps, env, LOGIC_ERROR, true, instr);
    match op {
        Prim::Not => {
            emit(instr, Instruction::Mov(MovArgs::ToReg(Reg::R8, Arg64::Unsigned(BOOL_MASK))));
            emit(instr, Instruction::Xor(BinArgs::ToReg(Reg::Rax, Arg32::Reg(Reg::R8))));
        },
        Prim::And => {
            emit(instr, Instruction::And(BinArgs::ToReg(Reg::Rax, Arg32::Reg(Reg::R8))));
        },
        _ => {
            emit(instr, Instruction::Or(BinArgs::ToReg(Reg::Rax, Arg32::Reg(Reg::R8))));
        },
    }
    assert(instrs_view(instr@) =~= old_v + logic_prim_v(*op, imms_view(exps@), names_view(env@)));
}

/// A vector holding one instruction.
fn one(i: Instr) -> (res: Vec<Instr>)
    ensures
        instrs_view(res@) == seq![instr_view(i)],
{
    let mut v: Vec<Instr> = Vec::new();
    emit(&mut v, i);
    assert(instrs_view(v@) =~= seq![instr_view(i)]);
    v
}

/// Appends the code of a unary arithmetic operator (`add1`, `sub1`, `cos`, `sqrt`).
fn arith_unary(op: &Prim, ann: &u32, offset: i32, instr: &mut Vec<Instr>)
    requires
        *op == Prim::Add1 || *op == Prim::Sub1 || *op == Prim::Cos || *op == Prim::Sqrt,
    ensures
        instrs_view(final(instr)@) == instrs_view(old(instr)@) + arith_op_v(*op, *ann, offset),
{
    match op {
        Prim::Add1 => {
            let mut instr1 = one(Instruction::Add(BinArgs::ToReg(Reg::Rax, Arg32::Signed(2))));
            emit_all(&mut instr1, check_overflow());
            let mut instr2 = one(Instruction::Fld1);
            emit(&mut instr2, Instruction::Faddp(FloatArg::Blank));
            assert(instrs_view(instr2@) =~= seq![Instruction::Fld1, Instruction::Faddp(FloatArg::Blank)]);
            unaryop(&instr1, &instr2, ann, offset, instr);
        },
        Prim::Sub1 => {
            let mut instr1 = one(Instruction::Sub(BinArgs::ToReg(Reg::Rax, Arg32::Signed(2))));
            emit_all(&mut instr1, check_overflow());
            let mut instr2 = one(Instruction::Fld1);
            emit(&mut instr2, Instruction::Fsubp(FloatArg::Blank));
            assert(instrs_view(instr2@) =~= seq![Instruction::Fld1, Instruction::Fsubp(FloatArg::Blank)]);
            unaryop(&instr1, &instr2, ann, offset, instr);
        },
        Prim::Cos => {
            let mut instr1 = ld_num_from_reg(Reg::Rax, offset);
            emit(&mut instr1, Instruction::Fcos);
            emit_all(&mut instr1, st_float_to_reg(Reg::Rax, offset));
            let instr2 = one(Instruction::Fcos);
            unaryop(&instr1, &instr2, ann, offset, instr);
        },
        _ => {
            let mut instr1 = check_sqrt_num(Reg::Rax, ann);
            emit_all(&mut instr1, ld_num_from_reg(Reg::Rax, offset));
            emit(&mut instr1, Instruction::Fsqrt);
            emit_all(&mut instr1, st_float_to_reg(Reg::Rax, offset));
            let mut instr2 = check_sqrt_float(ann, offset);
            emit(&mut instr2, Instruction::Fsqrt);
            unaryop(&instr1, &instr2, ann, offset, instr);
        },
    }
}

/// The float half of `+`, `-`, `*`: the operation, the range check, the store.
fn float_op(op: Instr, ann: &u32, offset: i32) -> (res: Vec<Instr>)
    ensures
        instrs_view(res@) == seq![instr_view(op)] + check_float_overflow_v(*ann, offset) + st_float_to_reg_v(Reg::Rax, offset),
{
    let mut v = one(op);
    emit_all(&mut v, check_float_overflow(ann, offset));
    emit_all(&mut v, st_float_to_reg(Reg::Rax, offset));
    v
}

/// Appends the code of `+`, `-` or `*`.
fn arith_ring(op: &Prim, ann: &u32, offset: i32, instr: &mut Vec<Instr>)
    requires
        *op == Prim::Add || *op == Prim::Sub || *op == Prim::Mul,
    ensures
        instrs_view(final(instr)@) == instrs_view(old(instr)@) + arith_op_v(*op, *ann, offset),
{
    match op {
        Prim::Add => {
            let mut instr1 = one(Instruction::Add(BinArgs::ToReg(Reg::Rax, Arg32::Reg(Reg::R8))));
            emit_all(&mut instr1, check_overflow());
            let instr2 = float_op(Instruction::Faddp(FloatArg::Blank), ann, offset);
            binop(&instr1, &instr2, ann, offset, instr);
        },
        Prim::Sub => {
            let mut instr1 = one(Instruction::Sub(BinArgs::ToReg(Reg::Rax, Arg32::Reg(Reg::R8))));
            emit_all(&mut instr1, check_overflow());
            let instr2 = float_op(Instruction::Fsubp(FloatArg::Blank), ann, offset);
            binop(&instr1, &instr2, ann, offset, instr);
        },
        _ => {
            let mut instr1 = one(Instruction::Sar(BinArgs::ToReg(Reg::R8, Arg32::Unsigned(1))));
            emit(&mut instr1, Instruction::Sar(BinArgs::ToReg(Reg::Rax, Arg32::Unsigned(1))));
            emit(&mut instr1, Instruction::IMul(BinArgs::ToReg(Reg::Rax, Arg32::Reg(Reg::R8))));
            let ghost head = instrs_view(instr1@);
            emit_all(&mut instr1, check_overflow());
            emit(&mut instr1, Instruction::Shl(BinArgs::ToReg(Reg::Rax, Arg32::Unsigned(1))));
            assert(head =~= seq![
                Instruction::Sar(BinArgs::ToReg(Reg::R8, Arg32::Unsigned(1))),
                Instruction::Sar(BinArgs::ToReg(Reg::Rax, Arg32::Unsigned(1))),
                Instruction::IMul(BinArgs::ToReg(Reg::Rax, Arg32::Reg(Reg::R8))),
            ]);
            assert(instrs_view(instr1@) =~= head + check_overflow_v()
                + seq![Instruction::Shl(BinArgs::ToReg(Reg::Rax, Arg32::Unsigned(1)))]);
            let instr2 = float_op(Instruction::Fmulp(FloatArg::Blank), ann, offset);
            binop(&instr1, &instr2, ann, offset, instr);
        },
    }
}

/// Appends the code of `/` or `//`.
fn arith_div(op: &Prim, ann: &u32, offset: i32, instr: &mut Vec<Instr>)
    requires
        *op == Prim::Div || *op == Prim::FloorDiv,
    ensures
        instrs_view(final(instr)@) == instrs_view(old(instr)@) + arith_op_v(*op, *ann, offset),
{
    let mut instr1 = ld_num_from_reg(Reg::Rax, offset);
    emit_all(&mut instr1, ld_num_from_reg(Reg::R8, offset));
    emit_all(&mut instr1, check_division_zero_num(Reg::R8, ann));
    emit(&mut instr1, Instruction::Fdivp(FloatArg::Blank));
    let mut instr2 = check_division_zero_float(ann, offset);
    emit(&mut instr2, Instruction::Fdivp(FloatArg::Blank));
    emit_all(&mut instr2, check_float_overflow(ann, offset));
    match op {
        Prim::Div => {
            emit_all(&mut instr1, st_float_to_reg(Reg::Rax, offset));
            emit_all(&mut instr2, st_float_to_reg(Reg::Rax, offset));
        },
        _ => {
            emit_all(&mut instr1, st_floornum_to_reg(Reg::Rax, offset));
            emit_all(&mut instr2, st_floornum_to_reg(Reg::Rax, offset));
        },
    }
    binop(&instr1, &instr2, ann, offset, instr);
}

/// Appends the code of an arithmetic primitive.
fn arith_prim(op: &Prim, exps: &Vec<ImmExp>, ann: &u32, env: &Vec<String>, instr: &mut Vec<Instr>)
    requires
        is_arith(*op),
        operands_ok(imms_view(exps@), names_view(env@)),
        slot_ok(env@.len() as int),
    ensures
        instrs_view(final(instr)@) == instrs_view(old(instr)@) + arith_prim_v(*op, imms_view(exps@), *ann, names_view(env@)),
{
    let ghost old_v = instrs_view(instr@);
    let offset = slot_offset(env.len());
    load_operands(exps, env, ARITH_ERROR, false, instr);
    match op {
        Prim::Add1 | Prim::Sub1 | Prim::Cos | Prim::Sqrt => arith_unary(op, ann, offset, instr),
        Prim::Add | Prim::Sub | Prim::Mul => arith_ring(op, ann, offset, instr),
        _ => arith_div(op, ann, offset, instr),
    }
    assert(names_view(env@).len() == env@.len());
    assert(instrs_view(instr@) =~= old_v + arith_prim_v(*op, imms_view(exps@), *ann, names_view(env@)));
}


/// The label prefix of a comparison.
fn comparison_prefix(op: &Prim) -> (res: &'static str)
    requires
        is_comp(*op),
    ensures
        res@ == comparison_stem(*op),
{
    match op {
        Prim::Lt => "less_than_",
        Prim::Gt => "greater_than_",
        Prim::Le => "less_equal_",
        Prim::Ge => "greater_equal_",
        Prim::Eq => "equal_",
        _ => "not_equal_",
    }
}

/// The conditional jump of a comparison.
fn comparison_jump_instr(op: &Prim, l: String) -> (res: Instr)
    requires
        is_comp(*op),
    ensures
        instr_view(res) == comparison_jump(*op, l@),
{
    match op {
        Prim::Ge => Instruction::Jge(l),
        Prim::Eq => Instruction::Je(l),
        Prim::Neq => Instruction::Jne(l),
        Prim::Lt => Instruction::Jl(l),
        Prim::Gt => Instruction::Jg(l),
        _ => Instruction::Jle(l),
    }
}

/// The tag a float comparison yields when the second operand is larger
/// (`which == 0`), smaller (1) or equal (2).
fn comparison_value(op: &Prim, which: u32) -> (res: u64)
    requires
        is_comp(*op),
    ensures
        res == comparison_result(*op, which as int),
{
    match op {
        Prim::Ge => if which == 1 { SNAKE_TRUE } else { SNAKE_FALSE },
        Prim::Eq => if which == 2 { SNAKE_TRUE } else { SNAKE_FALSE },
        Prim::Neq => if which == 2 { SNAKE_FALSE } else { SNAKE_TRUE },
        Prim::Lt => if which == 0 { SNAKE_TRUE } else { SNAKE_FALSE },
        Prim::Gt => if which == 1 { SNAKE_TRUE } else { SNAKE_FALSE },
        _ => if which == 0 { SNAKE_TRUE } else { SNAKE_FALSE },
    }
}

/// Appends the code of a comparison, once the operands are loaded.
fn comp_op(op: &Prim, ann: &u32, offset: i32, instr: &mut Vec<Instr>)
    requires
        is_comp(*op),
    ensures
        instrs_view(final(instr)@) == instrs_view(old(instr)@) + comp_op_v(*op, *ann, offset),
{
    let l = label(comparison_prefix(op), *ann);
    let mut instr1 = one(Instruction::Cmp(BinArgs::ToReg(Reg::Rax, Arg32::Reg(Reg::R8))));
    emit(&mut instr1, Instruction::Mov(MovArgs::ToReg(Reg::Rax, Arg64::Unsigned(SNAKE_TRUE))));
    emit(&mut instr1, comparison_jump_instr(op, l.clone()));
    emit(&mut instr1, Instruction::Mov(MovArgs::ToReg(Reg::Rax, Arg64::Unsigned(SNAKE_FALSE))));
    emit(&mut instr1, Instruction::Label(l));
    let larger = one(Instruction::Mov(MovArgs::ToReg(Reg::Rax, Arg64::Unsigned(comparison_value(op, 0)))));
    let smaller = one(Instruction::Mov(MovArgs::ToReg(Reg::Rax, Arg64::Unsigned(comparison_value(op, 1)))));
    let equal = one(Instruction::Mov(MovArgs::ToReg(Reg::Rax, Arg64::Unsigned(comparison_value(op, 2)))));
    let instr2 = compare_floats(
        (&larger, label("logic_larger_", *ann)),
        (&smaller, label("logic_smaller_", *ann)),
        (&equal, label("logic_equal_", *ann)),
        label("cmp_done_", *ann),
        2,
    );
    let ghost lv = lbl(comparison_stem(*op), *ann);
    assert(instrs_view(instr1@) =~= seq![
        Instruction::Cmp(BinArgs::ToReg(Reg::Rax, Arg32::Reg(Reg::R8))),
        movr(Reg::Rax, Arg64::Unsigned(SNAKE_TRUE)),
        comparison_jump(*op, lv),
        movr(Reg::Rax, Arg64::Unsigned(SNAKE_FALSE)),
        Instruction::Label(lv),
    ]);
    binop(&instr1, &instr2, ann, offset, instr);
}

/// Appends the code of a comparison primitive.
fn comp_prim(op: &Prim, exps: &Vec<ImmExp>, ann: &u32, env: &Vec<String>, instr: &mut Vec<Instr>)
    requires
        is_comp(*op),
        operands_ok(imms_view(exps@), names_view(env@)),
        slot_ok(env@.len() as int),
    ensures
        instrs_view(final(instr)@) == instrs_view(old(instr)@) + comp_prim_v(*op, imms_view(exps@), *ann, names_view(env@)),
{
    let ghost old_v = instrs_view(instr@);
    let offset = slot_offset(env.len());
    load_operands(exps, env, COMP_ERROR, false, instr);
    comp_op(op, ann, offset, instr);
    assert(names_view(env@).len() == env@.len());
    assert(instrs_view(instr@) =~= old_v + comp_prim_v(*op, imms_view(exps@), *ann, names_view(env@)));
}

/// Appends a type test of the value in `rax`.
fn type_test(mask: u64, expected: u32, done: String, instr: &mut Vec<Instr>)
    ensures
        instrs_view(final(instr)@) == instrs_view(old(instr)@) + type_test_v(mask, expected, done@),
{
    let ghost old_v = instrs_view(instr@);
    emit(instr, Instruction::Mov(MovArgs::ToReg(Reg::R9, Arg64::Unsigned(mask))));
    emit(instr, Instruction::And(BinArgs::ToReg(Reg::R9, Arg32::Reg(Reg::Rax))));
    emit(instr, Instruction::Cmp(BinArgs::ToReg(Reg::R9, Arg32::Unsigned(expected))));
    emit(instr, Instruction::Mov(MovArgs::ToReg(Reg::Rax, Arg64::Unsigned(SNAKE_TRUE))));
    emit(instr, Instruction::Jz(done.clone()));
    emit(instr, Instruction::Mov(MovArgs::ToReg(Reg::Rax, Arg64::Unsigned(SNAKE_FALSE))));
    emit(instr, Instruction::Label(done));
    assert(instrs_view(instr@) =~= old_v + type_test_v(mask, expected, done@));
}

/// Appends the code of `print` and of the type tests.
fn other_prim(op: &Prim, exps: &Vec<ImmExp>, env: &Vec<String>, instr: &mut Vec<Instr>, ann: &u32, space: i32)
    requires
        !is_arith(*op) && !is_comp(*op) && !is_logic(*op),
        prim_ok(*op, imms_view(exps@), names_view(env@), space),
    ensures
        instrs_view(final(instr)@) == instrs_view(old(instr)@) + other_prim_v(*op, imms_view(exps@), names_view(env@), *ann, space),
{
    let ghost old_v = instrs_view(instr@);
    match op {
        Prim::Print => {
            assert(imms_view(exps@)[0] == imm_view(exps@[0]));
            immexp_instrs(&exps[0], env, instr);
            let s8: i32 = 8 * space;
            emit(instr, Instruction::Mov(MovArgs::ToReg(Reg::Rdi, Arg64::Reg(Reg::Rax))));
            emit(instr, Instruction::Sub(BinArgs::ToReg(Reg::Rsp, Arg32::Signed(s8))));
            emit(instr, Instruction::Call(String::from_str("print_snake_val")));
            emit(instr, Instruction::Add(BinArgs::ToReg(Reg::Rsp, Arg32::Signed(s8))));
        },
        Prim::IsNum => type_test(1, 0, label("isnum_done_", *ann), instr),
        Prim::IsBool => type_test(3, 3, label("isbool_done_", *ann), instr),
        _ => type_test(3, 1, label("isfloat_done_", *ann), instr),
    }
    assert(instrs_view(instr@) =~= old_v + other_prim_v(*op, imms_view(exps@), names_view(env@), *ann, space));
}

/// Appends the code of a primitive operation.
fn prim_instrs(op: &Prim, exps: &Vec<ImmExp>, ann: &u32, env: &Vec<String>, instr: &mut Vec<Instr>, space: i32)
    requires
        prim_ok(*op, imms_view(exps@), names_view(env@), space),
    ensures
        instrs_view(final(instr)@) == instrs_view(old(instr)@) + prim_v(*op, imms_view(exps@), *ann, names_view(env@), space),
{
    assert(names_view(env@).len() == env@.len());
    match op {
        Prim::Add1 | Prim::Sub1 | Prim::Add | Prim::Sub | Prim::Mul | Prim::Div | Prim::FloorDiv | Prim::Cos
        | Prim::Sqrt => arith_prim(op, exps, ann, env, instr),
        Prim::Lt | Prim::Gt | Prim::Le | Prim::Ge | Prim::Eq | Prim::Neq => comp_prim(op, exps, ann, env, instr),
        Prim::And | Prim::Or | Prim::Not => logic_prim(op, exps, env, instr),
        _ => other_prim(op, exps, env, instr, ann, space),
    }
}


/// Appends the copying of the variables `srcs` (found in `env`) to the
/// slots `base`, `base + 1`, ...
fn moves(srcs: &Vec<String>, env: &Vec<String>, base: i64, instr: &mut Vec<Instr>)
    requires
        moves_ok(names_view(srcs@), names_view(env@), base as int),
    ensures
        instrs_view(final(instr)@) == instrs_view(old(instr)@) + moves_v(names_view(srcs@), names_view(env@), base as int),
{
    let ghost old_v = instrs_view(instr@);
    let ghost ss = names_view(srcs@);
    let ghost nv = names_view(env@);
    let mut k: usize = 0;
    assert(ss.take(0) =~= Seq::<Name>::empty());
    assert(instrs_view(instr@) =~= old_v + moves_v(ss.take(0), nv, base as int));
    while k < srcs.len()
        invariant
            k <= srcs.len(),
            ss == names_view(srcs@),
            nv == names_view(env@),
            moves_ok(ss, nv, base as int),
            instrs_view(instr@) == old_v + moves_v(ss.take(k as int), nv, base as int),
        decreases srcs.len() - k,
    {
        assert(ss[k as int] == srcs@[k as int]@);
        assert(var_ok(nv, ss[k as int]) && times8_ok(base + k + 1));
        let src = slot_offset(position(env, &srcs[k]).unwrap());
        let d: i128 = -8 * (base as i128 + k as i128 + 1);
        let dst: i32 = d as i32;
        emit(instr, Instruction::Mov(MovArgs::ToReg(Reg::Rax, Arg64::Mem(mem(src)))));
        emit(instr, Instruction::Mov(MovArgs::ToMem(mem(dst), Reg32::Reg(Reg::Rax))));
        proof {
            let t = ss.take(k + 1);
            assert(t.drop_last() =~= ss.take(k as int));
            assert(t.last() == ss[k as int]);
            assert(dst == slot(base + t.len() - 1));
        }
        k += 1;
        assert(instrs_view(instr@) =~= old_v + moves_v(ss.take(k as int), nv, base as int));
    }
    assert(ss.take(srcs.len() as int) =~= ss);
}

/// The names of the arguments of a call, all variables.
fn arg_name_list(args: &Vec<ImmExp>) -> (res: Vec<String>)
    requires
        all_vars(imms_view(args@)),
    ensures
        names_view(res@) == arg_names(imms_view(args@)),
{
    let mut res: Vec<String> = Vec::new();
    let mut i: usize = 0;
    while i < args.len()
        invariant
            i <= args.len(),
            all_vars(imms_view(args@)),
            names_view(res@) =~= arg_names(imms_view(args@)).take(i as int),
        decreases args.len() - i,
    {
        assert(imms_view(args@)[i as int] == imm_view(args@[i as int]));
        match &args[i] {
            ImmExp::Var(x) => {
                let ghost prev = res@;
                assert(arg_names(imms_view(args@))[i as int] == x@);
                res.push(x.clone());
                assert(names_view(res@) =~= names_view(prev).push(x@));
            },
            _ => vstd::pervasive::unreached(),
        }
        assert(names_view(res@) =~= arg_names(imms_view(args@)).take(i + 1));
        i += 1;
    }
    res
}

/// Looks up the captured variables of `f`, which must be known.
fn captured_of<'a>(f: &String, fun_to_env: &'a NameMap<Vec<String>>) -> (res: &'a Vec<String>)
    requires
        fun_to_env@.contains_key(f@),
    ensures
        names_view(res@) == fun_to_env@[f@],
{
    let e = fun_to_env.get(f).unwrap();
    proof { crate::lambda_lift::lemma_names_deep_view(*e); }
    e
}

/// Appends a tail call (see `incall_v`).
fn incall_instr(
    fun_name: &String,
    args: &Vec<ImmExp>,
    env: &Vec<String>,
    instr: &mut Vec<Instr>,
    fun_to_env: &NameMap<Vec<String>>,
)
    requires
        incall_ok(fun_name@, imms_view(args@), names_view(env@), fun_to_env@),
    ensures
        instrs_view(final(instr)@) == instrs_view(old(instr)@) + incall_v(fun_name@, imms_view(args@), names_view(env@), fun_to_env@),
{
    let ghost old_v = instrs_view(instr@);
    let e = captured_of(fun_name, fun_to_env);
    moves(e, env, 0, instr);
    let names = arg_name_list(args);
    let base: i64 = e.len() as i64;
    moves(&names, env, base, instr);
    emit(instr, Instruction::Jmp(fun_name.clone()));
    assert(instrs_view(instr@) =~= old_v + incall_v(fun_name@, imms_view(args@), names_view(env@), fun_to_env@));
}

/// Appends a call: a tail call, or a call below the current frame.
fn excall_instr(
    fun_name: &String,
    args: &Vec<ImmExp>,
    is_tail: &bool,
    env: &Vec<String>,
    instr: &mut Vec<Instr>,
    space: i32,
    fun_to_env: &NameMap<Vec<String>>,
)
    requires
        if *is_tail {
            incall_ok(fun_name@, imms_view(args@), names_view(env@), fun_to_env@)
        } else {
            excall_ok(fun_name@, imms_view(args@), names_view(env@), space, fun_to_env@)
        },
    ensures
        instrs_view(final(instr)@) == instrs_view(old(instr)@) + if *is_tail {
            incall_v(fun_name@, imms_view(args@), names_view(env@), fun_to_env@)
        } else {
            excall_v(fun_name@, imms_view(args@), names_view(env@), space, fun_to_env@)
        },
{
    if *is_tail {
        incall_instr(fun_name, args, env, instr, fun_to_env);
    } else {
        let ghost old_v = instrs_view(instr@);
        let e = captured_of(fun_name, fun_to_env);
        let base: i64 = space as i64 + 1;
        moves(e, env, base, instr);
        let names = arg_name_list(args);
        let base2: i64 = base + e.len() as i64;
        moves(&names, env, base2, instr);
        let s8: i32 = 8 * space;
        emit(instr, Instruction::Sub(BinArgs::ToReg(Reg::Rsp, Arg32::Signed(s8))));
        emit(instr, Instruction::Call(fun_name.clone()));
        emit(instr, Instruction::Add(BinArgs::ToReg(Reg::Rsp, Arg32::Signed(s8))));
        assert(instrs_view(instr@) =~= old_v + excall_v(fun_name@, imms_view(args@), names_view(env@), space, fun_to_env@));
    }
}


/// Appends a `let`: the bound expression, its store, then the body with the
/// variable bound.
fn let_instrs(
    var: &String,
    bound_exp: &Box<SeqExp<u32>>,
    body: &Box<SeqExp<u32>>,
    env: &Vec<String>,
    instr: &mut Vec<Instr>,
    space: i32,
    fun_to_env: &NameMap<Vec<String>>,
)
    requires
        cwe_ok(seq_view(**bound_exp), names_view(env@), space, fun_to_env@),
        slot_ok(let_slot(names_view(env@), var@)),
        cwe_ok(seq_view(**body), bind_env(names_view(env@), var@), space, fun_to_env@),
    ensures
        instrs_view(final(instr)@) == instrs_view(old(instr)@) + cwe_v(seq_view(**bound_exp), names_view(env@), space, fun_to_env@)
            + seq![movm(rsp(slot(let_slot(names_view(env@), var@))), Reg::Rax)]
            + cwe_v(seq_view(**body), bind_env(names_view(env@), var@), space, fun_to_env@),
    decreases seq_size(seq_view(**bound_exp)) + seq_size(seq_view(**body)) + 1, 0nat,
{
    let ghost old_v = instrs_view(instr@);
    let ghost nv = names_view(env@);
    emit_all(instr, compile_with_env(bound_exp, copy_names(env), space, fun_to_env));
    let off = match position(env, var) {
        Some(n) => slot_offset(n),
        None => {
            proof { lemma_first_index(nv, var@); }
            slot_offset(env.len())
        },
    };
    emit(instr, Instruction::Mov(MovArgs::ToMem(mem(off), Reg32::Reg(Reg::Rax))));
    let mut new_env = copy_names(env);
    proof { lemma_first_index(nv, var@); }
    if !contains_name(&new_env, var) {
        let ghost prev = new_env@;
        new_env.push(var.clone());
        assert(names_view(new_env@) =~= names_view(prev).push(var@));
    }
    assert(names_view(new_env@) == bind_env(nv, var@));
    emit_all(instr, compile_with_env(body, new_env, space, fun_to_env));
    assert(instrs_view(instr@) =~= old_v + cwe_v(seq_view(**bound_exp), nv, space, fun_to_env@)
        + seq![movm(rsp(slot(let_slot(nv, var@))), Reg::Rax)]
        + cwe_v(seq_view(**body), bind_env(nv, var@), space, fun_to_env@));
}

/// Appends a conditional: the test, the two branches, and their labels.
fn if_instrs(
    cond: &ImmExp,
    thn: &Box<SeqExp<u32>>,
    els: &Box<SeqExp<u32>>,
    ann: &u32,
    env: &Vec<String>,
    instr: &mut Vec<Instr>,
    space: i32,
    fun_to_env: &NameMap<Vec<String>>,
)
    requires
        imm_ok(imm_view(*cond), names_view(env@)),
        cwe_ok(seq_view(**thn), names_view(env@), space, fun_to_env@),
        cwe_ok(seq_view(**els), names_view(env@), space, fun_to_env@),
    ensures
        instrs_view(final(instr)@) == instrs_view(old(instr)@) + imm_instrs_v(imm_view(*cond), names_view(env@))
            + check_bool_v(Reg::Rax, IF_ERROR, true) + seq![
                movr(Reg::R8, Arg64::Unsigned(SNAKE_FALSE)),
                Instruction::Cmp(BinArgs::ToReg(Reg::Rax, Arg32::Reg(Reg::R8))),
                Instruction::Je(lbl("else_"@, *ann)),
            ] + cwe_v(seq_view(**thn), names_view(env@), space, fun_to_env@)
            + seq![Instruction::Jmp(lbl("end_"@, *ann)), Instruction::Label(lbl("else_"@, *ann))]
            + cwe_v(seq_view(**els), names_view(env@), space, fun_to_env@)
            + seq![Instruction::Label(lbl("end_"@, *ann))],
    decreases seq_size(seq_view(**thn)) + seq_size(seq_view(**els)) + 1, 0nat,
{
    immexp_instrs(cond, env, instr);
    emit_all(instr, check_bool(Reg::Rax, IF_ERROR, true));
    let ghost v1 = instrs_view(instr@);
    emit(instr, Instruction::Mov(MovArgs::ToReg(Reg::R8, Arg64::Unsigned(SNAKE_FALSE))));
    emit(instr, Instruction::Cmp(BinArgs::ToReg(Reg::Rax, Arg32::Reg(Reg::R8))));
    emit(instr, Instruction::Je(label("else_", *ann)));
    let ghost v2 = instrs_view(instr@);
    assert(v2 =~= v1 + seq![
        movr(Reg::R8, Arg64::Unsigned(SNAKE_FALSE)),
        Instruction::Cmp(BinArgs::ToReg(Reg::Rax, Arg32::Reg(Reg::R8))),
        Instruction::Je(lbl("else_"@, *ann)),
    ]);
    let t = compile_with_env(thn, copy_names(env), space, fun_to_env);
    emit_all(instr, t);
    let ghost v3 = instrs_view(instr@);
    emit(instr, Instruction::Jmp(label("end_", *ann)));
    emit(instr, Instruction::Label(label("else_", *ann)));
    let ghost v4 = instrs_view(instr@);
    assert(v4 =~= v3 + seq![Instruction::Jmp(lbl("end_"@, *ann)), Instruction::Label(lbl("else_"@, *ann))]);
    let f = compile_with_env(els, copy_names(env), space, fun_to_env);
    emit_all(instr, f);
    let ghost v5 = instrs_view(instr@);
    emit(instr, Instruction::Label(label("end_", *ann)));
    assert(instrs_view(instr@) =~= v5 + seq![Instruction::Label(lbl("end_"@, *ann))]);
}

/// The environment of a function body: its captured variables, then its
/// parameters not already among them.
fn params_env(captured: &Vec<String>, params: &Vec<String>) -> (res: Vec<String>)
    ensures
        names_view(res@) == add_params(names_view(captured@), names_view(params@)),
{
    let ghost cv = names_view(captured@);
    let ghost pv = names_view(params@);
    let mut new_env = copy_names(captured);
    let mut j: usize = 0;
    assert(pv.take(0) =~= Seq::<Name>::empty());
    while j < params.len()
        invariant
            j <= params.len(),
            pv == names_view(params@),
            names_view(new_env@) == add_params(cv, pv.take(j as int)),
        decreases params.len() - j,
    {
        assert(pv.take(j + 1).drop_last() =~= pv.take(j as int));
        assert(pv.take(j + 1).last() == params@[j as int]@);
        if !contains_name(&new_env, &params[j]) {
            let ghost prev = new_env@;
            new_env.push(params[j].clone());
            assert(names_view(new_env@) =~= names_view(prev).push(params@[j as int]@));
        }
        j += 1;
    }
    assert(pv.take(params.len() as int) =~= pv);
    new_env
}

/// Appends local function definitions: a jump over them, each body after
/// its label and followed by a return, then the main body.
fn fundefs_instr(
    decls: &Vec<SeqFunDecl<u32>>,
    body: &Box<SeqExp<u32>>,
    env: &Vec<String>,
    instr: &mut Vec<Instr>,
    ann: &u32,
    space: i32,
    fun_to_env: &NameMap<Vec<String>>,
)
    requires
        cwe_decls_ok(seq_decls_view(decls@), space, fun_to_env@),
        cwe_ok(seq_view(**body), names_view(env@), space, fun_to_env@),
    ensures
        instrs_view(final(instr)@) == instrs_view(old(instr)@) + seq![Instruction::Jmp(lbl("funend_"@, *ann))]
            + cwe_decls_v(seq_decls_view(decls@), space, fun_to_env@) + seq![Instruction::Label(lbl("funend_"@, *ann))]
            + cwe_v(seq_view(**body), names_view(env@), space, fun_to_env@),
    decreases decls_size(seq_decls_view(decls@)) + seq_size(seq_view(**body)) + 1, 0nat,
{
    let ghost ds = seq_decls_view(decls@);
    let ghost fenv = fun_to_env@;
    emit(instr, Instruction::Jmp(label("funend_", *ann)));
    let ghost start = instrs_view(instr@);
    let mut i: usize = 0;
    assert(ds.take(0) =~= Seq::<DeclV<SeqExpV<u32>, u32>>::empty());
    assert(instrs_view(instr@) =~= start + cwe_decls_v(ds.take(0), space, fenv));
    while i < decls.len()
        invariant
            i <= decls.len(),
            ds == seq_decls_view(decls@),
            fenv == fun_to_env@,
            cwe_decls_ok(ds, space, fenv),
            instrs_view(instr@) == start + cwe_decls_v(ds.take(i as int), space, fenv),
            decls_size(ds) + seq_size(seq_view(**body)) + 1 > decls_size(ds),
        decreases decls.len() - i,
    {
        proof {
            crate::syntax::lemma_seq_decls_view(decls@);
            lemma_cwe_decls_ok(ds, i as int, space, fenv);
            lemma_decls_size(ds, i as int);
            assert(ds.take(i + 1).drop_last() =~= ds.take(i as int));
            assert(ds.take(i + 1).last() == ds[i as int]);
        }
        let decl = &decls[i];
        emit(instr, Instruction::Label(decl.name.clone()));
        let captured = captured_of(&decl.name, fun_to_env);
        let new_env = params_env(captured, &decl.parameters);
        emit_all(instr, compile_with_env(&decl.body, new_env, space, fun_to_env));
        emit(instr, Instruction::Ret);
        i += 1;
        assert(instrs_view(instr@) =~= start + cwe_decls_v(ds.take(i as int), space, fenv));
    }
    proof { crate::syntax::lemma_seq_decls_view(decls@); }
    assert(ds.take(decls.len() as int) =~= ds);
    emit(instr, Instruction::Label(label("funend_", *ann)));
    emit_all(instr, compile_with_env(body, copy_names(env), space, fun_to_env));
}

/// Compiles a tagged sequential expression whose variables live in the
/// slots of `env` below the stack pointer; `space` is the frame size and
/// `fun_to_env` gives each local function's captured variables.
pub fn compile_with_env(
    e: &SeqExp<u32>,
    env: Vec<String>,
    space: i32,
    fun_to_env: &NameMap<Vec<String>>,
) -> (res: Vec<Instr>)
    requires
        cwe_ok(seq_view(*e), names_view(env@), space, fun_to_env@),
    ensures
        instrs_view(res@) == cwe_v(seq_view(*e), names_view(env@), space, fun_to_env@),
        calls_framed(instrs_view(res@), space),
        jumps_resolved(instrs_view(res@), instrs_view(res@), fun_to_env@),
    decreases seq_size(seq_view(*e)), 1nat,
{
    proof {
        lemma_calls_framed(seq_view(*e), names_view(env@), space, fun_to_env@);
        lemma_jumps_resolved(seq_view(*e), names_view(env@), space, fun_to_env@);
    }
    let mut instr: Vec<Instr> = Vec::new();
    match e {
        SeqExp::Imm(ie, _) => {
            immexp_instrs(ie, &env, &mut instr);
        },
        SeqExp::Let { var, bound_exp, body, .. } => {
            let_instrs(var, bound_exp, body, &env, &mut instr, space, fun_to_env);
        },
        SeqExp::If { cond, thn, els, ann } => {
            if_instrs(cond, thn, els, ann, &env, &mut instr, space, fun_to_env);
        },
        SeqExp::Prim(op, exps, ann) => {
            prim_instrs(op, exps, ann, &env, &mut instr, space);
        },
        SeqExp::InternalTailCall(fun_name, args, _) => {
            incall_instr(fun_name, args, &env, &mut instr, fun_to_env);
        },
        SeqExp::ExternalCall { fun_name, args, is_tail, .. } => {
            excall_instr(fun_name, args, is_tail, &env, &mut instr, space, fun_to_env);
        },
        SeqExp::FunDefs { decls, body, ann } => {
            fundefs_instr(decls, body, &env, &mut instr, ann, space, fun_to_env);
        },
    }
    assert(instrs_view(instr@) =~= cwe_v(seq_view(*e), names_view(env@), space, fun_to_env@));
    instr
}

} // verus!

verus! {

proof fn lemma_first_index_push(s: Seq<Name>, a: Name, y: Name)
    ensures
        first_index(s.push(a), y) == if first_index(s, y) >= 0 {
            first_index(s, y)
        } else if a == y {
            s.len() as int
        } else {
            -1
        },
    decreases s.len(),
{
    let t = s.push(a);
    if s.len() > 0 {
        assert(t.drop_first() =~= s.drop_first().push(a));
        assert(t[0] == s[0]);
        lemma_first_index_push(s.drop_first(), a, y);
    } else {
        assert(t.drop_first() =~= Seq::<Name>::empty());
        assert(first_index(t.drop_first(), y) == -1);
        assert(t[0] == a);
    }
}

/// A variable bound by a let is read back from the slot the let stores it
/// in, and the binding moves no other variable.
pub proof fn lemma_let_slot_read_back(env: Seq<Name>, x: Name, y: Name)
    ensures
        first_index(bind_env(env, x), x) == let_slot(env, x),
        y != x ==> first_index(bind_env(env, x), y) == first_index(env, y),
{
    lemma_first_index(env, x);
    lemma_first_index_push(env, x, x);
    lemma_first_index_push(env, x, y);
}

} // verus!

verus! {

proof fn lemma_first_index_distinct(s: Seq<Name>, i: int)
    requires
        s.no_duplicates(),
        0 <= i < s.len(),
    ensures
        first_index(s, s[i]) == i,
{
    lemma_first_index(s, s[i]);
    assert(s.contains(s[i]));
    let k = first_index(s, s[i]);
    if k < i {
        assert(s[k] == s[i]);
    }
}

proof fn lemma_add_params_fresh(e: Seq<Name>, ps: Seq<Name>)
    requires
        ps.no_duplicates(),
        forall|j: int| 0 <= j < ps.len() ==> !e.contains(#[trigger] ps[j]),
    ensures
        add_params(e, ps) == e + ps,
    decreases ps.len(),
{
    if ps.len() > 0 {
        let init = ps.drop_last();
        assert forall|j: int, k: int| 0 <= j < k < init.len() implies init[j] != init[k] by {
            assert(init[j] == ps[j] && init[k] == ps[k]);
        }
        assert forall|j: int| 0 <= j < init.len() implies !e.contains(#[trigger] init[j]) by {
            assert(init[j] == ps[j]);
        }
        lemma_add_params_fresh(e, init);
        if (e + init).contains(ps.last()) {
            let k = choose|k: int| 0 <= k < (e + init).len() && (e + init)[k] == ps.last();
            if k < e.len() {
                assert(e[k] == ps.last());
                assert(e.contains(ps[ps.len() - 1]));
            } else {
                assert(ps[k - e.len()] == ps[ps.len() - 1]);
            }
        }
        assert((e + init).push(ps.last()) =~= e + ps);
    } else {
        assert(e + ps =~= e);
    }
}

/// The calling convention agrees with the callee: when the captured
/// variables are distinct and the parameters are distinct and fresh, a
/// function body finds captured variable `k` in slot `k` and parameter `j`
/// in slot `e.len() + j`, the slots a call copies them to (see `incall_v`
/// and `moves_v`).
pub proof fn lemma_call_slots_match(e: Seq<Name>, ps: Seq<Name>)
    requires
        e.no_duplicates(),
        ps.no_duplicates(),
        forall|j: int| 0 <= j < ps.len() ==> !e.contains(#[trigger] ps[j]),
    ensures
        add_params(e, ps) == e + ps,
        forall|k: int| 0 <= k < e.len() ==> first_index(add_params(e, ps), #[trigger] e[k]) == k,
        forall|j: int| 0 <= j < ps.len() ==> first_index(add_params(e, ps), #[trigger] ps[j]) == e.len() + j,
{
    lemma_add_params_fresh(e, ps);
    let s = e + ps;
    assert forall|a: int, b: int| 0 <= a < b < s.len() implies s[a] != s[b] by {
        if b < e.len() {
        } else if a >= e.len() {
            assert(s[a] == ps[a - e.len()] && s[b] == ps[b - e.len()]);
        } else {
            assert(s[b] == ps[b - e.len()]);
            if s[a] == s[b] {
                assert(e[a] == ps[b - e.len()]);
                assert(e.contains(ps[b - e.len()]));
            }
        }
    }
    assert forall|k: int| 0 <= k < e.len() implies first_index(add_params(e, ps), #[trigger] e[k]) == k by {
        assert(s[k] == e[k]);
        lemma_first_index_distinct(s, k);
    }
    assert forall|j: int| 0 <= j < ps.len() implies first_index(add_params(e, ps), #[trigger] ps[j]) == e.len() + j by {
        assert(s[e.len() + j] == ps[j]);
        lemma_first_index_distinct(s, e.len() + j);
    }
}

} // verus!

verus! {

/// `i` moves the stack pointer by an immediate `sub` or `add`.
pub open spec fn moves_rsp(i: InstrV) -> bool {
    match i {
        Instruction::Sub(BinArgs::ToReg(Reg::Rsp, _)) => true,
        Instruction::Add(BinArgs::ToReg(Reg::Rsp, _)) => true,
        _ => false,
    }
}

/// `i` neither calls nor moves the stack pointer.
pub open spec fn plain_instr(i: InstrV) -> bool {
    !(i is Call) && !moves_rsp(i)
}

pub open spec fn plain(s: Seq<InstrV>) -> bool {
    forall|k: int| 0 <= k < s.len() ==> plain_instr(#[trigger] s[k])
}

pub open spec fn frame_sub(space: i32) -> InstrV {
    Instruction::Sub(BinArgs::ToReg(Reg::Rsp, Arg32::Signed((8 * space) as i32)))
}

pub open spec fn frame_add(space: i32) -> InstrV {
    Instruction::Add(BinArgs::ToReg(Reg::Rsp, Arg32::Signed((8 * space) as i32)))
}

/// Every call in `s` sits right after a `sub rsp, 8 * space` and right
/// before an `add rsp, 8 * space`, and those are the only moves of the
/// stack pointer in `s`.
pub open spec fn calls_framed(s: Seq<InstrV>, space: i32) -> bool {
    forall|k: int| 0 <= k < s.len() ==> {
        &&& (#[trigger] s[k] is Call ==> 0 < k && k + 1 < s.len() && s[k - 1] == frame_sub(space) && s[k + 1] == frame_add(space))
        &&& (moves_rsp(s[k]) ==> (s[k] == frame_sub(space) && k + 1 < s.len() && s[k + 1] is Call)
            || (s[k] == frame_add(space) && 0 < k && s[k - 1] is Call))
    }
}

pub broadcast proof fn lemma_plain_empty()
    ensures
        #[trigger] plain(Seq::<InstrV>::empty()),
{
}

pub broadcast proof fn lemma_plain_push(s: Seq<InstrV>, i: InstrV)
    requires
        plain(s),
        plain_instr(i),
    ensures
        #[trigger] plain(s.push(i)),
{
    assert forall|k: int| 0 <= k < s.push(i).len() implies plain_instr(#[trigger] s.push(i)[k]) by {
        if k < s.len() {
            assert(s.push(i)[k] == s[k]);
        }
    }
}

pub broadcast proof fn lemma_plain_concat(a: Seq<InstrV>, b: Seq<InstrV>)
    requires
        plain(a),
        plain(b),
    ensures
        #[trigger] plain(a + b),
{
    assert forall|k: int| 0 <= k < (a + b).len() implies plain_instr(#[trigger] (a + b)[k]) by {
        if k >= a.len() {
            assert((a + b)[k] == b[k - a.len()]);
        }
    }
}

pub broadcast group group_plain {
    lemma_plain_empty,
    lemma_plain_push,
    lemma_plain_concat,
}

proof fn lemma_plain_framed(s: Seq<InstrV>, space: i32)
    requires
        plain(s),
    ensures
        calls_framed(s, space),
{
    assert forall|k: int| 0 <= k < s.len() implies {
        &&& (#[trigger] s[k] is Call ==> 0 < k && k + 1 < s.len() && s[k - 1] == frame_sub(space) && s[k + 1] == frame_add(space))
        &&& (moves_rsp(s[k]) ==> (s[k] == frame_sub(space) && k + 1 < s.len() && s[k + 1] is Call)
            || (s[k] == frame_add(space) && 0 < k && s[k - 1] is Call))
    } by {
        assert(plain_instr(s[k]));
    }
}

proof fn lemma_framed_concat(a: Seq<InstrV>, b: Seq<InstrV>, space: i32)
    requires
        calls_framed(a, space),
        calls_framed(b, space),
    ensures
        calls_framed(a + b, space),
{
    let s = a + b;
    assert forall|k: int| 0 <= k < s.len() implies {
        &&& (#[trigger] s[k] is Call ==> 0 < k && k + 1 < s.len() && s[k - 1] == frame_sub(space) && s[k + 1] == frame_add(space))
        &&& (moves_rsp(s[k]) ==> (s[k] == frame_sub(space) && k + 1 < s.len() && s[k + 1] is Call)
            || (s[k] == frame_add(space) && 0 < k && s[k - 1] is Call))
    } by {
        if k < a.len() {
            assert(s[k] == a[k]);
            if a[k] is Call || moves_rsp(a[k]) {
                if k > 0 { assert(s[k - 1] == a[k - 1]); }
                if k + 1 < a.len() { assert(s[k + 1] == a[k + 1]); }
            }
        } else {
            let j = k - a.len();
            assert(s[k] == b[j]);
            if b[j] is Call || moves_rsp(b[j]) {
                if j > 0 { assert(s[k - 1] == b[j - 1]); }
                if j + 1 < b.len() { assert(s[k + 1] == b[j + 1]); }
            }
        }
    }
}

proof fn lemma_call_framed(pre: Seq<InstrV>, f: Seq<char>, space: i32)
    requires
        plain(pre),
    ensures
        calls_framed(pre + seq![frame_sub(space), Instruction::Call(f), frame_add(space)], space),
{
    let c = seq![frame_sub(space), Instruction::Call(f), frame_add(space)];
    assert(calls_framed(c, space)) by {
        assert forall|k: int| 0 <= k < c.len() implies {
            &&& (#[trigger] c[k] is Call ==> 0 < k && k + 1 < c.len() && c[k - 1] == frame_sub(space) && c[k + 1] == frame_add(space))
            &&& (moves_rsp(c[k]) ==> (c[k] == frame_sub(space) && k + 1 < c.len() && c[k + 1] is Call)
                || (c[k] == frame_add(space) && 0 < k && c[k - 1] is Call))
        } by {
            assert(k == 0 || k == 1 || k == 2);
        }
    }
    lemma_plain_framed(pre, space);
    lemma_framed_concat(pre, c, space);
}

} // verus!

verus! {

proof fn lemma_pieces_plain(ann: u32, off: i32, reg: Reg, code: ErrorCode, b: bool, l: Seq<char>)
    requires
        reg != Reg::Rsp,
    ensures
        plain(check_bool_v(reg, code, b)),
        plain(if_float_v(reg, l)),
        plain(ld_float_from_reg_v(reg, off)),
        plain(ld_num_from_reg_v(reg, off)),
        plain(st_float_to_reg_v(reg, off)),
        plain(st_floornum_to_reg_v(reg, off)),
        plain(st_constfloat_v(reg, off as u64)),
        plain(check_float_overflow_v(ann, off)),
        plain(check_division_zero_num_v(reg, ann)),
        plain(check_sqrt_num_v(reg, ann)),
        plain(check_division_zero_float_v(ann, off)),
        plain(check_sqrt_float_v(ann, off)),
        plain(check_overflow_v()),
        plain(error_exit_v(code)),
{
    broadcast use group_plain;
}

proof fn lemma_imm_plain(i: ImmV, env: Seq<Name>)
    ensures
        plain(imm_instrs_v(i, env)),
{
    broadcast use group_plain;
    match i {
        ImmV::Float(f) => {
            assert(plain(st_constfloat_v(Reg::Rax, f32_rounded(f.0))));
        },
        _ => {},
    }
}

proof fn lemma_dispatch_plain(i1: Seq<InstrV>, i2: Seq<InstrV>, ann: u32, off: i32)
    requires
        plain(i1),
        plain(i2),
    ensures
        plain(unaryop_v(i1, i2, ann, off)),
        plain(binop_v(i1, i2, ann, off)),
{
    lemma_unary_plain(i1, i2, ann, off);
    lemma_binary_plain(i1, i2, ann, off);
}

#[verifier::spinoff_prover]
proof fn lemma_unary_plain(i1: Seq<InstrV>, i2: Seq<InstrV>, ann: u32, off: i32)
    requires
        plain(i1),
        plain(i2),
    ensures
        plain(unaryop_v(i1, i2, ann, off)),
{
    broadcast use group_plain;
    lemma_pieces_plain(ann, off, Reg::Rax, 0, true, lbl("when_float_"@, ann));
}

#[verifier::spinoff_prover]
proof fn lemma_binary_plain(i1: Seq<InstrV>, i2: Seq<InstrV>, ann: u32, off: i32)
    requires
        plain(i1),
        plain(i2),
    ensures
        plain(binop_v(i1, i2, ann, off)),
{
    broadcast use group_plain;
    lemma_pieces_plain(ann, off, Reg::Rax, 0, true, lbl("first_float_"@, ann));
    lemma_pieces_plain(ann, off, Reg::R8, 0, true, lbl("second_float_"@, ann));
    lemma_pieces_plain(ann, off, Reg::R8, 0, true, lbl("both_floats_"@, ann));
}

proof fn lemma_compare_plain(
    larger: (Seq<InstrV>, Seq<char>),
    smaller: (Seq<InstrV>, Seq<char>),
    equal: (Seq<InstrV>, Seq<char>),
    done: Seq<char>,
    pop: u32,
)
    requires
        plain(larger.0),
        plain(smaller.0),
        plain(equal.0),
    ensures
        plain(compare_floats_v(larger, smaller, equal, done, pop)),
{
    broadcast use group_plain;
}

proof fn lemma_prim_plain(op: Prim, exps: Seq<ImmV>, ann: u32, env: Seq<Name>, space: i32)
    requires
        op != Prim::Print,
    ensures
        plain(prim_v(op, exps, ann, env, space)),
{
    broadcast use group_plain;
    let off = frame_slot(env);
    if exps.len() >= 1 {
        lemma_imm_plain(exps[0], env);
    }
    if exps.len() >= 2 {
        lemma_imm_plain(exps[1], env);
    }
    lemma_pieces_plain(ann, off, Reg::Rax, ARITH_ERROR, false, Seq::empty());
    lemma_pieces_plain(ann, off, Reg::Rax, COMP_ERROR, false, Seq::empty());
    lemma_pieces_plain(ann, off, Reg::Rax, LOGIC_ERROR, true, Seq::empty());
    lemma_pieces_plain(ann, off, Reg::R8, 0, true, Seq::empty());
    assert(plain(load_operands_v(exps, env, ARITH_ERROR, false)));
    assert(plain(load_operands_v(exps, env, COMP_ERROR, false)));
    assert(plain(load_operands_v(exps, env, LOGIC_ERROR, true)));
    if is_arith(op) {
        let stf = st_float_to_reg_v(Reg::Rax, off);
        let cfo = check_float_overflow_v(ann, off);
        lemma_dispatch_plain(seq![Instruction::Add(BinArgs::ToReg(Reg::Rax, Arg32::Signed(2)))] + check_overflow_v(),
            seq![Instruction::Fld1, Instruction::Faddp(FloatArg::Blank)], ann, off);
        lemma_dispatch_plain(seq![Instruction::Sub(BinArgs::ToReg(Reg::Rax, Arg32::Signed(2)))] + check_overflow_v(),
            seq![Instruction::Fld1, Instruction::Fsubp(FloatArg::Blank)], ann, off);
        lemma_dispatch_plain(seq![Instruction::Add(BinArgs::ToReg(Reg::Rax, Arg32::Reg(Reg::R8)))] + check_overflow_v(),
            seq![Instruction::Faddp(FloatArg::Blank)] + cfo + stf, ann, off);
        lemma_dispatch_plain(seq![Instruction::Sub(BinArgs::ToReg(Reg::Rax, Arg32::Reg(Reg::R8)))] + check_overflow_v(),
            seq![Instruction::Fsubp(FloatArg::Blank)] + cfo + stf, ann, off);
        lemma_dispatch_plain(
            seq![
                Instruction::Sar(BinArgs::ToReg(Reg::R8, Arg32::Unsigned(1))),
                Instruction::Sar(BinArgs::ToReg(Reg::Rax, Arg32::Unsigned(1))),
                Instruction::IMul(BinArgs::ToReg(Reg::Rax, Arg32::Reg(Reg::R8))),
            ] + check_overflow_v() + seq![Instruction::Shl(BinArgs::ToReg(Reg::Rax, Arg32::Unsigned(1)))],
            seq![Instruction::Fmulp(FloatArg::Blank)] + cfo + stf, ann, off);
        lemma_dispatch_plain(
            ld_num_from_reg_v(Reg::Rax, off) + ld_num_from_reg_v(Reg::R8, off) + check_division_zero_num_v(Reg::R8, ann)
                + seq![Instruction::Fdivp(FloatArg::Blank)] + stf,
            check_division_zero_float_v(ann, off) + seq![Instruction::Fdivp(FloatArg::Blank)] + cfo + stf, ann, off);
        lemma_dispatch_plain(
            ld_num_from_reg_v(Reg::Rax, off) + ld_num_from_reg_v(Reg::R8, off) + check_division_zero_num_v(Reg::R8, ann)
                + seq![Instruction::Fdivp(FloatArg::Blank)] + st_floornum_to_reg_v(Reg::Rax, off),
            check_division_zero_float_v(ann, off) + seq![Instruction::Fdivp(FloatArg::Blank)] + cfo
                + st_floornum_to_reg_v(Reg::Rax, off), ann, off);
        lemma_dispatch_plain(ld_num_from_reg_v(Reg::Rax, off) + seq![Instruction::Fcos] + stf, seq![Instruction::Fcos], ann, off);
        lemma_dispatch_plain(
            check_sqrt_num_v(Reg::Rax, ann) + ld_num_from_reg_v(Reg::Rax, off) + seq![Instruction::Fsqrt] + stf,
            check_sqrt_float_v(ann, off) + seq![Instruction::Fsqrt], ann, off);
        assert(plain(arith_op_v(op, ann, off)));
    } else if is_comp(op) {
        let l = lbl(comparison_stem(op), ann);
        lemma_compare_plain(
            (seq![movr(Reg::Rax, Arg64::Unsigned(comparison_result(op, 0)))], lbl("logic_larger_"@, ann)),
            (seq![movr(Reg::Rax, Arg64::Unsigned(comparison_result(op, 1)))], lbl("logic_smaller_"@, ann)),
            (seq![movr(Reg::Rax, Arg64::Unsigned(comparison_result(op, 2)))], lbl("logic_equal_"@, ann)),
            lbl("cmp_done_"@, ann),
            2,
        );
        lemma_dispatch_plain(
            seq![
                Instruction::Cmp(BinArgs::ToReg(Reg::Rax, Arg32::Reg(Reg::R8))),
                movr(Reg::Rax, Arg64::Unsigned(SNAKE_TRUE)),
                comparison_jump(op, l),
                movr(Reg::Rax, Arg64::Unsigned(SNAKE_FALSE)),
                Instruction::Label(l),
            ],
            compare_floats_v(
                (seq![movr(Reg::Rax, Arg64::Unsigned(comparison_result(op, 0)))], lbl("logic_larger_"@, ann)),
                (seq![movr(Reg::Rax, Arg64::Unsigned(comparison_result(op, 1)))], lbl("logic_smaller_"@, ann)),
                (seq![movr(Reg::Rax, Arg64::Unsigned(comparison_result(op, 2)))], lbl("logic_equal_"@, ann)),
                lbl("cmp_done_"@, ann),
                2,
            ),
            ann,
            off,
        );
        assert(plain(comp_op_v(op, ann, off)));
    }
}

} // verus!

verus! {

proof fn lemma_moves_plain(srcs: Seq<Name>, env: Seq<Name>, base: int)
    ensures
        plain(moves_v(srcs, env, base)),
    decreases srcs.len(),
{
    broadcast use group_plain;
    if srcs.len() > 0 {
        lemma_moves_plain(srcs.drop_last(), env, base);
    }
}

/// Every call that the code of `e` makes sits right between a
/// `sub rsp, 8 * space` and an `add rsp, 8 * space`, and the code moves
/// the stack pointer nowhere else, so `rsp` is back after each call.
pub proof fn lemma_calls_framed(e: SeqExpV<u32>, env: Seq<Name>, space: i32, fenv: Map<Name, Seq<Name>>)
    ensures
        calls_framed(cwe_v(e, env, space, fenv), space),
    decreases e,
{
    broadcast use group_plain;
    match e {
        SeqExpV::Imm(i, _) => {
            lemma_imm_plain(i, env);
            lemma_plain_framed(cwe_v(e, env, space, fenv), space);
        },
        SeqExpV::Let { var, bound_exp, body, .. } => {
            lemma_calls_framed(*bound_exp, env, space, fenv);
            lemma_calls_framed(*body, bind_env(env, var), space, fenv);
            let m = seq![movm(rsp(slot(let_slot(env, var))), Reg::Rax)];
            lemma_plain_framed(m, space);
            lemma_framed_concat(cwe_v(*bound_exp, env, space, fenv), m, space);
            lemma_framed_concat(cwe_v(*bound_exp, env, space, fenv) + m, cwe_v(*body, bind_env(env, var), space, fenv), space);
        },
        SeqExpV::If { cond, thn, els, ann } => {
            lemma_imm_plain(cond, env);
            lemma_pieces_plain(ann, 0, Reg::Rax, IF_ERROR, true, Seq::empty());
            lemma_calls_framed(*thn, env, space, fenv);
            lemma_calls_framed(*els, env, space, fenv);
            let p1 = imm_instrs_v(cond, env) + check_bool_v(Reg::Rax, IF_ERROR, true) + seq![
                movr(Reg::R8, Arg64::Unsigned(SNAKE_FALSE)),
                Instruction::Cmp(BinArgs::ToReg(Reg::Rax, Arg32::Reg(Reg::R8))),
                Instruction::Je(lbl("else_"@, ann)),
            ];
            let p2 = seq![Instruction::Jmp(lbl("end_"@, ann)), Instruction::Label(lbl("else_"@, ann))];
            let p3 = seq![Instruction::Label(lbl("end_"@, ann))];
            lemma_plain_framed(p1, space);
            lemma_plain_framed(p2, space);
            lemma_plain_framed(p3, space);
            let t = cwe_v(*thn, env, space, fenv);
            let f = cwe_v(*els, env, space, fenv);
            lemma_framed_concat(p1, t, space);
            lemma_framed_concat(p1 + t, p2, space);
            lemma_framed_concat(p1 + t + p2, f, space);
            lemma_framed_concat(p1 + t + p2 + f, p3, space);
        },
        SeqExpV::Prim(op, exps, ann) => {
            if op == Prim::Print {
                lemma_imm_plain(exps[0], env);
                let pre = imm_instrs_v(exps[0], env) + seq![movr(Reg::Rdi, Arg64::Reg(Reg::Rax))];
                lemma_call_framed(pre, "print_snake_val"@, space);
                assert(cwe_v(e, env, space, fenv) =~= pre + seq![frame_sub(space), Instruction::Call("print_snake_val"@), frame_add(space)]);
            } else {
                lemma_prim_plain(op, exps, ann, env, space);
                lemma_plain_framed(cwe_v(e, env, space, fenv), space);
            }
        },
        SeqExpV::InternalTailCall(f, args, _) => {
            lemma_moves_plain(fenv[f], env, 0);
            lemma_moves_plain(arg_names(args), env, fenv[f].len() as int);
            lemma_plain_framed(cwe_v(e, env, space, fenv), space);
        },
        SeqExpV::ExternalCall { fun_name, args, is_tail, .. } => {
            let ef = fenv[fun_name];
            if is_tail {
                lemma_moves_plain(ef, env, 0);
                lemma_moves_plain(arg_names(args), env, ef.len() as int);
                lemma_plain_framed(cwe_v(e, env, space, fenv), space);
            } else {
                lemma_moves_plain(ef, env, space + 1);
                lemma_moves_plain(arg_names(args), env, space + 1 + ef.len());
                let pre = moves_v(ef, env, space + 1) + moves_v(arg_names(args), env, space + 1 + ef.len());
                lemma_call_framed(pre, fun_name, space);
                assert(cwe_v(e, env, space, fenv) =~= pre + seq![frame_sub(space), Instruction::Call(fun_name), frame_add(space)]);
            }
        },
        SeqExpV::FunDefs { decls, body, ann } => {
            lemma_decls_calls_framed(decls, space, fenv);
            lemma_calls_framed(*body, env, space, fenv);
            let p1 = seq![Instruction::Jmp(lbl("funend_"@, ann))];
            let p2 = seq![Instruction::Label(lbl("funend_"@, ann))];
            lemma_plain_framed(p1, space);
            lemma_plain_framed(p2, space);
            let d = cwe_decls_v(decls, space, fenv);
            lemma_framed_concat(p1, d, space);
            lemma_framed_concat(p1 + d, p2, space);
            lemma_framed_concat(p1 + d + p2, cwe_v(*body, env, space, fenv), space);
        },
    }
}

proof fn lemma_decls_calls_framed(ds: Seq<DeclV<SeqExpV<u32>, u32>>, space: i32, fenv: Map<Name, Seq<Name>>)
    ensures
        calls_framed(cwe_decls_v(ds, space, fenv), space),
    decreases ds,
{
    broadcast use group_plain;
    if ds.len() == 0 {
        lemma_plain_framed(Seq::empty(), space);
    } else {
        let d = ds.last();
        lemma_decls_calls_framed(ds.drop_last(), space, fenv);
        lemma_calls_framed(d.body, add_params(fenv[d.name], d.parameters), space, fenv);
        let l = seq![Instruction::Label(d.name)];
        let r = seq![Instruction::Ret];
        lemma_plain_framed(l, space);
        lemma_plain_framed(r, space);
        let prev = cwe_decls_v(ds.drop_last(), space, fenv);
        let b = cwe_v(d.body, add_params(fenv[d.name], d.parameters), space, fenv);
        lemma_framed_concat(prev, l, space);
        lemma_framed_concat(prev + l, b, space);
        lemma_framed_concat(prev + l + b, r, space);
    }
}

} // verus!

verus! {

/// The label a jump goes to.
pub open spec fn jump_target(i: InstrV) -> Option<Seq<char>> {
    match i {
        Instruction::Jmp(l) => Some(l),
        Instruction::Je(l) => Some(l),
        Instruction::Jne(l) => Some(l),
        Instruction::Jl(l) => Some(l),
        Instruction::Jle(l) => Some(l),
        Instruction::Jg(l) => Some(l),
        Instruction::Jge(l) => Some(l),
        Instruction::Jz(l) => Some(l),
        Instruction::Jo(l) => Some(l),
        _ => None,
    }
}

/// `s` defines the label `l`.
pub open spec fn has_label(s: Seq<InstrV>, l: Seq<char>) -> bool {
    exists|k: int| 0 <= k < s.len() && s[k] == Instruction::<Seq<char>>::Label(l)
}

/// If `i` jumps, it goes to `snake_error`, to a function of `fenv`, or to a
/// label that `w` defines.
pub open spec fn target_ok(i: InstrV, w: Seq<InstrV>, fenv: Map<Name, Seq<Name>>) -> bool {
    match jump_target(i) {
        Some(l) => l == snake_error() || fenv.contains_key(l) || has_label(w, l),
        None => true,
    }
}

/// Every jump of `s` goes to `snake_error`, a function of `fenv`, or a label of `w`.
pub open spec fn jumps_resolved(s: Seq<InstrV>, w: Seq<InstrV>, fenv: Map<Name, Seq<Name>>) -> bool {
    forall|k: int| 0 <= k < s.len() ==> target_ok(#[trigger] s[k], w, fenv)
}

pub broadcast proof fn lemma_has_label_concat(a: Seq<InstrV>, b: Seq<InstrV>, l: Seq<char>)
    ensures
        #[trigger] has_label(a + b, l) == (has_label(a, l) || has_label(b, l)),
{
    if has_label(a, l) {
        let k = choose|k: int| 0 <= k < a.len() && a[k] == Instruction::<Seq<char>>::Label(l);
        assert((a + b)[k] == a[k]);
    }
    if has_label(b, l) {
        let k = choose|k: int| 0 <= k < b.len() && b[k] == Instruction::<Seq<char>>::Label(l);
        assert((a + b)[a.len() + k] == b[k]);
    }
    if has_label(a + b, l) {
        let k = choose|k: int| 0 <= k < (a + b).len() && (a + b)[k] == Instruction::<Seq<char>>::Label(l);
        if k < a.len() {
            assert(a[k] == (a + b)[k]);
        } else {
            assert(b[k - a.len()] == (a + b)[k]);
        }
    }
}

pub broadcast proof fn lemma_has_label_push(s: Seq<InstrV>, i: InstrV, l: Seq<char>)
    ensures
        #[trigger] has_label(s.push(i), l) == (has_label(s, l) || i == Instruction::<Seq<char>>::Label(l)),
{
    if has_label(s, l) {
        let k = choose|k: int| 0 <= k < s.len() && s[k] == Instruction::<Seq<char>>::Label(l);
        assert(s.push(i)[k] == s[k]);
    }
    if i == Instruction::<Seq<char>>::Label(l) {
        assert(s.push(i)[s.len() as int] == i);
    }
    if has_label(s.push(i), l) {
        let k = choose|k: int| 0 <= k < s.push(i).len() && s.push(i)[k] == Instruction::<Seq<char>>::Label(l);
        if k < s.len() {
            assert(s[k] == s.push(i)[k]);
        }
    }
}

pub broadcast proof fn lemma_has_label_empty(l: Seq<char>)
    ensures
        !#[trigger] has_label(Seq::<InstrV>::empty(), l),
{
}

pub broadcast proof fn lemma_resolved_empty(w: Seq<InstrV>, fenv: Map<Name, Seq<Name>>)
    ensures
        #[trigger] jumps_resolved(Seq::<InstrV>::empty(), w, fenv),
{
}

pub broadcast proof fn lemma_resolved_push(s: Seq<InstrV>, i: InstrV, w: Seq<InstrV>, fenv: Map<Name, Seq<Name>>)
    requires
        jumps_resolved(s, w, fenv),
        target_ok(i, w, fenv),
    ensures
        #[trigger] jumps_resolved(s.push(i), w, fenv),
{
    assert forall|k: int| 0 <= k < s.push(i).len() implies target_ok(#[trigger] s.push(i)[k], w, fenv) by {
        if k < s.len() {
            assert(s.push(i)[k] == s[k]);
        }
    }
}

pub broadcast proof fn lemma_resolved_concat(a: Seq<InstrV>, b: Seq<InstrV>, w: Seq<InstrV>, fenv: Map<Name, Seq<Name>>)
    requires
        jumps_resolved(a, w, fenv),
        jumps_resolved(b, w, fenv),
    ensures
        #[trigger] jumps_resolved(a + b, w, fenv),
{
    assert forall|k: int| 0 <= k < (a + b).len() implies target_ok(#[trigger] (a + b)[k], w, fenv) by {
        if k >= a.len() {
            assert((a + b)[k] == b[k - a.len()]);
        }
    }
}

pub broadcast group group_jumps {
    lemma_has_label_concat,
    lemma_has_label_push,
    lemma_has_label_empty,
    lemma_resolved_empty,
    lemma_resolved_push,
    lemma_resolved_concat,
}

/// A piece whose jumps are resolved within it stays resolved inside any
/// code that contains it.
proof fn lemma_resolved_widen(a: Seq<InstrV>, x: Seq<InstrV>, y: Seq<InstrV>, fenv: Map<Name, Seq<Name>>)
    requires
        jumps_resolved(a, a, fenv),
    ensures
        jumps_resolved(a, x + a + y, fenv),
{
    broadcast use group_jumps;
    assert forall|k: int| 0 <= k < a.len() implies target_ok(#[trigger] a[k], x + a + y, fenv) by {
        assert(target_ok(a[k], a, fenv));
    }
}

proof fn lemma_checks_resolved(ann: u32, off: i32, reg: Reg, code: ErrorCode, b: bool, w: Seq<InstrV>, fenv: Map<Name, Seq<Name>>)
    requires
        has_label(w, lbl("not_zero_"@, ann)),
        has_label(w, lbl("not_lt_zero_"@, ann)),
    ensures
        jumps_resolved(check_bool_v(reg, code, b), w, fenv),
        jumps_resolved(ld_float_from_reg_v(reg, off), w, fenv),
        jumps_resolved(ld_num_from_reg_v(reg, off), w, fenv),
        jumps_resolved(st_float_to_reg_v(reg, off), w, fenv),
        jumps_resolved(st_floornum_to_reg_v(reg, off), w, fenv),
        jumps_resolved(check_division_zero_num_v(reg, ann), w, fenv),
        jumps_resolved(check_sqrt_num_v(reg, ann), w, fenv),
        jumps_resolved(check_overflow_v(), w, fenv),
        jumps_resolved(error_exit_v(code), w, fenv),
{
    broadcast use group_jumps;
}

} // verus!

verus! {

proof fn lemma_compare_resolved(
    larger: (Seq<InstrV>, Seq<char>),
    smaller: (Seq<InstrV>, Seq<char>),
    equal: (Seq<InstrV>, Seq<char>),
    done: Seq<char>,
    pop: u32,
    fenv: Map<Name, Seq<Name>>,
)
    requires
        jumps_resolved(larger.0, larger.0, fenv),
        jumps_resolved(smaller.0, smaller.0, fenv),
        jumps_resolved(equal.0, equal.0, fenv),
    ensures
        jumps_resolved(compare_floats_v(larger, smaller, equal, done, pop), compare_floats_v(larger, smaller, equal, done, pop), fenv),
{
    broadcast use group_jumps;
    let head = seq![
        if pop == 2 {
            Instruction::Fcompp(FloatArg::Blank)
        } else if pop == 1 {
            Instruction::Fcomp(FloatArg::Blank)
        } else {
            Instruction::Fcom(FloatArg::Blank)
        },
        Instruction::Fstsw(FloatArg::Reg(Reg::Ax)),
        Instruction::And(BinArgs::ToReg(Reg::Ax, Arg32::Unsigned(0x4100))),
        Instruction::Cmp(BinArgs::ToReg(Reg::Ax, Arg32::Unsigned(0x4000))),
        Instruction::Je(equal.1),
        Instruction::Cmp(BinArgs::ToReg(Reg::Ax, Arg32::Unsigned(0x0100))),
        Instruction::Je(smaller.1),
    ];
    let m1 = seq![Instruction::Jmp(done), Instruction::Label(equal.1)];
    let m2 = seq![Instruction::Jmp(done), Instruction::Label(smaller.1)];
    let m3 = seq![Instruction::Label(done)];
    let c = compare_floats_v(larger, smaller, equal, done, pop);
    assert(c == head + larger.0 + m1 + equal.0 + m2 + smaller.0 + m3);
    assert(has_label(m1, equal.1)) by { assert(m1[1] == Instruction::<Seq<char>>::Label(equal.1)); }
    assert(has_label(m2, smaller.1)) by { assert(m2[1] == Instruction::<Seq<char>>::Label(smaller.1)); }
    assert(has_label(m3, done)) by { assert(m3[0] == Instruction::<Seq<char>>::Label(done)); }
    lemma_resolved_widen(larger.0, head, m1 + equal.0 + m2 + smaller.0 + m3, fenv);
    assert(head + larger.0 + (m1 + equal.0 + m2 + smaller.0 + m3) == c);
    lemma_resolved_widen(equal.0, head + larger.0 + m1, m2 + smaller.0 + m3, fenv);
    assert(head + larger.0 + m1 + equal.0 + (m2 + smaller.0 + m3) == c);
    lemma_resolved_widen(smaller.0, head + larger.0 + m1 + equal.0 + m2, m3, fenv);
    assert(jumps_resolved(head, c, fenv));
    assert(jumps_resolved(m1, c, fenv));
    assert(jumps_resolved(m2, c, fenv));
    assert(jumps_resolved(m3, c, fenv));
}

} // verus!

verus! {

proof fn lemma_self_resolved_concat(a: Seq<InstrV>, b: Seq<InstrV>, fenv: Map<Name, Seq<Name>>)
    requires
        jumps_resolved(a, a, fenv),
        jumps_resolved(b, b, fenv),
    ensures
        jumps_resolved(a + b, a + b, fenv),
{
    broadcast use group_jumps;
    lemma_resolved_widen(a, Seq::empty(), b, fenv);
    lemma_resolved_widen(b, a, Seq::empty(), fenv);
    assert(Seq::<InstrV>::empty() + a + b == a + b);
    assert(a + b + Seq::<InstrV>::empty() == a + b);
}

proof fn lemma_float_checks_resolved(ann: u32, off: i32, fenv: Map<Name, Seq<Name>>)
    ensures
        jumps_resolved(check_float_overflow_v(ann, off), check_float_overflow_v(ann, off), fenv),
        jumps_resolved(check_division_zero_float_v(ann, off), check_division_zero_float_v(ann, off), fenv),
        jumps_resolved(check_sqrt_float_v(ann, off), check_sqrt_float_v(ann, off), fenv),
{
    broadcast use group_jumps;
    let e = Seq::<InstrV>::empty();
    let ov = seq![movr(Reg::Rdi, Arg64::Unsigned(OVERFLOW_ERROR)), Instruction::Jo(snake_error())];
    assert(jumps_resolved(e, e, fenv));
    assert(jumps_resolved(ov, ov, fenv));
    assert(jumps_resolved(error_exit_v(OVERFLOW_ERROR), error_exit_v(OVERFLOW_ERROR), fenv));
    assert(jumps_resolved(error_exit_v(DIVISION_ERROR), error_exit_v(DIVISION_ERROR), fenv));
    assert(jumps_resolved(error_exit_v(SQRT_ERROR), error_exit_v(SQRT_ERROR), fenv));
    let c1 = compare_floats_v(
        (e, lbl("checkfloatover1_larger_"@, ann)),
        (error_exit_v(OVERFLOW_ERROR), lbl("checkfloatover1_smaller_"@, ann)),
        (e, lbl("checkfloatover1_equal_"@, ann)),
        lbl("overflow1_done_"@, ann),
        1,
    );
    let c2 = compare_floats_v(
        (ov, lbl("checkfloatover2_larger_"@, ann)),
        (e, lbl("checkfloatover2_smaller_"@, ann)),
        (e, lbl("checkfloatover2_equal_"@, ann)),
        lbl("overflow2_done_"@, ann),
        1,
    );
    lemma_compare_resolved(
        (e, lbl("checkfloatover1_larger_"@, ann)),
        (error_exit_v(OVERFLOW_ERROR), lbl("checkfloatover1_smaller_"@, ann)),
        (e, lbl("checkfloatover1_equal_"@, ann)),
        lbl("overflow1_done_"@, ann),
        1,
        fenv,
    );
    lemma_compare_resolved(
        (ov, lbl("checkfloatover2_larger_"@, ann)),
        (e, lbl("checkfloatover2_smaller_"@, ann)),
        (e, lbl("checkfloatover2_equal_"@, ann)),
        lbl("overflow2_done_"@, ann),
        1,
        fenv,
    );
    let l1 = ld_constfloat_v(F32_MAX_BITS, off);
    let l2 = ld_constfloat_v(F32_MIN_BITS, off);
    assert(jumps_resolved(l1, l1, fenv));
    assert(jumps_resolved(l2, l2, fenv));
    lemma_self_resolved_concat(l1, c1, fenv);
    lemma_self_resolved_concat(l1 + c1, l2, fenv);
    lemma_self_resolved_concat(l1 + c1 + l2, c2, fenv);
    let l0 = ld_constfloat_v(ZERO_BITS, off);
    assert(jumps_resolved(l0, l0, fenv));
    let cd = compare_floats_v(
        (e, lbl("check_div_larger_"@, ann)),
        (e, lbl("check_div_smaller_"@, ann)),
        (error_exit_v(DIVISION_ERROR), lbl("check_div_equal_"@, ann)),
        lbl("cmp_done_"@, ann),
        1,
    );
    lemma_compare_resolved(
        (e, lbl("check_div_larger_"@, ann)),
        (e, lbl("check_div_smaller_"@, ann)),
        (error_exit_v(DIVISION_ERROR), lbl("check_div_equal_"@, ann)),
        lbl("cmp_done_"@, ann),
        1,
        fenv,
    );
    lemma_self_resolved_concat(l0, cd, fenv);
    let cs = compare_floats_v(
        (error_exit_v(SQRT_ERROR), lbl("check_sqrt_larger_"@, ann)),
        (e, lbl("check_sqrt_smaller_"@, ann)),
        (e, lbl("check_sqrt_equal_"@, ann)),
        lbl("cmp_done_"@, ann),
        1,
    );
    lemma_compare_resolved(
        (error_exit_v(SQRT_ERROR), lbl("check_sqrt_larger_"@, ann)),
        (e, lbl("check_sqrt_smaller_"@, ann)),
        (e, lbl("check_sqrt_equal_"@, ann)),
        lbl("cmp_done_"@, ann),
        1,
        fenv,
    );
    lemma_self_resolved_concat(l0, cs, fenv);
}

} // verus!

verus! {

proof fn lemma_unary_resolved(i1: Seq<InstrV>, i2: Seq<InstrV>, ann: u32, off: i32, fenv: Map<Name, Seq<Name>>)
    requires
        jumps_resolved(i1, i1, fenv),
        jumps_resolved(i2, i2, fenv),
    ensures
        jumps_resolved(unaryop_v(i1, i2, ann, off), unaryop_v(i1, i2, ann, off), fenv),
{
    broadcast use group_jumps;
    let wf = lbl("when_float_"@, ann);
    let done = lbl("done_"@, ann);
    let a = if_float_v(Reg::Rax, wf);
    let b1 = seq![Instruction::Jmp(done)];
    let b2 = seq![Instruction::Label(wf)];
    let b3 = ld_float_from_reg_v(Reg::Rax, off);
    let cfo = check_float_overflow_v(ann, off);
    let c2 = st_float_to_reg_v(Reg::Rax, off);
    let c3 = seq![Instruction::Label(done)];
    let u = unaryop_v(i1, i2, ann, off);
    assert(u == a + i1 + b1 + b2 + b3 + i2 + cfo + c2 + c3);
    assert(has_label(b2, wf)) by { assert(b2[0] == Instruction::<Seq<char>>::Label(wf)); }
    assert(has_label(c3, done)) by { assert(c3[0] == Instruction::<Seq<char>>::Label(done)); }
    assert(has_label(u, wf));
    assert(has_label(u, done));
    lemma_float_checks_resolved(ann, off, fenv);
    lemma_resolved_widen(i1, a, b1 + b2 + b3 + i2 + cfo + c2 + c3, fenv);
    assert(a + i1 + (b1 + b2 + b3 + i2 + cfo + c2 + c3) == u);
    lemma_resolved_widen(i2, a + i1 + b1 + b2 + b3, cfo + c2 + c3, fenv);
    assert(a + i1 + b1 + b2 + b3 + i2 + (cfo + c2 + c3) == u);
    lemma_resolved_widen(cfo, a + i1 + b1 + b2 + b3 + i2, c2 + c3, fenv);
    assert(a + i1 + b1 + b2 + b3 + i2 + cfo + (c2 + c3) == u);
    assert(jumps_resolved(a, u, fenv));
    assert(jumps_resolved(b1, u, fenv));
    assert(jumps_resolved(b2, u, fenv));
    assert(jumps_resolved(b3, u, fenv));
    assert(jumps_resolved(c2, u, fenv));
    assert(jumps_resolved(c3, u, fenv));
}

proof fn lemma_has_label_in(x: Seq<InstrV>, piece: Seq<InstrV>, y: Seq<InstrV>, l: Seq<char>)
    requires
        has_label(piece, l),
    ensures
        has_label(x + piece + y, l),
{
    broadcast use group_jumps;
}

proof fn lemma_has_label_lit(l: Seq<char>, a: InstrV)
    ensures
        has_label(seq![a, Instruction::Label(l)], l),
        has_label(seq![Instruction::Label(l)], l),
{
    assert(seq![a, Instruction::Label(l)][1] == Instruction::<Seq<char>>::Label(l));
    assert(seq![Instruction::<Seq<char>>::Label(l)][0] == Instruction::<Seq<char>>::Label(l));
}

proof fn lemma_if_float_resolved(reg: Reg, l: Seq<char>, w: Seq<InstrV>, fenv: Map<Name, Seq<Name>>)
    requires
        has_label(w, l),
    ensures
        jumps_resolved(if_float_v(reg, l), w, fenv),
{
    broadcast use group_jumps;
}

proof fn lemma_loads_resolved(off: i32, w: Seq<InstrV>, fenv: Map<Name, Seq<Name>>)
    ensures
        jumps_resolved(ld_float_from_reg_v(Reg::Rax, off) + ld_num_from_reg_v(Reg::R8, off), w, fenv),
        jumps_resolved(ld_float_from_reg_v(Reg::Rax, off) + ld_float_from_reg_v(Reg::R8, off), w, fenv),
        jumps_resolved(ld_num_from_reg_v(Reg::Rax, off) + ld_float_from_reg_v(Reg::R8, off), w, fenv),
{
    broadcast use group_jumps;
}

proof fn lemma_jump_label_resolved(t: Seq<char>, l: Seq<char>, w: Seq<InstrV>, fenv: Map<Name, Seq<Name>>)
    requires
        has_label(w, t),
    ensures
        jumps_resolved(seq![Instruction::Jmp(t), Instruction::Label(l)], w, fenv),
        jumps_resolved(seq![Instruction::Label(l)], w, fenv),
{
    broadcast use group_jumps;
}

proof fn lemma_concat_resolved(a: Seq<InstrV>, b: Seq<InstrV>, w: Seq<InstrV>, fenv: Map<Name, Seq<Name>>)
    requires
        jumps_resolved(a, w, fenv),
        jumps_resolved(b, w, fenv),
    ensures
        jumps_resolved(a + b, w, fenv),
{
    lemma_resolved_concat(a, b, w, fenv);
}

#[verifier::spinoff_prover]
proof fn lemma_binary_resolved(i1: Seq<InstrV>, i2: Seq<InstrV>, ann: u32, off: i32, fenv: Map<Name, Seq<Name>>)
    requires
        jumps_resolved(i1, i1, fenv),
        jumps_resolved(i2, i2, fenv),
    ensures
        jumps_resolved(binop_v(i1, i2, ann, off), binop_v(i1, i2, ann, off), fenv),
{
    let ff = lbl("first_float_"@, ann);
    let sf = lbl("second_float_"@, ann);
    let bf = lbl("both_floats_"@, ann);
    let hf = lbl("handle_float_"@, ann);
    let done = lbl("done_"@, ann);
    let p1a = if_float_v(Reg::Rax, ff);
    let p1b = if_float_v(Reg::R8, sf);
    let r1 = seq![Instruction::Jmp(done), Instruction::Label(ff)];
    let r2 = if_float_v(Reg::R8, bf);
    let r3 = ld_float_from_reg_v(Reg::Rax, off) + ld_num_from_reg_v(Reg::R8, off);
    let r4 = seq![Instruction::Jmp(hf), Instruction::Label(bf)];
    let r5 = ld_float_from_reg_v(Reg::Rax, off) + ld_float_from_reg_v(Reg::R8, off);
    let r6 = seq![Instruction::Jmp(hf), Instruction::Label(sf)];
    let r7 = ld_num_from_reg_v(Reg::Rax, off) + ld_float_from_reg_v(Reg::R8, off);
    let r8 = seq![Instruction::Label(hf)];
    let p3 = seq![Instruction::Label(done)];
    let u = binop_v(i1, i2, ann, off);
    assert(u =~= p1a + p1b + i1 + r1 + r2 + r3 + r4 + r5 + r6 + r7 + r8 + i2 + p3);
    lemma_has_label_lit(ff, Instruction::Jmp(done));
    lemma_has_label_lit(bf, Instruction::Jmp(hf));
    lemma_has_label_lit(sf, Instruction::Jmp(hf));
    lemma_has_label_lit(hf, Instruction::Jmp(hf));
    lemma_has_label_lit(done, Instruction::Jmp(hf));
    let x1 = p1a + p1b + i1;
    let y1 = r2 + r3 + r4 + r5 + r6 + r7 + r8 + i2 + p3;
    assert(x1 + r1 + y1 =~= u);
    lemma_has_label_in(x1, r1, y1, ff);
    let x2 = p1a + p1b + i1 + r1 + r2 + r3;
    let y2 = r5 + r6 + r7 + r8 + i2 + p3;
    assert(x2 + r4 + y2 =~= u);
    lemma_has_label_in(x2, r4, y2, bf);
    let x3 = p1a + p1b + i1 + r1 + r2 + r3 + r4 + r5;
    let y3 = r7 + r8 + i2 + p3;
    assert(x3 + r6 + y3 =~= u);
    lemma_has_label_in(x3, r6, y3, sf);
    let x4 = p1a + p1b + i1 + r1 + r2 + r3 + r4 + r5 + r6 + r7;
    let y4 = i2 + p3;
    assert(x4 + r8 + y4 =~= u);
    lemma_has_label_in(x4, r8, y4, hf);
    let x5 = p1a + p1b + i1 + r1 + r2 + r3 + r4 + r5 + r6 + r7 + r8 + i2;
    assert(x5 + p3 + Seq::<InstrV>::empty() =~= u);
    lemma_has_label_in(x5, p3, Seq::empty(), done);
    assert(p1a + p1b + i1 + (r1 + y1) =~= u);
    lemma_resolved_widen(i1, p1a + p1b, r1 + y1, fenv);
    let x6 = p1a + p1b + i1 + r1 + r2 + r3 + r4 + r5 + r6 + r7 + r8;
    assert(x6 + i2 + p3 =~= u);
    lemma_resolved_widen(i2, x6, p3, fenv);
    lemma_if_float_resolved(Reg::Rax, ff, u, fenv);
    lemma_if_float_resolved(Reg::R8, sf, u, fenv);
    lemma_if_float_resolved(Reg::R8, bf, u, fenv);
    lemma_loads_resolved(off, u, fenv);
    lemma_jump_label_resolved(done, ff, u, fenv);
    lemma_jump_label_resolved(hf, bf, u, fenv);
    lemma_jump_label_resolved(hf, sf, u, fenv);
    lemma_jump_label_resolved(done, hf, u, fenv);
    lemma_jump_label_resolved(ff, done, u, fenv);
    lemma_concat_resolved(p1a, p1b, u, fenv);
    lemma_concat_resolved(p1a + p1b, i1, u, fenv);
    lemma_concat_resolved(p1a + p1b + i1, r1, u, fenv);
    lemma_concat_resolved(p1a + p1b + i1 + r1, r2, u, fenv);
    lemma_concat_resolved(p1a + p1b + i1 + r1 + r2, r3, u, fenv);
    lemma_concat_resolved(p1a + p1b + i1 + r1 + r2 + r3, r4, u, fenv);
    lemma_concat_resolved(p1a + p1b + i1 + r1 + r2 + r3 + r4, r5, u, fenv);
    lemma_concat_resolved(p1a + p1b + i1 + r1 + r2 + r3 + r4 + r5, r6, u, fenv);
    lemma_concat_resolved(p1a + p1b + i1 + r1 + r2 + r3 + r4 + r5 + r6, r7, u, fenv);
    lemma_concat_resolved(p1a + p1b + i1 + r1 + r2 + r3 + r4 + r5 + r6 + r7, r8, u, fenv);
    lemma_concat_resolved(p1a + p1b + i1 + r1 + r2 + r3 + r4 + r5 + r6 + r7 + r8, i2, u, fenv);
    lemma_concat_resolved(x5, p3, u, fenv);
}

} // verus!

verus! {

proof fn lemma_small_resolved(ann: u32, off: i32, reg: Reg, code: ErrorCode, b: bool, i: ImmV, env: Seq<Name>, fenv: Map<Name, Seq<Name>>)
    ensures
        jumps_resolved(check_bool_v(reg, code, b), check_bool_v(reg, code, b), fenv),
        jumps_resolved(check_overflow_v(), check_overflow_v(), fenv),
        jumps_resolved(st_float_to_reg_v(reg, off), st_float_to_reg_v(reg, off), fenv),
        jumps_resolved(st_floornum_to_reg_v(reg, off), st_floornum_to_reg_v(reg, off), fenv),
        jumps_resolved(ld_num_from_reg_v(reg, off), ld_num_from_reg_v(reg, off), fenv),
        jumps_resolved(imm_instrs_v(i, env), imm_instrs_v(i, env), fenv),
        jumps_resolved(check_division_zero_num_v(reg, ann), check_division_zero_num_v(reg, ann), fenv),
        jumps_resolved(check_sqrt_num_v(reg, ann), check_sqrt_num_v(reg, ann), fenv),
{
    broadcast use group_jumps;
    let d = check_division_zero_num_v(reg, ann);
    assert(d[5] == Instruction::<Seq<char>>::Label(lbl("not_zero_"@, ann)));
    assert(has_label(d, lbl("not_zero_"@, ann)));
    let q = check_sqrt_num_v(reg, ann);
    assert(q[5] == Instruction::<Seq<char>>::Label(lbl("not_lt_zero_"@, ann)));
    assert(has_label(q, lbl("not_lt_zero_"@, ann)));
    match i {
        ImmV::Float(f) => {
            assert(jumps_resolved(st_constfloat_v(Reg::Rax, f32_rounded(f.0)), imm_instrs_v(i, env), fenv));
        },
        _ => {},
    }
}

proof fn lemma_lit_resolved(s: Seq<InstrV>, fenv: Map<Name, Seq<Name>>)
    requires
        forall|k: int| 0 <= k < s.len() ==> jump_target(#[trigger] s[k]) is None,
    ensures
        jumps_resolved(s, s, fenv),
{
}

proof fn lemma_arith_resolved(op: Prim, ann: u32, off: i32, fenv: Map<Name, Seq<Name>>)
    requires
        is_arith(op),
    ensures
        jumps_resolved(arith_op_v(op, ann, off), arith_op_v(op, ann, off), fenv),
{
    let stf = st_float_to_reg_v(Reg::Rax, off);
    let cfo = check_float_overflow_v(ann, off);
    let ovf = check_overflow_v();
    lemma_small_resolved(ann, off, Reg::Rax, 0, true, ImmV::Num(0), Seq::empty(), fenv);
    lemma_small_resolved(ann, off, Reg::R8, 0, true, ImmV::Num(0), Seq::empty(), fenv);
    lemma_float_checks_resolved(ann, off, fenv);
    let fstf = cfo + stf;
    lemma_self_resolved_concat(cfo, stf, fenv);
    match op {
        Prim::Add1 | Prim::Sub1 => {
            let a = seq![Instruction::Add(BinArgs::ToReg(Reg::Rax, Arg32::Signed(2)))];
            let s = seq![Instruction::Sub(BinArgs::ToReg(Reg::Rax, Arg32::Signed(2)))];
            let fa = seq![Instruction::Fld1, Instruction::Faddp(FloatArg::Blank)];
            let fs = seq![Instruction::Fld1, Instruction::Fsubp(FloatArg::Blank)];
            lemma_lit_resolved(a, fenv);
            lemma_lit_resolved(s, fenv);
            lemma_lit_resolved(fa, fenv);
            lemma_lit_resolved(fs, fenv);
            lemma_self_resolved_concat(a, ovf, fenv);
            lemma_self_resolved_concat(s, ovf, fenv);
            lemma_unary_resolved(a + ovf, fa, ann, off, fenv);
            lemma_unary_resolved(s + ovf, fs, ann, off, fenv);
        },
        Prim::Add | Prim::Sub | Prim::Mul => {
            let a = seq![Instruction::Add(BinArgs::ToReg(Reg::Rax, Arg32::Reg(Reg::R8)))];
            let s = seq![Instruction::Sub(BinArgs::ToReg(Reg::Rax, Arg32::Reg(Reg::R8)))];
            let m = seq![
                Instruction::Sar(BinArgs::ToReg(Reg::R8, Arg32::Unsigned(1))),
                Instruction::Sar(BinArgs::ToReg(Reg::Rax, Arg32::Unsigned(1))),
                Instruction::IMul(BinArgs::ToReg(Reg::Rax, Arg32::Reg(Reg::R8))),
            ];
            let sh = seq![Instruction::Shl(BinArgs::ToReg(Reg::Rax, Arg32::Unsigned(1)))];
            let fa = seq![Instruction::Faddp(FloatArg::Blank)];
            let fs = seq![Instruction::Fsubp(FloatArg::Blank)];
            let fm = seq![Instruction::Fmulp(FloatArg::Blank)];
            lemma_lit_resolved(a, fenv);
            lemma_lit_resolved(s, fenv);
            lemma_lit_resolved(m, fenv);
            lemma_lit_resolved(sh, fenv);
            lemma_lit_resolved(fa, fenv);
            lemma_lit_resolved(fs, fenv);
            lemma_lit_resolved(fm, fenv);
            lemma_self_resolved_concat(a, ovf, fenv);
            lemma_self_resolved_concat(s, ovf, fenv);
            lemma_self_resolved_concat(m, ovf, fenv);
            lemma_self_resolved_concat(m + ovf, sh, fenv);
            lemma_self_resolved_concat(fa, cfo, fenv);
            lemma_self_resolved_concat(fs, cfo, fenv);
            lemma_self_resolved_concat(fm, cfo, fenv);
            lemma_self_resolved_concat(fa + cfo, stf, fenv);
            lemma_self_resolved_concat(fs + cfo, stf, fenv);
            lemma_self_resolved_concat(fm + cfo, stf, fenv);
            lemma_binary_resolved(a + ovf, fa + cfo + stf, ann, off, fenv);
            lemma_binary_resolved(s + ovf, fs + cfo + stf, ann, off, fenv);
            lemma_binary_resolved(m + ovf + sh, fm + cfo + stf, ann, off, fenv);
        },
        Prim::Div | Prim::FloorDiv => {
            let lds = ld_num_from_reg_v(Reg::Rax, off) + ld_num_from_reg_v(Reg::R8, off);
            lemma_self_resolved_concat(ld_num_from_reg_v(Reg::Rax, off), ld_num_from_reg_v(Reg::R8, off), fenv);
            let dz = check_division_zero_num_v(Reg::R8, ann);
            lemma_self_resolved_concat(lds, dz, fenv);
            let fd = seq![Instruction::Fdivp(FloatArg::Blank)];
            lemma_lit_resolved(fd, fenv);
            lemma_self_resolved_concat(lds + dz, fd, fenv);
            let dzf = check_division_zero_float_v(ann, off);
            lemma_self_resolved_concat(dzf, fd, fenv);
            lemma_self_resolved_concat(dzf + fd, cfo, fenv);
            let fl = st_floornum_to_reg_v(Reg::Rax, off);
            lemma_self_resolved_concat(lds + dz + fd, stf, fenv);
            lemma_self_resolved_concat(lds + dz + fd, fl, fenv);
            lemma_self_resolved_concat(dzf + fd + cfo, stf, fenv);
            lemma_self_resolved_concat(dzf + fd + cfo, fl, fenv);
            lemma_binary_resolved(lds + dz + fd + stf, dzf + fd + cfo + stf, ann, off, fenv);
            lemma_binary_resolved(lds + dz + fd + fl, dzf + fd + cfo + fl, ann, off, fenv);
        },
        Prim::Cos => {
            let c = seq![Instruction::Fcos];
            lemma_lit_resolved(c, fenv);
            let ln = ld_num_from_reg_v(Reg::Rax, off);
            lemma_self_resolved_concat(ln, c, fenv);
            lemma_self_resolved_concat(ln + c, stf, fenv);
            lemma_unary_resolved(ln + c + stf, c, ann, off, fenv);
        },
        _ => {
            let q = seq![Instruction::Fsqrt];
            lemma_lit_resolved(q, fenv);
            let sq = check_sqrt_num_v(Reg::Rax, ann);
            let ln = ld_num_from_reg_v(Reg::Rax, off);
            lemma_self_resolved_concat(sq, ln, fenv);
            lemma_self_resolved_concat(sq + ln, q, fenv);
            lemma_self_resolved_concat(sq + ln + q, stf, fenv);
            let sqf = check_sqrt_float_v(ann, off);
            lemma_self_resolved_concat(sqf, q, fenv);
            lemma_unary_resolved(sq + ln + q + stf, sqf + q, ann, off, fenv);
        },
    }
}

} // verus!

verus! {

proof fn lemma_load_resolved(exps: Seq<ImmV>, env: Seq<Name>, code: ErrorCode, b: bool, fenv: Map<Name, Seq<Name>>)
    ensures
        jumps_resolved(load_operands_v(exps, env, code, b), load_operands_v(exps, env, code, b), fenv),
{
    lemma_small_resolved(0, 0, Reg::Rax, code, b, ImmV::Num(0), env, fenv);
    let cb = check_bool_v(Reg::Rax, code, b);
    if exps.len() == 1 {
        lemma_small_resolved(0, 0, Reg::Rax, code, b, exps[0], env, fenv);
        lemma_self_resolved_concat(imm_instrs_v(exps[0], env), cb, fenv);
    } else if exps.len() == 2 {
        lemma_small_resolved(0, 0, Reg::Rax, code, b, exps[0], env, fenv);
        lemma_small_resolved(0, 0, Reg::Rax, code, b, exps[1], env, fenv);
        let mv = seq![movr(Reg::R8, Arg64::Reg(Reg::Rax))];
        lemma_lit_resolved(mv, fenv);
        let a = imm_instrs_v(exps[1], env);
        let c = imm_instrs_v(exps[0], env);
        lemma_self_resolved_concat(a, cb, fenv);
        lemma_self_resolved_concat(a + cb, mv, fenv);
        lemma_self_resolved_concat(a + cb + mv, c, fenv);
        lemma_self_resolved_concat(a + cb + mv + c, cb, fenv);
    } else {
        broadcast use group_jumps;
    }
}

proof fn lemma_comp_resolved(op: Prim, ann: u32, off: i32, fenv: Map<Name, Seq<Name>>)
    ensures
        jumps_resolved(comp_op_v(op, ann, off), comp_op_v(op, ann, off), fenv),
{
    let l = lbl(comparison_stem(op), ann);
    let i1 = seq![
        Instruction::Cmp(BinArgs::ToReg(Reg::Rax, Arg32::Reg(Reg::R8))),
        movr(Reg::Rax, Arg64::Unsigned(SNAKE_TRUE)),
        comparison_jump(op, l),
        movr(Reg::Rax, Arg64::Unsigned(SNAKE_FALSE)),
        Instruction::Label(l),
    ];
    assert(jumps_resolved(i1, i1, fenv)) by {
        assert(i1[4] == Instruction::<Seq<char>>::Label(l));
        assert(has_label(i1, l));
        assert forall|k: int| 0 <= k < i1.len() implies target_ok(#[trigger] i1[k], i1, fenv) by {
            assert(k == 0 || k == 1 || k == 2 || k == 3 || k == 4);
        }
    }
    let m0 = seq![movr(Reg::Rax, Arg64::Unsigned(comparison_result(op, 0)))];
    let m1 = seq![movr(Reg::Rax, Arg64::Unsigned(comparison_result(op, 1)))];
    let m2 = seq![movr(Reg::Rax, Arg64::Unsigned(comparison_result(op, 2)))];
    lemma_lit_resolved(m0, fenv);
    lemma_lit_resolved(m1, fenv);
    lemma_lit_resolved(m2, fenv);
    lemma_compare_resolved(
        (m0, lbl("logic_larger_"@, ann)),
        (m1, lbl("logic_smaller_"@, ann)),
        (m2, lbl("logic_equal_"@, ann)),
        lbl("cmp_done_"@, ann),
        2,
        fenv,
    );
    lemma_binary_resolved(
        i1,
        compare_floats_v(
            (m0, lbl("logic_larger_"@, ann)),
            (m1, lbl("logic_smaller_"@, ann)),
            (m2, lbl("logic_equal_"@, ann)),
            lbl("cmp_done_"@, ann),
            2,
        ),
        ann,
        off,
        fenv,
    );
}

proof fn lemma_prim_resolved(op: Prim, exps: Seq<ImmV>, ann: u32, env: Seq<Name>, space: i32, fenv: Map<Name, Seq<Name>>)
    ensures
        jumps_resolved(prim_v(op, exps, ann, env, space), prim_v(op, exps, ann, env, space), fenv),
{
    let off = frame_slot(env);
    if is_arith(op) {
        lemma_load_resolved(exps, env, ARITH_ERROR, false, fenv);
        lemma_arith_resolved(op, ann, off, fenv);
        lemma_self_resolved_concat(load_operands_v(exps, env, ARITH_ERROR, false), arith_op_v(op, ann, off), fenv);
    } else if is_comp(op) {
        lemma_load_resolved(exps, env, COMP_ERROR, false, fenv);
        lemma_comp_resolved(op, ann, off, fenv);
        lemma_self_resolved_concat(load_operands_v(exps, env, COMP_ERROR, false), comp_op_v(op, ann, off), fenv);
    } else if is_logic(op) {
        lemma_load_resolved(exps, env, LOGIC_ERROR, true, fenv);
        let tail = match op {
            Prim::Not => seq![
                movr(Reg::R8, Arg64::Unsigned(BOOL_MASK)),
                Instruction::Xor(BinArgs::ToReg(Reg::Rax, Arg32::Reg(Reg::R8))),
            ],
            Prim::And => seq![Instruction::And(BinArgs::ToReg(Reg::Rax, Arg32::Reg(Reg::R8)))],
            _ => seq![Instruction::Or(BinArgs::ToReg(Reg::Rax, Arg32::Reg(Reg::R8)))],
        };
        lemma_lit_resolved(tail, fenv);
        lemma_self_resolved_concat(load_operands_v(exps, env, LOGIC_ERROR, true), tail, fenv);
        assert(prim_v(op, exps, ann, env, space) == load_operands_v(exps, env, LOGIC_ERROR, true) + tail);
    } else if op == Prim::Print {
        lemma_small_resolved(0, 0, Reg::Rax, 0, true, exps[0], env, fenv);
        let tail = seq![
            movr(Reg::Rdi, Arg64::Reg(Reg::Rax)),
            Instruction::Sub(BinArgs::ToReg(Reg::Rsp, Arg32::Signed((8 * space) as i32))),
            Instruction::Call("print_snake_val"@),
            Instruction::Add(BinArgs::ToReg(Reg::Rsp, Arg32::Signed((8 * space) as i32))),
        ];
        assert forall|k: int| 0 <= k < tail.len() implies jump_target(#[trigger] tail[k]) is None by {
            assert(k == 0 || k == 1 || k == 2 || k == 3);
        }
        lemma_lit_resolved(tail, fenv);
        lemma_self_resolved_concat(imm_instrs_v(exps[0], env), tail, fenv);
    } else {
        let done = if op == Prim::IsNum {
            lbl("isnum_done_"@, ann)
        } else if op == Prim::IsBool {
            lbl("isbool_done_"@, ann)
        } else {
            lbl("isfloat_done_"@, ann)
        };
        let mask: u64 = if op == Prim::IsNum { 1 } else { 3 };
        let exp: u32 = if op == Prim::IsNum { 0 } else if op == Prim::IsBool { 3 } else { 1 };
        let t = type_test_v(mask, exp, done);
        assert(t == prim_v(op, exps, ann, env, space));
        assert(jumps_resolved(t, t, fenv)) by {
            assert(t[6] == Instruction::<Seq<char>>::Label(done));
            assert(has_label(t, done));
            assert forall|k: int| 0 <= k < t.len() implies target_ok(#[trigger] t[k], t, fenv) by {
                assert(k == 0 || k == 1 || k == 2 || k == 3 || k == 4 || k == 5 || k == 6);
            }
        }
    }
}

} // verus!

verus! {

proof fn lemma_moves_resolved(srcs: Seq<Name>, env: Seq<Name>, base: int, w: Seq<InstrV>, fenv: Map<Name, Seq<Name>>)
    ensures
        jumps_resolved(moves_v(srcs, env, base), w, fenv),
    decreases srcs.len(),
{
    broadcast use group_jumps;
    if srcs.len() > 0 {
        lemma_moves_resolved(srcs.drop_last(), env, base, w, fenv);
    }
}

/// Every jump in the code of `e` goes to `snake_error`, to a function of
/// `fenv`, or to a label that the code itself defines.
pub proof fn lemma_jumps_resolved(e: SeqExpV<u32>, env: Seq<Name>, space: i32, fenv: Map<Name, Seq<Name>>)
    requires
        cwe_ok(e, env, space, fenv),
    ensures
        jumps_resolved(cwe_v(e, env, space, fenv), cwe_v(e, env, space, fenv), fenv),
    decreases e,
{
    let c = cwe_v(e, env, space, fenv);
    match e {
        SeqExpV::Imm(i, _) => {
            lemma_small_resolved(0, 0, Reg::Rax, 0, true, i, env, fenv);
        },
        SeqExpV::Let { var, bound_exp, body, .. } => {
            lemma_jumps_resolved(*bound_exp, env, space, fenv);
            lemma_jumps_resolved(*body, bind_env(env, var), space, fenv);
            let m = seq![movm(rsp(slot(let_slot(env, var))), Reg::Rax)];
            lemma_lit_resolved(m, fenv);
            let a = cwe_v(*bound_exp, env, space, fenv);
            lemma_self_resolved_concat(a, m, fenv);
            lemma_self_resolved_concat(a + m, cwe_v(*body, bind_env(env, var), space, fenv), fenv);
        },
        SeqExpV::If { cond, thn, els, ann } => {
            lemma_jumps_resolved(*thn, env, space, fenv);
            lemma_jumps_resolved(*els, env, space, fenv);
            lemma_small_resolved(0, 0, Reg::Rax, IF_ERROR, true, cond, env, fenv);
            let el = lbl("else_"@, ann);
            let en = lbl("end_"@, ann);
            let p0 = imm_instrs_v(cond, env) + check_bool_v(Reg::Rax, IF_ERROR, true);
            let p1 = seq![
                movr(Reg::R8, Arg64::Unsigned(SNAKE_FALSE)),
                Instruction::Cmp(BinArgs::ToReg(Reg::Rax, Arg32::Reg(Reg::R8))),
                Instruction::Je(el),
            ];
            let t = cwe_v(*thn, env, space, fenv);
            let p2 = seq![Instruction::Jmp(en), Instruction::Label(el)];
            let f = cwe_v(*els, env, space, fenv);
            let p3 = seq![Instruction::Label(en)];
            assert(c =~= p0 + p1 + t + p2 + f + p3);
            lemma_has_label_lit(el, Instruction::Jmp(en));
            lemma_has_label_lit(en, Instruction::Jmp(en));
            assert(p0 + p1 + t + p2 + (f + p3) =~= c);
            lemma_has_label_in(p0 + p1 + t, p2, f + p3, el);
            assert(p0 + p1 + t + p2 + f + p3 + Seq::<InstrV>::empty() =~= c);
            lemma_has_label_in(p0 + p1 + t + p2 + f, p3, Seq::empty(), en);
            lemma_resolved_widen(p0, Seq::empty(), p1 + t + p2 + f + p3, fenv);
            assert(Seq::<InstrV>::empty() + p0 + (p1 + t + p2 + f + p3) =~= c);
            lemma_resolved_widen(t, p0 + p1, p2 + f + p3, fenv);
            assert(p0 + p1 + t + (p2 + f + p3) =~= c);
            lemma_resolved_widen(f, p0 + p1 + t + p2, p3, fenv);
            lemma_jump_label_resolved(en, el, c, fenv);
            lemma_jump_label_resolved(en, en, c, fenv);
            assert(jumps_resolved(p1, c, fenv)) by {
                broadcast use group_jumps;
            }
            lemma_concat_resolved(p0, p1, c, fenv);
            lemma_concat_resolved(p0 + p1, t, c, fenv);
            lemma_concat_resolved(p0 + p1 + t, p2, c, fenv);
            lemma_concat_resolved(p0 + p1 + t + p2, f, c, fenv);
            lemma_concat_resolved(p0 + p1 + t + p2 + f, p3, c, fenv);
        },
        SeqExpV::Prim(op, exps, ann) => {
            lemma_prim_resolved(op, exps, ann, env, space, fenv);
        },
        SeqExpV::InternalTailCall(f, args, _) => {
            lemma_moves_resolved(fenv[f], env, 0, c, fenv);
            lemma_moves_resolved(arg_names(args), env, fenv[f].len() as int, c, fenv);
            let j = seq![Instruction::Jmp(f)];
            assert(jumps_resolved(j, c, fenv)) by {
                broadcast use group_jumps;
            }
            lemma_concat_resolved(moves_v(fenv[f], env, 0), moves_v(arg_names(args), env, fenv[f].len() as int), c, fenv);
            lemma_concat_resolved(moves_v(fenv[f], env, 0) + moves_v(arg_names(args), env, fenv[f].len() as int), j, c, fenv);
        },
        SeqExpV::ExternalCall { fun_name, args, is_tail, .. } => {
            let ef = fenv[fun_name];
            if is_tail {
                lemma_moves_resolved(ef, env, 0, c, fenv);
                lemma_moves_resolved(arg_names(args), env, ef.len() as int, c, fenv);
                let j = seq![Instruction::Jmp(fun_name)];
                assert(jumps_resolved(j, c, fenv)) by {
                    broadcast use group_jumps;
                }
                lemma_concat_resolved(moves_v(ef, env, 0), moves_v(arg_names(args), env, ef.len() as int), c, fenv);
                lemma_concat_resolved(moves_v(ef, env, 0) + moves_v(arg_names(args), env, ef.len() as int), j, c, fenv);
            } else {
                lemma_moves_resolved(ef, env, space + 1, c, fenv);
                lemma_moves_resolved(arg_names(args), env, space + 1 + ef.len(), c, fenv);
                let tl = seq![
                    Instruction::Sub(BinArgs::ToReg(Reg::Rsp, Arg32::Signed((8 * space) as i32))),
                    Instruction::Call(fun_name),
                    Instruction::Add(BinArgs::ToReg(Reg::Rsp, Arg32::Signed((8 * space) as i32))),
                ];
                assert(jumps_resolved(tl, c, fenv)) by {
                    broadcast use group_jumps;
                }
                lemma_concat_resolved(moves_v(ef, env, space + 1), moves_v(arg_names(args), env, space + 1 + ef.len()), c, fenv);
                lemma_concat_resolved(moves_v(ef, env, space + 1) + moves_v(arg_names(args), env, space + 1 + ef.len()), tl, c, fenv);
            }
        },
        SeqExpV::FunDefs { decls, body, ann } => {
            let fe = lbl("funend_"@, ann);
            lemma_decls_resolved(decls, space, fenv);
            lemma_jumps_resolved(*body, env, space, fenv);
            let p1 = seq![Instruction::Jmp(fe)];
            let d = cwe_decls_v(decls, space, fenv);
            let p2 = seq![Instruction::Label(fe)];
            let b = cwe_v(*body, env, space, fenv);
            assert(c =~= p1 + d + p2 + b);
            lemma_has_label_lit(fe, Instruction::Jmp(fe));
            lemma_has_label_in(p1 + d, p2, b, fe);
            lemma_resolved_widen(d, p1, p2 + b, fenv);
            assert(p1 + d + (p2 + b) =~= c);
            lemma_resolved_widen(b, p1 + d + p2, Seq::empty(), fenv);
            assert(p1 + d + p2 + b + Seq::<InstrV>::empty() =~= c);
            lemma_jump_label_resolved(fe, fe, c, fenv);
            assert(jumps_resolved(p1, c, fenv)) by {
                broadcast use group_jumps;
            }
            lemma_concat_resolved(p1, d, c, fenv);
            lemma_concat_resolved(p1 + d, p2, c, fenv);
            lemma_concat_resolved(p1 + d + p2, b, c, fenv);
        },
    }
}

proof fn lemma_decls_resolved(ds: Seq<DeclV<SeqExpV<u32>, u32>>, space: i32, fenv: Map<Name, Seq<Name>>)
    requires
        cwe_decls_ok(ds, space, fenv),
    ensures
        jumps_resolved(cwe_decls_v(ds, space, fenv), cwe_decls_v(ds, space, fenv), fenv),
    decreases ds,
{
    if ds.len() == 0 {
        broadcast use group_jumps;
    } else {
        let d = ds.last();
        lemma_decls_resolved(ds.drop_last(), space, fenv);
        lemma_jumps_resolved(d.body, add_params(fenv[d.name], d.parameters), space, fenv);
        let l = seq![Instruction::Label(d.name)];
        let r = seq![Instruction::Ret];
        lemma_lit_resolved(l, fenv);
        lemma_lit_resolved(r, fenv);
        let prev = cwe_decls_v(ds.drop_last(), space, fenv);
        let b = cwe_v(d.body, add_params(fenv[d.name], d.parameters), space, fenv);
        lemma_self_resolved_concat(prev, l, fenv);
        lemma_self_resolved_concat(prev + l, b, fenv);
        lemma_self_resolved_concat(prev + l + b, r, fenv);
    }
}

} // verus!
