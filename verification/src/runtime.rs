use vstd::prelude::*;

use crate::compile_with_env::{
    ARITH_ERROR, COMP_ERROR, DIVISION_ERROR, IF_ERROR, LOGIC_ERROR, OVERFLOW_ERROR, SNAKE_FALSE, SNAKE_TRUE,
    SQRT_ERROR,
};
use crate::float_bits::{f32_rounded, lemma_f32_rounded_low_bits};
use crate::text::{int_text, nat_text, push_int, push_nat, push_str};

verus! {

/// A value as the compiled code passes it around: a tagged 64-bit word.
#[derive(PartialEq, Eq, Copy, Clone, Structural, Debug)]
pub struct SnakeVal(pub u64);

/// The bit that tells numbers (0) from the other values (1).
pub const TAG_MASK: u64 = 1u64;

/// What a tagged word stands for.
#[derive(Debug, PartialEq, Eq)]
pub enum SnakeValue {
    /// A number: the word shifted right by one, arithmetically.
    Num(i64),
    Bool(bool),
    /// A float: the bit pattern of the double, the word minus its tag.
    Float(u64),
    /// A word that no value is encoded as.
    Invalid(u64),
}

/// The signed number with the same 64 bits as `x` (two's complement).
pub open spec fn signed_of(x: u64) -> int {
    if x < 0x8000_0000_0000_0000u64 { x as int } else { x - 0x1_0000_0000_0000_0000int }
}

/// Reinterprets the bits of an unsigned number as a signed number.
pub fn unsigned_to_signed(x: u64) -> (res: i64)
    ensures
        res as int == signed_of(x),
{
    let r = x as i64;
    assert(r as int == signed_of(x)) by (bit_vector)
        requires
            r == x as i64,
    ;
    r
}

/// The big-endian bytes of a 64-bit number.
pub fn u64_to_u8_array(value: u64) -> (res: [u8; 8])
    ensures
        forall|k: int| 0 <= k < 8 ==> res@[k] as u64 == (value >> (8 * (7 - k)) as u64) & 0xFF,
        value == (res@[0] as u64) << 56 | (res@[1] as u64) << 48 | (res@[2] as u64) << 40 | (res@[3] as u64) << 32
            | (res@[4] as u64) << 24 | (res@[5] as u64) << 16 | (res@[6] as u64) << 8 | (res@[7] as u64),
{
    let byte0 = ((value >> 56) & 0xFF) as u8;
    let byte1 = ((value >> 48) & 0xFF) as u8;
    let byte2 = ((value >> 40) & 0xFF) as u8;
    let byte3 = ((value >> 32) & 0xFF) as u8;
    let byte4 = ((value >> 24) & 0xFF) as u8;
    let byte5 = ((value >> 16) & 0xFF) as u8;
    let byte6 = ((value >> 8) & 0xFF) as u8;
    let byte7 = (value & 0xFF) as u8;
    assert(value == (byte0 as u64) << 56 | (byte1 as u64) << 48 | (byte2 as u64) << 40 | (byte3 as u64) << 32
        | (byte4 as u64) << 24 | (byte5 as u64) << 16 | (byte6 as u64) << 8 | (byte7 as u64)) by (bit_vector)
        requires
            byte0 == ((value >> 56) & 0xFF) as u8,
            byte1 == ((value >> 48) & 0xFF) as u8,
            byte2 == ((value >> 40) & 0xFF) as u8,
            byte3 == ((value >> 32) & 0xFF) as u8,
            byte4 == ((value >> 24) & 0xFF) as u8,
            byte5 == ((value >> 16) & 0xFF) as u8,
            byte6 == ((value >> 8) & 0xFF) as u8,
            byte7 == (value & 0xFF) as u8,
    ;
    assert(byte0 as u64 == (value >> 56) & 0xFF && byte1 as u64 == (value >> 48) & 0xFF
        && byte2 as u64 == (value >> 40) & 0xFF && byte3 as u64 == (value >> 32) & 0xFF
        && byte4 as u64 == (value >> 24) & 0xFF && byte5 as u64 == (value >> 16) & 0xFF
        && byte6 as u64 == (value >> 8) & 0xFF && byte7 as u64 == (value >> 0) & 0xFF) by (bit_vector)
        requires
            byte0 == ((value >> 56) & 0xFF) as u8,
            byte1 == ((value >> 48) & 0xFF) as u8,
            byte2 == ((value >> 40) & 0xFF) as u8,
            byte3 == ((value >> 32) & 0xFF) as u8,
            byte4 == ((value >> 24) & 0xFF) as u8,
            byte5 == ((value >> 16) & 0xFF) as u8,
            byte6 == ((value >> 8) & 0xFF) as u8,
            byte7 == (value & 0xFF) as u8,
    ;
    let res = [byte0, byte1, byte2, byte3, byte4, byte5, byte6, byte7];
    assert(res@ =~= seq![byte0, byte1, byte2, byte3, byte4, byte5, byte6, byte7]);
    res
}

/// How a word is read back: numbers have tag bit 0; `true` and `false`
/// are two fixed words; floats end in the bits `01`; nothing else is a value.
pub open spec fn snake_value(x: u64) -> SnakeValue {
    if x % 2 == 0 {
        SnakeValue::Num((signed_of(x) / 2) as i64)
    } else if x == SNAKE_TRUE {
        SnakeValue::Bool(true)
    } else if x == SNAKE_FALSE {
        SnakeValue::Bool(false)
    } else if x % 4 == 1 {
        SnakeValue::Float((x - 1) as u64)
    } else {
        SnakeValue::Invalid(x)
    }
}

/// Decodes a word into the value it stands for.
pub fn classify_snake_val(x: SnakeVal) -> (res: SnakeValue)
    ensures
        res == snake_value(x.0),
{
    let w: u64 = x.0;
    assert((w & 1 == 0) == (w % 2 == 0)) by (bit_vector);
    assert((w & 3 == 1) == (w % 4 == 1)) by (bit_vector);
    if w & TAG_MASK == 0 {
        let s = unsigned_to_signed(w);
        let n = s >> 1;
        assert(n as int == (s as int) / 2) by (bit_vector)
            requires
                n == s >> 1,
        ;
        SnakeValue::Num(n)
    } else if x == SnakeVal(SNAKE_TRUE) {
        SnakeValue::Bool(true)
    } else if x == SnakeVal(SNAKE_FALSE) {
        SnakeValue::Bool(false)
    } else if w & 3 == 1 {
        SnakeValue::Float(w - 1)
    } else {
        SnakeValue::Invalid(w)
    }
}


/// The printed form of a value; floats are left to the caller (`None`).
pub open spec fn snake_text(v: SnakeValue) -> Option<Seq<char>> {
    match v {
        SnakeValue::Num(n) => Some(int_text(n as int)),
        SnakeValue::Bool(b) => Some(if b { "true"@ } else { "false"@ }),
        SnakeValue::Float(_) => None,
        SnakeValue::Invalid(w) => Some("error: cannot print "@ + nat_text(w as nat)),
    }
}

/// The printed form of a word: a number in decimal, `true`, `false`, or an
/// error text for a word that is no value. A float gives `None`: its
/// decimal form is the caller's to write.
pub fn sprint_snake_val(x: SnakeVal) -> (res: Option<String>)
    ensures
        match res {
            Some(s) => snake_text(snake_value(x.0)) == Some(s@),
            None => snake_text(snake_value(x.0)) is None,
        },
{
    match classify_snake_val(x) {
        SnakeValue::Num(n) => {
            let mut s = String::new();
            push_int(&mut s, n);
            Some(s)
        },
        SnakeValue::Bool(b) => {
            if b {
                Some(String::from_str("true"))
            } else {
                Some(String::from_str("false"))
            }
        },
        SnakeValue::Float(_) => None,
        SnakeValue::Invalid(w) => {
            let mut s = String::new();
            push_str(&mut s, "error: cannot print ");
            push_nat(&mut s, w);
            Some(s)
        },
    }
}

/// The message of a run-time error: its text, and whether the offending
/// value is printed after it.
pub open spec fn error_text(code: u64) -> (Seq<char>, bool) {
    if code == ARITH_ERROR {
        ("arithmetic expected a number or float, but got "@, true)
    } else if code == COMP_ERROR {
        ("comparison expected a number or float, but got "@, true)
    } else if code == OVERFLOW_ERROR {
        ("overflow"@, false)
    } else if code == LOGIC_ERROR {
        ("logic expected a boolean, but got "@, true)
    } else if code == IF_ERROR {
        ("if expected a boolean, but got "@, true)
    } else if code == DIVISION_ERROR {
        ("division by zero"@, false)
    } else if code == SQRT_ERROR {
        ("sqrt expected a non-negative value"@, false)
    } else {
        ("I apologize to you, dear user. I made a bug. Here's a snake value: "@, true)
    }
}

/// The message for an error code raised by compiled code.
pub fn snake_error_message(err_code: u64) -> (res: (String, bool))
    ensures
        (res.0@, res.1) == error_text(err_code),
{
    if err_code == ARITH_ERROR {
        (String::from_str("arithmetic expected a number or float, but got "), true)
    } else if err_code == COMP_ERROR {
        (String::from_str("comparison expected a number or float, but got "), true)
    } else if err_code == OVERFLOW_ERROR {
        (String::from_str("overflow"), false)
    } else if err_code == LOGIC_ERROR {
        (String::from_str("logic expected a boolean, but got "), true)
    } else if err_code == IF_ERROR {
        (String::from_str("if expected a boolean, but got "), true)
    } else if err_code == DIVISION_ERROR {
        (String::from_str("division by zero"), false)
    } else if err_code == SQRT_ERROR {
        (String::from_str("sqrt expected a non-negative value"), false)
    } else {
        (String::from_str("I apologize to you, dear user. I made a bug. Here's a snake value: "), true)
    }
}

} // verus!

verus! {

proof fn lemma_signed_of(x: u64)
    ensures
        signed_of(x) == (x as i64) as int,
{
    let r = x as i64;
    assert(r as int == signed_of(x)) by (bit_vector)
        requires
            r == x as i64,
    ;
}

/// What the compiler loads for a literal reads back as that literal: an
/// integer `n` that the check accepts is loaded as `n << 1` and decodes
/// to `n`; `true` and `false` decode to themselves.
pub proof fn lemma_immediate_round_trip(n: i64)
    requires
        crate::check::MIN_SNAKE_INT <= n <= crate::check::MAX_SNAKE_INT,
    ensures
        snake_value((n << 1) as u64) == SnakeValue::Num(n),
        snake_value(SNAKE_TRUE) == SnakeValue::Bool(true),
        snake_value(SNAKE_FALSE) == SnakeValue::Bool(false),
{
    let w: u64 = (n << 1) as u64;
    assert((w as i64) == n * 2 && w % 2 == 0) by (bit_vector)
        requires
            w == (n << 1) as u64,
            -4611686018427387904i64 <= n <= 4611686018427387903i64,
    ;
    lemma_signed_of(w);
    assert(SNAKE_TRUE % 2 == 1);
    assert(SNAKE_FALSE % 2 == 1);
}


/// A float literal is loaded as its single-precision value's double bits
/// plus the tag 1, and reads back as a float with exactly those bits.
pub proof fn lemma_float_round_trip(b: u64)
    ensures
        f32_rounded(b) + 1 <= u64::MAX,
        snake_value((f32_rounded(b) + 1) as u64) == SnakeValue::Float(f32_rounded(b)),
{
    lemma_f32_rounded_low_bits(b);
    let x = f32_rounded(b);
    assert(x <= u64::MAX - 0x1FFF_FFFF);
    assert(SNAKE_TRUE % 4 == 3);
    assert(SNAKE_FALSE % 4 == 3);
    assert((x + 1) % 4 == 1);
}

} // verus!
