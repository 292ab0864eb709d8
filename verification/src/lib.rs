//! A compiler for a small expression language to x86-64 assembly, verified
//! with Verus, together with the decoding of the values its code computes.

pub mod syntax;
pub mod text;
pub mod names;
pub mod assembly;
pub mod compile;
pub mod check;
pub mod should_lift;
pub mod tag;
pub mod seq_exp;
pub mod lambda_lift;
pub mod float_bits;
pub mod compile_with_env;
pub mod runtime;
pub mod meaning;
