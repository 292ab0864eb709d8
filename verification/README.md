# snake

A compiler for a small expression language (integers, booleans,
single-precision floats, `let`, `if`, mutually recursive functions) to
x86-64 assembly, with the run-time support the emitted code calls.

The compiler passes live in `src/` and are verified with Verus:

- `check` — well-formedness check, with the error it reports (`compile::CompileErr`);
- `tag` — numbering of nodes, and renaming of variables and functions apart;
- `should_lift`, `lambda_lift` — lifting of functions called out of tail position;
- `seq_exp` — sequential (A-normal) form;
- `compile_with_env` — code generation, over the instruction types of `assembly`;
- `compile` — the pipeline from a checked program to assembly text;
- `runtime` — decoding of run-time values and error messages;
- `float_bits` — rounding of float literals to single precision, on bit patterns;
- `names`, `text`, `syntax` — name sets and maps, decimal text, syntax trees.

`app/main.rs` holds the run-time support linked with the compiled code: it starts the
program, prints values and reports run-time errors.
