# regmach

The value stack and the instruction encoder of a compiler from WebAssembly
functions to register machine code, written and proved in Verus.

- `src/value.rs`, `src/float.rs`: values, and which 64 bit floats are 32 bit floats.
- `src/bytecode/`: registers, providers, immediates, branch offsets, fuel, instructions.
- `src/stack.rs`, `src/stack/`: the value stack. `model.rs` says what it is
  mathematically, `laws.rs` relates its operations. Its parts are the provider stack,
  the register allocator and the pool of function local constant values.
- `src/labels.rs`, `src/encoder.rs`: branch labels and the instruction encoder.
- `src/ordering.rs`, `src/copies.rs`, `src/execution.rs`: in which order copies of values
  are made, how they are encoded, and what the encoded instructions do when they are
  executed.

The conversions between typed numbers and untyped bits are those of the `wasmi_core`
crate. They are the trusted items of the library, together with the conversion of a
type into itself from the standard library.
