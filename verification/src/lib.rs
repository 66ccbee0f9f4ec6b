//! The value stack and the instruction encoder of a compiler that turns
//! WebAssembly functions into register machine code.
//!
//! - [`stack`] simulates the WebAssembly value stack and allocates registers.
//! - [`encoder`] encodes instructions and resolves branch labels.
//! - [`ordering`] puts copies into an order in which no value is lost, [`copies`]
//!   says which instructions copy values into registers, and [`execution`] what
//!   those instructions do when they are executed.
//! - [`laws`] says what calls of all these give, and how calls relate.
pub mod bytecode;
pub mod copies;
pub mod encoder;
pub mod error;
pub mod execution;
pub mod float;
pub mod func_type;
pub mod labels;
pub mod laws;
pub mod ordering;
pub mod stack;
pub mod value;
