//! Laws of the library: what calls of its functions give, and how calls relate.
//!
//! Each law speaks of calls that have been made. It is stated over what went into
//! the calls and what came out of them, for all inputs.
pub mod allocation;
pub mod bytecode;
pub mod encoding;
pub mod labels;
pub mod stack;
pub mod values;
