//! Inputs to instructions.
use crate::bytecode::register::Register;
use crate::value::{TypedValue, UntypedValue};
use vstd::prelude::*;

verus! {

/// An input to an instruction: a register or a constant value.
#[derive(Debug, Clone, Copy, PartialEq, Eq, Structural)]
pub enum Provider<T> {
    /// The value of a register.
    Register(Register),
    /// A constant value.
    Const(T),
}

/// An input whose constant values have a type, as the translation needs them.
pub type TypedProvider = Provider<TypedValue>;

/// An input whose constant values have lost their type.
pub type UntypedProvider = Provider<UntypedValue>;

impl TypedProvider {
    /// Converts the provider to its untyped form.
    pub fn into_untyped(self) -> (result: UntypedProvider)
        ensures
            result == (match self {
                Provider::Register(register) => Provider::Register(register),
                Provider::Const(value) => Provider::Const(value.value),
            }),
    {
        match self {
            Provider::Register(register) => Provider::Register(register),
            Provider::Const(value) => Provider::Const(UntypedValue::from(value)),
        }
    }
}

} // verus!
