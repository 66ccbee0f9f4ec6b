//! Constant values that fit into the 32 bits an instruction has for them.
use crate::float;
use crate::float::narrowed;
use crate::value::{F32, F64};
use vstd::prelude::*;
use vstd::std_specs::convert::FromSpecImpl;

verus! {

/// A constant value of any 32 bit type.
#[derive(Debug, Clone, Copy, PartialEq, Eq, Structural)]
pub struct AnyConst32 {
    /// The bits of the value.
    pub bits: u32,
}

impl From<i32> for AnyConst32 {
    fn from(value: i32) -> (result: Self) {
        AnyConst32 { bits: value as u32 }
    }
}

impl FromSpecImpl<i32> for AnyConst32 {
    open spec fn obeys_from_spec() -> bool {
        true
    }

    open spec fn from_spec(value: i32) -> Self {
        AnyConst32 { bits: value as u32 }
    }
}

impl From<F32> for AnyConst32 {
    fn from(value: F32) -> (result: Self) {
        AnyConst32 { bits: value.bits }
    }
}

impl FromSpecImpl<F32> for AnyConst32 {
    open spec fn obeys_from_spec() -> bool {
        true
    }

    open spec fn from_spec(value: F32) -> Self {
        AnyConst32 { bits: value.bits }
    }
}

/// A 64 bit integer constant that 32 bits can hold.
#[derive(Debug, Clone, Copy, PartialEq, Eq, Structural)]
pub struct I64Const32 {
    /// The integer.
    pub value: i32,
}

impl I64Const32 {
    /// Returns the constant for `value` if 32 bits can hold it.
    pub fn from_i64(value: i64) -> (result: Option<Self>)
        ensures
            result == (if i32::MIN <= value <= i32::MAX {
                Some(I64Const32 { value: value as i32 })
            } else {
                None
            }),
    {
        if i32::MIN as i64 <= value && value <= i32::MAX as i64 {
            Some(I64Const32 { value: value as i32 })
        } else {
            None
        }
    }
}

/// A 64 bit floating point constant that is a 32 bit floating point number.
#[derive(Debug, Clone, Copy, PartialEq, Eq, Structural)]
pub struct F64Const32 {
    /// The 32 bit encoding of the number.
    pub bits: u32,
}

impl F64Const32 {
    /// Returns the constant for `value` if it is a 32 bit number.
    pub fn from_f64(value: F64) -> (result: Option<Self>)
        ensures
            result == (match narrowed(value.bits) {
                Some(bits) => Some(F64Const32 { bits }),
                None => None,
            }),
    {
        match float::narrow(value.bits) {
            Some(bits) => Some(F64Const32 { bits }),
            None => None,
        }
    }
}

} // verus!
