//! Function types.
use crate::value::ValueType;
use vstd::prelude::*;

verus! {

/// The type of a function: the types of its parameters and results.
#[derive(Debug)]
pub struct FuncType {
    /// The types of the parameters.
    pub params: Vec<ValueType>,
    /// The types of the results.
    pub results: Vec<ValueType>,
}

impl FuncType {
    /// Creates the function type with the given parameters and results.
    pub fn new(params: Vec<ValueType>, results: Vec<ValueType>) -> (func_type: Self)
        ensures
            func_type.params == params,
            func_type.results == results,
    {
        FuncType { params, results }
    }

    /// Returns the types of the parameters and of the results.
    pub fn params_results(&self) -> (result: (&[ValueType], &[ValueType]))
        ensures
            result.0@ == self.params@,
            result.1@ == self.results@,
    {
        (self.params.as_slice(), self.results.as_slice())
    }
}

} // verus!
