//! Errors of the translation to register machine code.
use vstd::prelude::*;

verus! {

/// The reasons for which a translation step can fail.
#[derive(Debug, Clone, Copy, PartialEq, Eq, Structural)]
pub enum TranslationErrorInner {
    /// A branch offset does not fit into 32 bits.
    BranchOffsetOutOfBounds,
    /// The fuel of a block does not fit into 32 bits.
    BlockFuelOutOfBounds,
    /// A local variable index has no register.
    RegisterOutOfBounds,
    /// The register space is exhausted.
    AllocatedTooManyRegisters,
    /// The space of function local constant values is exhausted.
    TooManyFuncLocalConstValues,
    /// The instruction sequence cannot take another instruction.
    TooManyInstructions,
    /// The value stack holds fewer providers than were asked for.
    TooFewProviders,
}

/// An error that occurred while translating a function.
#[derive(Debug, Clone, Copy, PartialEq, Eq, Structural)]
pub struct TranslationError {
    /// What went wrong.
    pub inner: TranslationErrorInner,
}

impl TranslationError {
    /// The error with the given reason.
    pub open spec fn of(inner: TranslationErrorInner) -> Self {
        TranslationError { inner }
    }

    /// Creates a new error from its reason.
    pub fn new(inner: TranslationErrorInner) -> (error: Self)
        ensures
            error == Self::of(inner),
    {
        TranslationError { inner }
    }
}

} // verus!
