//! References to instructions and branches between them.
use crate::error::{TranslationError, TranslationErrorInner};
use vstd::prelude::*;

verus! {

/// A reference to an instruction of a sequence.
#[derive(Debug, Clone, Copy, PartialEq, Eq, Structural)]
pub struct Instr {
    /// The index of the instruction.
    pub index: u32,
}

impl Instr {
    /// Creates the reference to the instruction at the given index.
    pub fn from_usize(index: usize) -> (instr: Self)
        requires
            index <= u32::MAX,
        ensures
            instr.index == index,
    {
        Instr { index: index as u32 }
    }

    /// Returns the index of the instruction.
    pub fn into_usize(self) -> (index: usize)
        ensures
            index == self.index,
    {
        self.index as usize
    }
}

/// The distance from a branch instruction to its target.
///
/// An offset of zero stands for a target that is not known yet.
#[derive(Debug, Clone, Copy, PartialEq, Eq, Structural)]
pub struct BranchOffset {
    /// The number of instructions to go forward.
    pub offset: i32,
}

impl BranchOffset {
    /// The offset from `src` to `dst`, which must fit into 32 bits.
    pub open spec fn between(src: Instr, dst: Instr) -> Result<BranchOffset, TranslationError> {
        if i32::MIN <= dst.index - src.index <= i32::MAX {
            Ok(BranchOffset { offset: (dst.index - src.index) as i32 })
        } else {
            Err(TranslationError::of(TranslationErrorInner::BranchOffsetOutOfBounds))
        }
    }

    /// The offset to a target that is not known yet.
    pub open spec fn unknown() -> BranchOffset {
        BranchOffset { offset: 0 }
    }

    /// Creates an uninitialized offset.
    pub fn uninit() -> (result: Self)
        ensures
            result == Self::unknown(),
    {
        BranchOffset { offset: 0 }
    }

    /// Creates the offset from `src` to `dst`.
    ///
    /// # Errors
    ///
    /// If the offset is out of bounds.
    pub fn from_src_to_dst(src: Instr, dst: Instr) -> (result: Result<Self, TranslationError>)
        ensures
            result == Self::between(src, dst),
    {
        let offset: i64 = dst.index as i64 - src.index as i64;
        if i32::MIN as i64 <= offset && offset <= i32::MAX as i64 {
            Ok(BranchOffset { offset: offset as i32 })
        } else {
            Err(TranslationError::new(TranslationErrorInner::BranchOffsetOutOfBounds))
        }
    }

    /// Initializes the offset.
    pub fn init(&mut self, new_offset: BranchOffset)
        ensures
            *final(self) == new_offset,
    {
        *self = new_offset;
    }

    /// Returns the number of instructions to go forward.
    pub fn to_i32(self) -> (offset: i32)
        ensures
            offset == self.offset,
    {
        self.offset
    }
}

} // verus!
