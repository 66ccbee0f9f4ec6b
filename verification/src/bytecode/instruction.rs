//! The instructions of the register machine.
use crate::bytecode::branch::BranchOffset;
use crate::bytecode::fuel::BlockFuel;
use crate::bytecode::immediate::{AnyConst32, F64Const32, I64Const32};
use crate::bytecode::register::Register;
use crate::error::TranslationError;
use vstd::prelude::*;

verus! {

/// An instruction of the register machine.
#[allow(inconsistent_fields)]
#[derive(Debug, Clone, Copy, PartialEq, Eq, Structural)]
pub enum Instruction {
    /// Consumes the fuel of a block.
    ConsumeFuel {
        /// The fuel of the block.
        fuel: BlockFuel,
    },
    /// Branches always.
    Branch {
        /// Where to branch.
        offset: BranchOffset,
    },
    /// Branches if the condition is zero.
    BranchEqz {
        /// The register of the condition.
        condition: Register,
        /// Where to branch.
        offset: BranchOffset,
    },
    /// Branches if the condition is not zero.
    BranchNez {
        /// The register of the condition.
        condition: Register,
        /// Where to branch.
        offset: BranchOffset,
    },
    /// Copies a register.
    Copy {
        /// The register that is written.
        result: Register,
        /// The register that is read.
        value: Register,
    },
    /// Writes a 32 bit constant value.
    CopyImm32 {
        /// The register that is written.
        result: Register,
        /// The constant value.
        value: AnyConst32,
    },
    /// Writes a 64 bit integer that 32 bits hold.
    CopyI64Imm32 {
        /// The register that is written.
        result: Register,
        /// The constant value.
        value: I64Const32,
    },
    /// Writes a 64 bit float that is a 32 bit float.
    CopyF64Imm32 {
        /// The register that is written.
        result: Register,
        /// The constant value.
        value: F64Const32,
    },
}

impl Instruction {
    /// Whether the instruction is a branch.
    pub open spec fn is_branch(self) -> bool {
        self is Branch || self is BranchEqz || self is BranchNez
    }

    /// The branch instruction with another offset.
    pub open spec fn with_branch_offset(self, new_offset: BranchOffset) -> Instruction {
        match self {
            Instruction::Branch { .. } => Instruction::Branch { offset: new_offset },
            Instruction::BranchEqz { condition, .. } => Instruction::BranchEqz {
                condition,
                offset: new_offset,
            },
            Instruction::BranchNez { condition, .. } => Instruction::BranchNez {
                condition,
                offset: new_offset,
            },
            instruction => instruction,
        }
    }

    /// The instruction with every use of the register `from` replaced by `to`.
    pub open spec fn with_register(self, from: Register, to: Register) -> Instruction {
        let swap = |register: Register|
            if register == from {
                to
            } else {
                register
            };
        match self {
            Instruction::ConsumeFuel { fuel } => Instruction::ConsumeFuel { fuel },
            Instruction::Branch { offset } => Instruction::Branch { offset },
            Instruction::BranchEqz { condition, offset } => Instruction::BranchEqz {
                condition: swap(condition),
                offset,
            },
            Instruction::BranchNez { condition, offset } => Instruction::BranchNez {
                condition: swap(condition),
                offset,
            },
            Instruction::Copy { result, value } => Instruction::Copy {
                result: swap(result),
                value: swap(value),
            },
            Instruction::CopyImm32 { result, value } => Instruction::CopyImm32 {
                result: swap(result),
                value,
            },
            Instruction::CopyI64Imm32 { result, value } => Instruction::CopyI64Imm32 {
                result: swap(result),
                value,
            },
            Instruction::CopyF64Imm32 { result, value } => Instruction::CopyF64Imm32 {
                result: swap(result),
                value,
            },
        }
    }

    /// Creates an instruction that consumes `amount` units of fuel.
    ///
    /// # Errors
    ///
    /// If the amount is out of bounds.
    pub fn consume_fuel(amount: u64) -> (result: Result<Self, TranslationError>)
        ensures
            result == (match BlockFuel::of(amount as int) {
                Ok(fuel) => Ok(Instruction::ConsumeFuel { fuel }),
                Err(error) => Err(error),
            }),
    {
        match BlockFuel::from_u64(amount) {
            Ok(fuel) => Ok(Instruction::ConsumeFuel { fuel }),
            Err(error) => Err(error),
        }
    }

    /// Creates an instruction that copies `value` to `result`.
    pub fn copy(result: Register, value: Register) -> (instruction: Self)
        ensures
            instruction == (Instruction::Copy { result, value }),
    {
        Instruction::Copy { result, value }
    }

    /// Creates an instruction that writes a 32 bit constant value to `result`.
    pub fn copy_imm32(result: Register, value: AnyConst32) -> (instruction: Self)
        ensures
            instruction == (Instruction::CopyImm32 { result, value }),
    {
        Instruction::CopyImm32 { result, value }
    }

    /// Creates an instruction that writes a small 64 bit integer to `result`.
    pub fn copy_i64imm32(result: Register, value: I64Const32) -> (instruction: Self)
        ensures
            instruction == (Instruction::CopyI64Imm32 { result, value }),
    {
        Instruction::CopyI64Imm32 { result, value }
    }

    /// Creates an instruction that writes a small 64 bit float to `result`.
    pub fn copy_f64imm32(result: Register, value: F64Const32) -> (instruction: Self)
        ensures
            instruction == (Instruction::CopyF64Imm32 { result, value }),
    {
        Instruction::CopyF64Imm32 { result, value }
    }

    /// Updates the branch offset of the branch instruction.
    pub fn update_branch_offset(&mut self, new_offset: BranchOffset)
        requires
            old(self).is_branch(),
        ensures
            *final(self) == old(self).with_branch_offset(new_offset),
    {
        match self {
            Instruction::Branch { offset } => offset.init(new_offset),
            Instruction::BranchEqz { offset, .. } => offset.init(new_offset),
            Instruction::BranchNez { offset, .. } => offset.init(new_offset),
            _ => {},
        }
    }

    /// Increases the fuel of the fuel consuming instruction by `delta`.
    ///
    /// # Errors
    ///
    /// If the fuel is out of bounds after this operation. The instruction is
    /// then unchanged.
    pub fn bump_fuel_consumption(&mut self, delta: u64) -> (result: Result<(), TranslationError>)
        requires
            *old(self) is ConsumeFuel,
        ensures
            match BlockFuel::of((*old(self))->fuel.units + delta) {
                Ok(fuel) => result == Ok::<(), TranslationError>(()) && *final(self) == (
                Instruction::ConsumeFuel { fuel }),
                Err(error) => result == Err::<(), TranslationError>(error) && *final(self) == *old(
                    self,
                ),
            },
    {
        match self {
            Instruction::ConsumeFuel { fuel } => fuel.bump_by(delta),
            _ => Ok(()),
        }
    }

    /// Replaces every use of the register `from` by `to`.
    pub fn replace_register(&mut self, from: Register, to: Register)
        ensures
            *final(self) == old(self).with_register(from, to),
    {
        match self {
            Instruction::BranchEqz { condition, .. } => condition.replace(from, to),
            Instruction::BranchNez { condition, .. } => condition.replace(from, to),
            Instruction::Copy { result, value } => {
                result.replace(from, to);
                value.replace(from, to);
            },
            Instruction::CopyImm32 { result, .. } => result.replace(from, to),
            Instruction::CopyI64Imm32 { result, .. } => result.replace(from, to),
            Instruction::CopyF64Imm32 { result, .. } => result.replace(from, to),
            _ => {},
        }
    }
}

} // verus!
