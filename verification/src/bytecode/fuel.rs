//! The fuel that a block of instructions consumes.
use crate::error::{TranslationError, TranslationErrorInner};
use vstd::prelude::*;

verus! {

/// The fuel consumption of a block.
#[derive(Debug, Clone, Copy, PartialEq, Eq, Structural)]
pub struct BlockFuel {
    /// The consumed units of fuel.
    pub units: u32,
}

impl BlockFuel {
    /// The fuel of `amount` units, which must fit into 32 bits.
    pub open spec fn of(amount: int) -> Result<BlockFuel, TranslationError> {
        if amount <= u32::MAX {
            Ok(BlockFuel { units: amount as u32 })
        } else {
            Err(TranslationError::of(TranslationErrorInner::BlockFuelOutOfBounds))
        }
    }

    /// Creates the fuel of `amount` units.
    ///
    /// # Errors
    ///
    /// If the amount is out of bounds.
    pub fn from_u64(amount: u64) -> (result: Result<BlockFuel, TranslationError>)
        ensures
            result == BlockFuel::of(amount as int),
    {
        if amount <= u32::MAX as u64 {
            Ok(BlockFuel { units: amount as u32 })
        } else {
            Err(TranslationError::new(TranslationErrorInner::BlockFuelOutOfBounds))
        }
    }

    /// Increases the fuel by `delta` units.
    ///
    /// # Errors
    ///
    /// If the fuel is out of bounds after this operation. It is then unchanged.
    pub fn bump_by(&mut self, delta: u64) -> (result: Result<(), TranslationError>)
        ensures
            match BlockFuel::of(old(self).units + delta) {
                Ok(bumped) => result == Ok::<(), TranslationError>(()) && *final(self) == bumped,
                Err(error) => result == Err::<(), TranslationError>(error) && *final(self) == *old(
                    self,
                ),
            },
    {
        if delta <= (u32::MAX - self.units) as u64 {
            self.units = self.units + delta as u32;
            Ok(())
        } else {
            Err(TranslationError::new(TranslationErrorInner::BlockFuelOutOfBounds))
        }
    }
}

/// Fuel adds up: bumping twice is bumping by the sum, and fails if and only if
/// that does.
pub proof fn lemma_fuel_adds_up(fuel: BlockFuel, a: u64, b: u64)
    ensures
        match BlockFuel::of(fuel.units + a) {
            Ok(bumped) => BlockFuel::of(bumped.units + b) == BlockFuel::of(fuel.units + (a + b)),
            Err(error) => BlockFuel::of(fuel.units + (a + b)) == Err::<
                BlockFuel,
                TranslationError,
            >(error),
        },
{
}

} // verus!
