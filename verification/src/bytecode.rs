//! The instructions of the register machine and what they are made of.
pub mod branch;
pub mod fuel;
pub mod immediate;
pub mod instruction;
pub mod provider;
pub mod register;
