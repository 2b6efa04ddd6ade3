//! Instruction selection for a baseline machine-code backend.
//!
//! A linear stream of single-output micro-operations ("Low IR") is matched
//! against a declarative table of target instruction forms. Each form is an
//! ordered list of parameter slots and generic operations; one form may realise
//! several consecutive Low IR operations at once. Addressing modes and clobbers
//! are not special-cased: they are ordinary operations in the table.

pub mod actions;
pub mod bitset;
pub mod machine;
pub mod reloc;
pub mod select;
pub mod x64;

pub use machine::{Action, Immediate, InstrBuilder, InstrDef, MachineSpec, Param, Reg, RegClass, Slot, Var};
