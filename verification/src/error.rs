//! The errors an instruction can end with.

use vstd::prelude::*;

verus! {

/// The reasons an instruction fails, as the runtime reports them.
#[derive(Clone, Copy, Debug, PartialEq, Eq, Structural)]
pub enum ProgramError {
    NotEnoughAccountKeys,
    MissingRequiredSignature,
    AccountAlreadyInitialized,
    InvalidInstructionData,
    InvalidArgument,
    InvalidAccountData,
    Custom(u32),
}

/// The custom error code of an insertion into a full tree.
pub const ERR_TREE_FULL: u32 = 1;

/// The custom error code of a proof that does not lead to the current root.
pub const ERR_INVALID_PROOF: u32 = 2;

} // verus!
