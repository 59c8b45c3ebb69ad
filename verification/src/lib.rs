//! An append-only incremental Merkle tree of fixed depth, kept as the
//! frontier of filled subtrees, with the instruction logic of the program
//! that stores it in an account.

pub mod address;
pub mod error;
pub mod hash;
pub mod ix;
pub mod laws;
pub mod merkle;
pub mod rent;
pub mod state;
