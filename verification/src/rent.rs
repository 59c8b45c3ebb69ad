//! The balance that keeps a tree's account rent-exempt.

use vstd::prelude::*;

use pinocchio::sysvars::rent::{ACCOUNT_STORAGE_OVERHEAD, DEFAULT_LAMPORTS_PER_BYTE};

use crate::state::MerkleTree;

verus! {

/// Reads `pinocchio::sysvars::rent::ACCOUNT_STORAGE_OVERHEAD`, the bytes
/// charged for an account besides its data; the contract claims the value
/// 128 that the crate's source gives it.
#[verifier::external_body]
fn account_storage_overhead() -> (res: u64)
    ensures
        res == 128,
{
    ACCOUNT_STORAGE_OVERHEAD
}

/// Reads `pinocchio::sysvars::rent::DEFAULT_LAMPORTS_PER_BYTE`, the default
/// rent rate; the contract claims the value 6960 that the crate's source
/// gives it.
#[verifier::external_body]
fn default_lamports_per_byte() -> (res: u64)
    ensures
        res == 6960,
{
    DEFAULT_LAMPORTS_PER_BYTE
}

/// The lamports a tree's account is funded with: twice the default rent
/// of its storage, the data and the account overhead.
pub fn rent_exempt_lamports() -> (res: u64)
    ensures
        res == 2 * (128 + MerkleTree::LEN) * 6960,
{
    let space = MerkleTree::LEN as u64;
    2 * (account_storage_overhead() + space) * default_lamports_per_byte()
}

} // verus!
