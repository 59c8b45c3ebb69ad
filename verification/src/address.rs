//! The address of a tree's account: a program address derived from the
//! tree's authority and a bump byte.

use vstd::prelude::*;

verus! {

/// The first seed of every tree address: the ASCII bytes of `merkle`.
pub const MERKLE_SEED: [u8; 6] = [0x6d, 0x65, 0x72, 0x6b, 0x6c, 0x65];

/// The program address that `pinocchio_pubkey` derives from `seeds`, an
/// optional bump byte and the program id (a SHA-256 digest of them and a
/// fixed marker).
pub uninterp spec fn program_address(seeds: Seq<Seq<u8>>, bump: Option<u8>, program_id: Seq<u8>) -> Seq<u8>;

/// Derives a program address from three seeds with
/// `pinocchio_pubkey::derive_address_const`, which hashes the seeds, the
/// bump if one is given, the program id and the PDA marker. The contract
/// claims that the address is the value of the name `program_address` on
/// these arguments; like the crate's function, it does not check that the
/// address lies off the curve.
#[verifier::external_body]
fn derive_address(
    seed0: &[u8],
    seed1: &[u8],
    seed2: &[u8],
    bump: Option<u8>,
    program_id: &[u8; 32],
) -> (res: [u8; 32])
    ensures
        res@ == program_address(seq![seed0@, seed1@, seed2@], bump, program_id@),
{
    pinocchio_pubkey::derive_address_const(&[seed0, seed1, seed2], bump, program_id)
}

/// The seeds of the address of the tree of `authority` with bump `bump`.
pub open spec fn tree_seeds(authority: Seq<u8>, bump: u8) -> Seq<Seq<u8>> {
    seq![MERKLE_SEED@, authority, seq![bump]]
}

/// The address of the account of the tree of `authority`, derived with the
/// bump byte among the seeds.
pub open spec fn spec_tree_address(authority: Seq<u8>, bump: u8, program_id: Seq<u8>) -> Seq<u8> {
    program_address(tree_seeds(authority, bump), None, program_id)
}

/// The address of the account of the tree of `authority` under program
/// `program_id`, with `bump` as the last seed.
pub fn tree_address(authority: &[u8; 32], bump: u8, program_id: &[u8; 32]) -> (res: [u8; 32])
    ensures
        res@ == spec_tree_address(authority@, bump, program_id@),
{
    let bump_seed = [bump];
    let seed = MERKLE_SEED;
    let res = derive_address(seed.as_slice(), authority.as_slice(), bump_seed.as_slice(), None, program_id);
    assert(bump_seed@ =~= seq![bump]);
    assert(tree_seeds(authority@, bump) =~= seq![seed@, authority@, bump_seed@]);
    res
}

} // verus!
