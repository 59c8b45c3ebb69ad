//! What the instructions are for, stated over their inputs and results:
//! which requests succeed, what a success means, and when the entry point
//! gives up.

use vstd::prelude::*;

use vstd::arithmetic::power2::pow2;
use vstd::bytes::spec_u32_from_le_bytes;

use crate::address::program_address;
use crate::error::{ProgramError, ERR_INVALID_PROOF, ERR_TREE_FULL};
use crate::hash::{sha256, zero_hash};
use crate::ix::{
    initialize_outcome, insert_outcome, instruction_aborts, instruction_outcome, verify_outcome, AccountInput, Effect,
    InitializePlan,
};
use crate::merkle::{proof_root, proof_siblings};
use crate::state::MerkleTree;

verus! {

/// The seeds of the address of the tree of `authority` with bump `bump`:
/// the bytes of `merkle`, the authority, the bump.
pub open spec fn merkle_seeds(authority: Seq<u8>, bump: u8) -> Seq<Seq<u8>> {
    seq![seq![0x6du8, 0x65u8, 0x72u8, 0x6bu8, 0x6cu8, 0x65u8], authority, seq![bump]]
}

// ---------------------------------------------------------------------------
// Initialize

/// Initialization accepts every bump that derives the tree account's
/// address: with three accounts, a signing authority and an empty tree
/// account at the address derived from the authority and the first data
/// byte, it succeeds, funding 11,692,800 lamports for 712 bytes and storing
/// the tree of that authority and bump with no leaves and the empty root.
pub proof fn initialize_accepts_every_deriving_bump(
    program_id: Seq<u8>,
    accounts: Seq<AccountInput>,
    data: Seq<u8>,
    res: Result<InitializePlan, ProgramError>,
)
    requires
        initialize_outcome(program_id, accounts, data, res),
        accounts.len() >= 3,
        accounts[0].is_signer,
        accounts[1].data@.len() == 0,
        data.len() >= 1,
        accounts[1].address@ == program_address(merkle_seeds(accounts[0].address@, data[0]), None, program_id),
    ensures
        res is Ok,
        res matches Ok(plan) ==> {
            &&& plan.lamports == 11_692_800
            &&& plan.space == 712
            &&& plan.tree.authority@ == accounts[0].address@
            &&& plan.tree.bump == data[0]
            &&& plan.tree.depth == 20
            &&& plan.tree.next_index == 0
            &&& plan.tree.current_root@ == zero_hash(20)
        },
{
    assert(merkle_seeds(accounts[0].address@, data[0]) =~= crate::address::tree_seeds(accounts[0].address@, data[0]));
}

/// Initialization succeeds only on such requests: a success means three
/// accounts, a signing authority, an empty tree account, a bump byte, and
/// the tree account at the address derived from them.
pub proof fn initialize_succeeds_only_at_derived_address(
    program_id: Seq<u8>,
    accounts: Seq<AccountInput>,
    data: Seq<u8>,
    res: Result<InitializePlan, ProgramError>,
)
    requires
        initialize_outcome(program_id, accounts, data, res),
        res is Ok,
    ensures
        accounts.len() >= 3,
        accounts[0].is_signer,
        accounts[1].data@.len() == 0,
        data.len() >= 1,
        accounts[1].address@ == program_address(merkle_seeds(accounts[0].address@, data[0]), None, program_id),
{
    if accounts.len() >= 3 && data.len() >= 1 {
        assert(merkle_seeds(accounts[0].address@, data[0]) =~= crate::address::tree_seeds(accounts[0].address@, data[0]));
    }
}

/// What initialization answers a refused request, the first failing check
/// deciding: too few accounts, an authority that did not sign, a tree
/// account that already holds data, no bump byte, an address that the
/// authority and bump do not derive.
pub proof fn initialize_refusals(
    program_id: Seq<u8>,
    accounts: Seq<AccountInput>,
    data: Seq<u8>,
    res: Result<InitializePlan, ProgramError>,
)
    requires
        initialize_outcome(program_id, accounts, data, res),
    ensures
        accounts.len() < 3 ==> (res == Err::<InitializePlan, ProgramError>(ProgramError::NotEnoughAccountKeys)),
        accounts.len() >= 3 && !accounts[0].is_signer ==> (res == Err::<InitializePlan, ProgramError>(ProgramError::MissingRequiredSignature)),
        accounts.len() >= 3 && accounts[0].is_signer && accounts[1].data@.len() > 0 ==> (res == Err::<InitializePlan, ProgramError>(ProgramError::AccountAlreadyInitialized)),
        accounts.len() >= 3 && accounts[0].is_signer && accounts[1].data@.len() == 0 && data.len() == 0
            ==> (res == Err::<InitializePlan, ProgramError>(ProgramError::InvalidInstructionData)),
        accounts.len() >= 3 && accounts[0].is_signer && accounts[1].data@.len() == 0 && data.len() >= 1
            && accounts[1].address@ != program_address(merkle_seeds(accounts[0].address@, data[0]), None, program_id)
            ==> (res == Err::<InitializePlan, ProgramError>(ProgramError::InvalidArgument)),
{
    if accounts.len() >= 3 && data.len() >= 1 {
        assert(merkle_seeds(accounts[0].address@, data[0]) =~= crate::address::tree_seeds(accounts[0].address@, data[0]));
    }
}

// ---------------------------------------------------------------------------
// Insert

/// What an insertion answers a refused request, the first failing check
/// deciding: too few accounts, an unsigned authority, a leaf shorter than
/// 32 bytes, the zero leaf, a tree account not of a tree's size, a stored
/// authority other than the signer, an address not derived from the stored
/// authority and bump, a tree without room.
pub proof fn insert_refusals(
    program_id: Seq<u8>,
    accounts: Seq<AccountInput>,
    data: Seq<u8>,
    res: Result<MerkleTree, ProgramError>,
)
    requires
        insert_outcome(program_id, accounts, data, res),
    ensures
        accounts.len() < 2 ==> (res == Err::<MerkleTree, ProgramError>(ProgramError::NotEnoughAccountKeys)),
        accounts.len() >= 2 && !accounts[0].is_signer ==> (res == Err::<MerkleTree, ProgramError>(ProgramError::MissingRequiredSignature)),
        accounts.len() >= 2 && accounts[0].is_signer && data.len() < 32 ==> (res == Err::<MerkleTree, ProgramError>(ProgramError::InvalidInstructionData)),
        accounts.len() >= 2 && accounts[0].is_signer && data.len() >= 32 && (forall|k: int|
            0 <= k < 32 ==> data[k] == 0u8) ==> (res == Err::<MerkleTree, ProgramError>(ProgramError::InvalidArgument)),
        accounts.len() >= 2 && accounts[0].is_signer && data.len() >= 32 && (exists|k: int|
            0 <= k < 32 && data[k] != 0u8) ==> {
            let b = accounts[1].data@;
            &&& b.len() != 712 ==> (res == Err::<MerkleTree, ProgramError>(ProgramError::InvalidAccountData))
            &&& b.len() == 712 && b.subrange(0, 32) != accounts[0].address@ ==> (res == Err::<MerkleTree, ProgramError>(ProgramError::InvalidArgument))
            &&& b.len() == 712 && b.subrange(0, 32) == accounts[0].address@ && accounts[1].address@
                != program_address(merkle_seeds(b.subrange(0, 32), b[33]), None, program_id) ==> (res == Err::<MerkleTree, ProgramError>(ProgramError::InvalidArgument))
            &&& b.len() == 712 && b.subrange(0, 32) == accounts[0].address@ && accounts[1].address@
                == program_address(merkle_seeds(b.subrange(0, 32), b[33]), None, program_id)
                && spec_u32_from_le_bytes(b.subrange(36, 40)) >= pow2(b[32] as nat) ==> (res == Err::<MerkleTree, ProgramError>(ProgramError::Custom(ERR_TREE_FULL)))
        },
{
    if accounts.len() >= 2 && accounts[1].data@.len() >= 34 {
        let b = accounts[1].data@;
        assert(merkle_seeds(b.subrange(0, 32), b[33]) =~= crate::address::tree_seeds(b.subrange(0, 32), b[33]));
    }
    if data.len() >= 32 {
        if forall|k: int| 0 <= k < 32 ==> data[k] == 0u8 {
            assert(data.subrange(0, 32) =~= crate::hash::zero_leaf());
        } else {
            let k = choose|k: int| 0 <= k < 32 && data[k] != 0u8;
            assert(data.subrange(0, 32)[k] != crate::hash::zero_leaf()[k]);
        }
    }
}

/// The only leaf an insertion refuses is the all-zero one: when the stored
/// authority signs, the tree account is at the address derived from the
/// stored authority and bump, and the tree has room, the insertion succeeds
/// exactly when some byte of the leaf is not zero, and fails otherwise with
/// `InvalidArgument`.
pub proof fn insert_refuses_only_the_zero_leaf(
    program_id: Seq<u8>,
    accounts: Seq<AccountInput>,
    data: Seq<u8>,
    res: Result<MerkleTree, ProgramError>,
)
    requires
        insert_outcome(program_id, accounts, data, res),
        accounts.len() >= 2,
        accounts[0].is_signer,
        data.len() >= 32,
        accounts[1].data@.len() == 712,
        accounts[1].data@.subrange(0, 32) == accounts[0].address@,
        accounts[1].address@ == program_address(
            merkle_seeds(accounts[1].data@.subrange(0, 32), accounts[1].data@[33]),
            None,
            program_id,
        ),
        spec_u32_from_le_bytes(accounts[1].data@.subrange(36, 40)) < pow2(accounts[1].data@[32] as nat),
    ensures
        res is Ok <==> exists|k: int| 0 <= k < 32 && data[k] != 0u8,
        res is Err ==> res == Err::<MerkleTree, ProgramError>(ProgramError::InvalidArgument),
{
    let b = accounts[1].data@;
    assert(merkle_seeds(b.subrange(0, 32), b[33]) =~= crate::address::tree_seeds(b.subrange(0, 32), b[33]));
    if exists|k: int| 0 <= k < 32 && data[k] != 0u8 {
        let k = choose|k: int| 0 <= k < 32 && data[k] != 0u8;
        assert(data.subrange(0, 32)[k] != crate::hash::zero_leaf()[k]);
    } else {
        assert(data.subrange(0, 32) =~= crate::hash::zero_leaf());
    }
}

/// An insertion succeeds only on such requests: a success means the stored
/// authority signed, the tree account is at its derived address, the tree
/// had room, and the leaf is not all zero.
pub proof fn insert_succeeds_only_for_authority_with_room(
    program_id: Seq<u8>,
    accounts: Seq<AccountInput>,
    data: Seq<u8>,
    res: Result<MerkleTree, ProgramError>,
)
    requires
        insert_outcome(program_id, accounts, data, res),
        res is Ok,
    ensures
        accounts.len() >= 2,
        accounts[0].is_signer,
        data.len() >= 32,
        exists|k: int| 0 <= k < 32 && data[k] != 0u8,
        accounts[1].data@.len() == 712,
        accounts[1].data@.subrange(0, 32) == accounts[0].address@,
        accounts[1].address@ == program_address(
            merkle_seeds(accounts[1].data@.subrange(0, 32), accounts[1].data@[33]),
            None,
            program_id,
        ),
        spec_u32_from_le_bytes(accounts[1].data@.subrange(36, 40)) < pow2(accounts[1].data@[32] as nat),
{
    let b = accounts[1].data@;
    assert(merkle_seeds(b.subrange(0, 32), b[33]) =~= crate::address::tree_seeds(b.subrange(0, 32), b[33]));
    if forall|k: int| 0 <= k < 32 ==> data[k] == 0u8 {
        assert(data.subrange(0, 32) =~= crate::hash::zero_leaf());
    }
}


// ---------------------------------------------------------------------------
// Verify

/// The hashes `hashes` climb from `leaf` to `root` along `data`'s proof:
/// each is the one below hashed with the sibling for its height, on the
/// left where the bit of the index for that height is 0 and on the right
/// where it is 1; there is one per height up to `depth`.
pub open spec fn climbs_to(hashes: Seq<Seq<u8>>, data: Seq<u8>, depth: int, root: Seq<u8>) -> bool {
    let index = spec_u32_from_le_bytes(data.subrange(32, 36)) as nat;
    &&& hashes.len() == depth + 1
    &&& hashes[0] == data.subrange(0, 32)
    &&& forall|i: int|
        0 <= i < depth ==> #[trigger] hashes[i + 1] == (if (index / pow2(i as nat)) % 2 == 0 {
            sha256(hashes[i] + data.subrange(36 + 32 * i, 68 + 32 * i))
        } else {
            sha256(data.subrange(36 + 32 * i, 68 + 32 * i) + hashes[i])
        })
    &&& hashes[depth] == root
}

proof fn lemma_climb_is_proof_root(hashes: Seq<Seq<u8>>, data: Seq<u8>, depth: int, root: Seq<u8>, i: int)
    requires
        climbs_to(hashes, data, depth, root),
        0 <= depth <= 20,
        data.len() >= 676,
        0 <= i <= depth,
    ensures
        hashes[i] == proof_root(
            data.subrange(0, 32),
            spec_u32_from_le_bytes(data.subrange(32, 36)) as nat,
            proof_siblings(data.subrange(36, 676), depth as nat),
            i as nat,
        ),
    decreases i,
{
    if i > 0 {
        lemma_climb_is_proof_root(hashes, data, depth, root, i - 1);
        let j = i - 1;
        assert(proof_siblings(data.subrange(36, 676), depth as nat)[j] =~= data.subrange(36 + 32 * j, 68 + 32 * j));
        assert(hashes[j + 1] == hashes[i]);
    }
}

/// Verification accepts exactly the proofs that lead to the stored root:
/// for an account holding a tree of height at most 20 and data with a
/// leaf, an index and a full proof, it succeeds exactly when the leaf,
/// hashed up with the siblings in the order the index's bits give, reaches
/// the stored root, whatever the stored count; otherwise it fails with the
/// invalid-proof code.
pub proof fn verify_accepts_exactly_paths_to_root(
    accounts: Seq<AccountInput>,
    data: Seq<u8>,
    res: Result<(), ProgramError>,
)
    requires
        verify_outcome(accounts, data, res),
        accounts.len() >= 1,
        data.len() >= 676,
        accounts[0].data@.len() == 712,
        accounts[0].data@[32] <= 20,
    ensures
        res is Ok <==> exists|hashes: Seq<Seq<u8>>|
            climbs_to(hashes, data, accounts[0].data@[32] as int, accounts[0].data@.subrange(40, 72)),
        res is Err ==> res == Err::<(), ProgramError>(ProgramError::Custom(ERR_INVALID_PROOF)),
{
    let d = accounts[0].data@[32] as int;
    let root = accounts[0].data@.subrange(40, 72);
    let leaf = data.subrange(0, 32);
    let index = spec_u32_from_le_bytes(data.subrange(32, 36)) as nat;
    let sibs = proof_siblings(data.subrange(36, 676), d as nat);
    if exists|hashes: Seq<Seq<u8>>| climbs_to(hashes, data, d, root) {
        let hashes = choose|hashes: Seq<Seq<u8>>| climbs_to(hashes, data, d, root);
        lemma_climb_is_proof_root(hashes, data, d, root, d);
    }
    if res is Ok {
        let hashes = Seq::new((d + 1) as nat, |i: int| proof_root(leaf, index, sibs, i as nat));
        assert forall|i: int| 0 <= i < d implies #[trigger] hashes[i + 1] == (if (index / pow2(i as nat)) % 2 == 0 {
            sha256(hashes[i] + data.subrange(36 + 32 * i, 68 + 32 * i))
        } else {
            sha256(data.subrange(36 + 32 * i, 68 + 32 * i) + hashes[i])
        }) by {
            assert(sibs[i] =~= data.subrange(36 + 32 * i, 68 + 32 * i));
        }
        assert(climbs_to(hashes, data, d, root));
    }
}

/// What a verification answers a refused request before looking at the
/// proof: no account, data shorter than a leaf, an index and a full proof,
/// an account not of a tree's size.
pub proof fn verify_refusals(accounts: Seq<AccountInput>, data: Seq<u8>, res: Result<(), ProgramError>)
    requires
        verify_outcome(accounts, data, res),
    ensures
        accounts.len() < 1 ==> res == Err::<(), ProgramError>(ProgramError::NotEnoughAccountKeys),
        accounts.len() >= 1 && data.len() < 676 ==> res == Err::<(), ProgramError>(
            ProgramError::InvalidInstructionData,
        ),
        accounts.len() >= 1 && data.len() >= 676 && accounts[0].data@.len() != 712 ==> res == Err::<
            (),
            ProgramError,
        >(ProgramError::InvalidAccountData),
{
}

// ---------------------------------------------------------------------------
// Dispatch

/// The first byte of an instruction selects its handler, which gets the
/// remaining bytes: 0 initializes, 1 inserts, 2 verifies; an empty
/// instruction and any other first byte are invalid instruction data.
pub proof fn dispatch_on_first_byte(
    program_id: Seq<u8>,
    accounts: Seq<AccountInput>,
    data: Seq<u8>,
    res: Result<Effect, ProgramError>,
)
    requires
        instruction_outcome(program_id, accounts, data, res),
    ensures
        data.len() == 0 || data[0] > 2 ==> (res == Err::<Effect, ProgramError>(ProgramError::InvalidInstructionData)),
        data.len() > 0 && data[0] == 0 ==> match res {
            Ok(Effect::Initialize(plan)) => initialize_outcome(program_id, accounts, data.subrange(1, data.len() as int), Ok(plan)),
            Err(e) => initialize_outcome(program_id, accounts, data.subrange(1, data.len() as int), Err(e)),
            _ => false,
        },
        data.len() > 0 && data[0] == 1 ==> match res {
            Ok(Effect::Insert(tree)) => insert_outcome(program_id, accounts, data.subrange(1, data.len() as int), Ok(tree)),
            Err(e) => insert_outcome(program_id, accounts, data.subrange(1, data.len() as int), Err(e)),
            _ => false,
        },
        data.len() > 0 && data[0] == 2 ==> match res {
            Ok(Effect::Verify) => verify_outcome(accounts, data.subrange(1, data.len() as int), Ok(())),
            Err(e) => verify_outcome(accounts, data.subrange(1, data.len() as int), Err(e)),
            _ => false,
        },
{
}

// ---------------------------------------------------------------------------
// The checked entry point

/// The checked entry point gives up only on trees it cannot walk: when no
/// account of a tree's size stores a height above 20 (as every tree that
/// initialization creates), it runs the instruction.
pub proof fn entry_runs_every_walkable_tree(program_id: Seq<u8>, accounts: Seq<AccountInput>, data: Seq<u8>)
    requires
        forall|i: int| 0 <= i < accounts.len() && accounts[i].data@.len() == 712 ==> #[trigger] accounts[i].data@[32] <= 20,
    ensures
        !instruction_aborts(program_id, accounts, data),
{
    if accounts.len() >= 2 && accounts[1].data@.len() == 712 {
        assert(accounts[1].data@[32] <= 20);
    }
    if accounts.len() >= 1 && accounts[0].data@.len() == 712 {
        assert(accounts[0].data@[32] <= 20);
    }
}

/// The checked entry point gives up only where a stored tree is too high:
/// an abort means the instruction is an insertion into a tree higher than
/// 20 (or one whose capacity does not fit in 32 bits) or a verification of
/// a tree higher than 20.
pub proof fn entry_aborts_only_on_high_trees(program_id: Seq<u8>, accounts: Seq<AccountInput>, data: Seq<u8>)
    requires
        instruction_aborts(program_id, accounts, data),
    ensures
        data.len() > 0,
        data[0] == 1 || data[0] == 2,
        data[0] == 1 ==> accounts.len() >= 2 && accounts[1].data@.len() == 712 && accounts[1].data@[32] > 20,
        data[0] == 2 ==> accounts.len() >= 1 && accounts[0].data@.len() == 712 && accounts[0].data@[32] > 20,
{
}

} // verus!
