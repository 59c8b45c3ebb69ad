//! The program's instructions: initialize a tree, insert a leaf, verify a
//! proof of membership, and the dispatch on the instruction's first byte.
//!
//! The accounts come in as plain values; what an instruction writes or asks
//! of the runtime comes back as its result.

use vstd::prelude::*;

use vstd::arithmetic::power2::pow2;
use vstd::bytes::spec_u32_from_le_bytes;

use crate::address::{spec_tree_address, tree_address};
use crate::error::{ProgramError, ERR_INVALID_PROOF, ERR_TREE_FULL};
use crate::hash::{is_zero_leaf, nodes_equal, zero_leaf, DEPTH};
use crate::merkle::{
    auth_path, compute_root, insert_leaf, insertion_extends_tree, inserted_leaf_has_proof, is_fresh, is_insertion,
    proof_root, proof_siblings, represents,
};
use crate::rent::rent_exempt_lamports;
use crate::state::{encodes, read_node, MerkleTree, BUMP_OFFSET, DEPTH_OFFSET, NEXT_INDEX_OFFSET};

verus! {

/// An account handed to an instruction: its address, whether it signed the
/// transaction, and its data.
pub struct AccountInput {
    pub address: [u8; 32],
    pub is_signer: bool,
    pub data: Vec<u8>,
}

/// What initialization asks of the runtime: create the tree's account at
/// the derived address, funded by the authority with `lamports`, with
/// `space` bytes of data owned by the program, then store `tree` in it.
pub struct InitializePlan {
    pub lamports: u64,
    pub space: u64,
    pub tree: MerkleTree,
}

/// The byte length of the data of a verify instruction: leaf, index and
/// the siblings of a path of the program's height.
pub const VERIFY_DATA_LEN: usize = 32 + 4 + 32 * DEPTH;

/// The stored height of the tree in account data `bytes` is one that a
/// verification can walk, if the data has the size of a tree: the proof
/// holds a sibling for each height up to `DEPTH`.
pub open spec fn stored_depth_ok(bytes: Seq<u8>) -> bool {
    bytes.len() == MerkleTree::LEN ==> bytes[32] <= DEPTH
}

/// A verification walks the stored tree: it has an account and the data of
/// a full proof.
pub open spec fn verify_reaches_walk(accounts: Seq<AccountInput>, data: Seq<u8>) -> bool {
    accounts.len() >= 1 && data.len() >= VERIFY_DATA_LEN
}

// ---------------------------------------------------------------------------
// Initialize

/// Why initialization fails, checked in this order: fewer than three
/// accounts; the authority (first account) did not sign; the tree account
/// (second) already holds data; no bump byte; the tree account is not at
/// the address derived from the authority and the bump.
pub open spec fn initialize_failure(program_id: Seq<u8>, accounts: Seq<AccountInput>, data: Seq<u8>) -> Option<ProgramError> {
    if accounts.len() < 3 {
        Some(ProgramError::NotEnoughAccountKeys)
    } else if !accounts[0].is_signer {
        Some(ProgramError::MissingRequiredSignature)
    } else if accounts[1].data@.len() != 0 {
        Some(ProgramError::AccountAlreadyInitialized)
    } else if data.len() == 0 {
        Some(ProgramError::InvalidInstructionData)
    } else if accounts[1].address@ != spec_tree_address(accounts[0].address@, data[0], program_id) {
        Some(ProgramError::InvalidArgument)
    } else {
        None
    }
}

/// `res` is the outcome of initialization: the failure above, or the plan
/// that funds a rent-exempt account of a tree's size and stores in it the
/// fresh tree of the authority with the given bump.
pub open spec fn initialize_outcome(
    program_id: Seq<u8>,
    accounts: Seq<AccountInput>,
    data: Seq<u8>,
    res: Result<InitializePlan, ProgramError>,
) -> bool {
    match initialize_failure(program_id, accounts, data) {
        Some(e) => res == Err::<InitializePlan, ProgramError>(e),
        None => res matches Ok(plan) && {
            &&& plan.lamports == 2 * (128 + MerkleTree::LEN) * 6960
            &&& plan.space == MerkleTree::LEN
            &&& is_fresh(plan.tree, accounts[0].address@, data[0])
        },
    }
}

/// Checks an initialize instruction (accounts: authority, tree, system
/// program; data: the bump) and plans the creation of the tree.
pub fn process_initialize(program_id: &[u8; 32], accounts: &[AccountInput], data: &[u8]) -> (res: Result<InitializePlan, ProgramError>)
    ensures
        initialize_outcome(program_id@, accounts@, data@, res),
{
    if accounts.len() < 3 {
        return Err(ProgramError::NotEnoughAccountKeys);
    }
    let authority = &accounts[0];
    let merkle_tree = &accounts[1];
    if !authority.is_signer {
        return Err(ProgramError::MissingRequiredSignature);
    }
    if merkle_tree.data.len() != 0 {
        return Err(ProgramError::AccountAlreadyInitialized);
    }
    if data.len() == 0 {
        return Err(ProgramError::InvalidInstructionData);
    }
    let bump = data[0];
    let expected = tree_address(&authority.address, bump, program_id);
    if !nodes_equal(&merkle_tree.address, &expected) {
        return Err(ProgramError::InvalidArgument);
    }
    let lamports = rent_exempt_lamports();
    let tree = MerkleTree::fresh(&authority.address, bump);
    Ok(InitializePlan { lamports, space: MerkleTree::LEN as u64, tree })
}

// ---------------------------------------------------------------------------
// Insert

/// Why an insertion fails, checked in this order: fewer than two accounts;
/// the authority (first account) did not sign; the data is shorter than a
/// leaf; the leaf is all zero; the tree account (second) does not hold a
/// tree; the stored authority is not the signer; the tree account is not at
/// the address derived from the stored authority and bump; the tree is full.
pub open spec fn insert_failure(program_id: Seq<u8>, accounts: Seq<AccountInput>, data: Seq<u8>) -> Option<ProgramError> {
    if accounts.len() < 2 {
        Some(ProgramError::NotEnoughAccountKeys)
    } else if !accounts[0].is_signer {
        Some(ProgramError::MissingRequiredSignature)
    } else if data.len() < 32 {
        Some(ProgramError::InvalidInstructionData)
    } else if data.subrange(0, 32) == zero_leaf() {
        Some(ProgramError::InvalidArgument)
    } else if accounts[1].data@.len() != MerkleTree::LEN {
        Some(ProgramError::InvalidAccountData)
    } else if accounts[1].data@.subrange(0, 32) != accounts[0].address@ {
        Some(ProgramError::InvalidArgument)
    } else if accounts[1].address@ != spec_tree_address(
        accounts[1].data@.subrange(0, 32),
        accounts[1].data@[33],
        program_id,
    ) {
        Some(ProgramError::InvalidArgument)
    } else if spec_u32_from_le_bytes(accounts[1].data@.subrange(36, 40)) >= pow2(
        accounts[1].data@[32] as nat,
    ) {
        Some(ProgramError::Custom(ERR_TREE_FULL))
    } else {
        None
    }
}

/// Every check of an insertion before the one for room passes.
pub open spec fn insert_reaches_capacity(program_id: Seq<u8>, accounts: Seq<AccountInput>, data: Seq<u8>) -> bool {
    &&& accounts.len() >= 2
    &&& accounts[0].is_signer
    &&& data.len() >= 32
    &&& data.subrange(0, 32) != zero_leaf()
    &&& accounts[1].data@.len() == MerkleTree::LEN
    &&& accounts[1].data@.subrange(0, 32) == accounts[0].address@
    &&& accounts[1].address@ == spec_tree_address(
        accounts[1].data@.subrange(0, 32),
        accounts[1].data@[33],
        program_id,
    )
}

/// The stored tree in account data `bytes` can be checked for room and,
/// if it has room, walked: its capacity `1 << height` fits in 32 bits, and
/// a tree with room has a frontier node for each of its heights.
pub open spec fn insert_walkable(bytes: Seq<u8>) -> bool {
    &&& bytes[32] < 32
    &&& spec_u32_from_le_bytes(bytes.subrange(36, 40)) < pow2(bytes[32] as nat) ==> bytes[32] <= DEPTH
}

/// `res` is the outcome of an insertion: the failure above, or the stored
/// tree after inserting the leaf.
pub open spec fn insert_outcome(
    program_id: Seq<u8>,
    accounts: Seq<AccountInput>,
    data: Seq<u8>,
    res: Result<MerkleTree, ProgramError>,
) -> bool {
    match insert_failure(program_id, accounts, data) {
        Some(e) => res == Err::<MerkleTree, ProgramError>(e),
        None => res is Ok && forall|old: MerkleTree|
            encodes(old, accounts[1].data@) ==> #[trigger] is_insertion(old, res->Ok_0, data.subrange(0, 32)),
    }
}

/// Checks an insert instruction (accounts: authority, tree; data: the leaf)
/// and returns the tree to store after the insertion.
pub fn process_insert(program_id: &[u8; 32], accounts: &[AccountInput], data: &[u8]) -> (res: Result<MerkleTree, ProgramError>)
    requires
        insert_reaches_capacity(program_id@, accounts@, data@) ==> insert_walkable(accounts@[1].data@),
    ensures
        insert_outcome(program_id@, accounts@, data@, res),
{
    if accounts.len() < 2 {
        return Err(ProgramError::NotEnoughAccountKeys);
    }
    let authority = &accounts[0];
    let merkle_tree = &accounts[1];
    if !authority.is_signer {
        return Err(ProgramError::MissingRequiredSignature);
    }
    if data.len() < 32 {
        return Err(ProgramError::InvalidInstructionData);
    }
    let leaf = read_node(data, 0);
    if is_zero_leaf(&leaf) {
        return Err(ProgramError::InvalidArgument);
    }
    let mut tree = match MerkleTree::load(merkle_tree.data.as_slice()) {
        Ok(t) => t,
        Err(e) => {
            return Err(e);
        },
    };
    proof {
        vstd::bytes::lemma_auto_spec_u32_to_from_le_bytes();
        assert(vstd::bytes::spec_u32_to_le_bytes(tree.next_index).len() == 4);
        assert(spec_u32_from_le_bytes(merkle_tree.data@.subrange(36, 40)) == tree.next_index);
    }
    if !nodes_equal(&tree.authority, &authority.address) {
        return Err(ProgramError::InvalidArgument);
    }
    let expected = tree_address(&tree.authority, tree.bump, program_id);
    if !nodes_equal(&merkle_tree.address, &expected) {
        return Err(ProgramError::InvalidArgument);
    }
    let max_leaves = max_leaves(tree.depth);
    if tree.next_index >= max_leaves {
        return Err(ProgramError::Custom(ERR_TREE_FULL));
    }
    let ghost stored = tree;
    insert_leaf(&mut tree, &leaf);
    proof {
        assert forall|old: MerkleTree| encodes(old, accounts@[1].data@) implies #[trigger] is_insertion(
            old,
            tree,
            data@.subrange(0, 32),
        ) by {
            crate::state::encoding_determines_tree(old, stored, accounts@[1].data@);
        }
    }
    Ok(tree)
}

/// The number of leaves of a tree of height `depth`: `1 << depth`.
fn max_leaves(depth: u8) -> (res: u32)
    requires
        depth < 32,
    ensures
        res == pow2(depth as nat),
{
    let shift = depth as u32;
    proof {
        vstd::bits::lemma_u32_pow2_no_overflow(shift as nat);
        vstd::bits::lemma_u32_shl_is_mul(1, shift);
    }
    1u32 << shift
}

// ---------------------------------------------------------------------------
// Verify

/// Why a verification fails, checked in this order: no account; the data
/// is shorter than a leaf, an index and the siblings of a full path; the
/// account does not hold a tree; the leaf, the index and the first
/// `depth` siblings lead to another root than the stored one.
pub open spec fn verify_failure(accounts: Seq<AccountInput>, data: Seq<u8>) -> Option<ProgramError> {
    if accounts.len() < 1 {
        Some(ProgramError::NotEnoughAccountKeys)
    } else if data.len() < VERIFY_DATA_LEN {
        Some(ProgramError::InvalidInstructionData)
    } else if accounts[0].data@.len() != MerkleTree::LEN {
        Some(ProgramError::InvalidAccountData)
    } else if proof_root(
        data.subrange(0, 32),
        spec_u32_from_le_bytes(data.subrange(32, 36)) as nat,
        proof_siblings(data.subrange(36, VERIFY_DATA_LEN as int), accounts[0].data@[32] as nat),
        accounts[0].data@[32] as nat,
    ) != accounts[0].data@.subrange(40, 72) {
        Some(ProgramError::Custom(ERR_INVALID_PROOF))
    } else {
        None
    }
}

/// `res` is the outcome of a verification: the failure above, or success.
pub open spec fn verify_outcome(accounts: Seq<AccountInput>, data: Seq<u8>, res: Result<(), ProgramError>) -> bool {
    match verify_failure(accounts, data) {
        Some(e) => res == Err::<(), ProgramError>(e),
        None => res == Ok::<(), ProgramError>(()),
    }
}

/// Checks a verify instruction (accounts: tree; data: leaf, index in
/// little-endian order, siblings): succeeds when the proof leads to the
/// stored root.
pub fn process_verify(accounts: &[AccountInput], data: &[u8]) -> (res: Result<(), ProgramError>)
    requires
        verify_reaches_walk(accounts@, data@) ==> stored_depth_ok(accounts@[0].data@),
    ensures
        verify_outcome(accounts@, data@, res),
{
    if accounts.len() < 1 {
        return Err(ProgramError::NotEnoughAccountKeys);
    }
    let merkle_tree = &accounts[0];
    if data.len() < VERIFY_DATA_LEN {
        return Err(ProgramError::InvalidInstructionData);
    }
    let leaf = read_node(data, 0);
    let index = vstd::bytes::u32_from_le_bytes(vstd::slice::slice_subrange(data, 32, 36));
    let proof_bytes = vstd::slice::slice_subrange(data, 36, VERIFY_DATA_LEN);
    let tree = match MerkleTree::load(merkle_tree.data.as_slice()) {
        Ok(t) => t,
        Err(e) => {
            return Err(e);
        },
    };
    let depth = tree.depth as usize;
    let root = compute_root(&leaf, index, proof_bytes, depth);
    if nodes_equal(&root, &tree.current_root) {
        Ok(())
    } else {
        Err(ProgramError::Custom(ERR_INVALID_PROOF))
    }
}


// ---------------------------------------------------------------------------
// Laws of the instructions

/// A successful insert instruction grows the tree its account stands for:
/// when the account data holds `old`, which stands for `leaves`, the tree
/// the instruction returns stands for `leaves` followed by the new leaf.
pub proof fn insert_instruction_appends_leaf(
    program_id: Seq<u8>,
    accounts: Seq<AccountInput>,
    data: Seq<u8>,
    old: MerkleTree,
    leaves: Seq<Seq<u8>>,
    new: MerkleTree,
)
    requires
        accounts.len() >= 2,
        encodes(old, accounts[1].data@),
        represents(old, leaves),
        insert_outcome(program_id, accounts, data, Ok(new)),
    ensures
        represents(new, leaves.push(data.subrange(0, 32))),
{
    vstd::bytes::lemma_auto_spec_u32_to_from_le_bytes();
    assert(vstd::bytes::spec_u32_to_le_bytes(old.next_index).len() == 4);
    let outcome = Ok::<MerkleTree, ProgramError>(new);
    assert(is_insertion(old, outcome->Ok_0, data.subrange(0, 32)));
    insertion_extends_tree(old, new, leaves, data.subrange(0, 32));
}

/// Every inserted leaf verifies: when the account holds a tree that stands
/// for `leaves`, a verify instruction for leaf `index` with the siblings of
/// its path succeeds.
pub proof fn inserted_leaf_verifies(
    accounts: Seq<AccountInput>,
    data: Seq<u8>,
    tree: MerkleTree,
    leaves: Seq<Seq<u8>>,
    index: u32,
)
    requires
        accounts.len() >= 1,
        encodes(tree, accounts[0].data@),
        represents(tree, leaves),
        index < leaves.len(),
        data.len() >= VERIFY_DATA_LEN,
        data.subrange(0, 32) == leaves[index as int],
        spec_u32_from_le_bytes(data.subrange(32, 36)) == index,
        forall|i: int|
            0 <= i < tree.depth ==> #[trigger] data.subrange(36 + 32 * i, 68 + 32 * i) == auth_path(
                leaves,
                index as nat,
                tree.depth as nat,
            )[i],
    ensures
        verify_failure(accounts, data) == None::<ProgramError>,
{
    let d = tree.depth as nat;
    let proof = data.subrange(36, VERIFY_DATA_LEN as int);
    assert(proof_siblings(proof, d) =~= auth_path(leaves, index as nat, d)) by {
        assert forall|i: int| 0 <= i < d implies proof_siblings(proof, d)[i] == auth_path(leaves, index as nat, d)[i] by {
            assert(proof.subrange(32 * i, 32 * i + 32) =~= data.subrange(36 + 32 * i, 68 + 32 * i));
        }
    }
    inserted_leaf_has_proof(tree, leaves, index as nat);
}

// ---------------------------------------------------------------------------
// Dispatch

/// What a successful instruction leaves to be done: the creation of a
/// tree, the tree to store after an insertion, or nothing after a
/// verification.
pub enum Effect {
    Initialize(InitializePlan),
    Insert(MerkleTree),
    Verify,
}

/// `res` is the outcome of the instruction whose first byte selects it
/// (0 initialize, 1 insert, 2 verify) and whose remaining bytes are its
/// data; an empty instruction or any other first byte is invalid.
pub open spec fn instruction_outcome(
    program_id: Seq<u8>,
    accounts: Seq<AccountInput>,
    data: Seq<u8>,
    res: Result<Effect, ProgramError>,
) -> bool {
    if data.len() == 0 || data[0] > 2 {
        res matches Err(e) && e == ProgramError::InvalidInstructionData
    } else {
        let rest = data.subrange(1, data.len() as int);
        match res {
            Err(e) => if data[0] == 0 {
                initialize_outcome(program_id, accounts, rest, Err(e))
            } else if data[0] == 1 {
                insert_outcome(program_id, accounts, rest, Err(e))
            } else {
                verify_outcome(accounts, rest, Err(e))
            },
            Ok(Effect::Initialize(plan)) => data[0] == 0 && initialize_outcome(program_id, accounts, rest, Ok(plan)),
            Ok(Effect::Insert(tree)) => data[0] == 1 && insert_outcome(program_id, accounts, rest, Ok(tree)),
            Ok(Effect::Verify) => data[0] == 2 && verify_outcome(accounts, rest, Ok(())),
        }
    }
}

/// The instruction reaches the walk of a stored tree whose height it cannot
/// walk: an insertion into a tree whose capacity does not fit in 32 bits,
/// or into a tree with room but higher than its frontier; a verification
/// of a tree higher than a proof.
pub open spec fn instruction_aborts(program_id: Seq<u8>, accounts: Seq<AccountInput>, data: Seq<u8>) -> bool {
    &&& data.len() > 0
    &&& {
        let rest = data.subrange(1, data.len() as int);
        ||| data[0] == 1 && insert_reaches_capacity(program_id, accounts, rest) && !insert_walkable(
            accounts[1].data@,
        )
        ||| data[0] == 2 && verify_reaches_walk(accounts, rest) && !stored_depth_ok(accounts[0].data@)
    }
}

/// Runs the instruction selected by the first byte of `instruction_data`.
pub fn process_instruction(
    program_id: &[u8; 32],
    accounts: &[AccountInput],
    instruction_data: &[u8],
) -> (res: Result<Effect, ProgramError>)
    requires
        !instruction_aborts(program_id@, accounts@, instruction_data@),
    ensures
        instruction_outcome(program_id@, accounts@, instruction_data@, res),
{
    if instruction_data.len() == 0 {
        return Err(ProgramError::InvalidInstructionData);
    }
    let tag = instruction_data[0];
    let rest = vstd::slice::slice_subrange(instruction_data, 1, instruction_data.len());
    if tag == 0 {
        match process_initialize(program_id, accounts, rest) {
            Ok(plan) => Ok(Effect::Initialize(plan)),
            Err(e) => Err(e),
        }
    } else if tag == 1 {
        match process_insert(program_id, accounts, rest) {
            Ok(tree) => Ok(Effect::Insert(tree)),
            Err(e) => Err(e),
        }
    } else if tag == 2 {
        match process_verify(accounts, rest) {
            Ok(()) => Ok(Effect::Verify),
            Err(e) => Err(e),
        }
    } else {
        Err(ProgramError::InvalidInstructionData)
    }
}


/// Runs the instruction selected by the first byte of `instruction_data`,
/// unless it would walk a stored tree it cannot walk: then the result is
/// `None`, and the instruction must abort.
pub fn process_instruction_checked(
    program_id: &[u8; 32],
    accounts: &[AccountInput],
    instruction_data: &[u8],
) -> (res: Option<Result<Effect, ProgramError>>)
    ensures
        res is None <==> instruction_aborts(program_id@, accounts@, instruction_data@),
        res matches Some(r) ==> instruction_outcome(program_id@, accounts@, instruction_data@, r),
{
    if instruction_data.len() == 0 {
        return Some(process_instruction(program_id, accounts, instruction_data));
    }
    let tag = instruction_data[0];
    let rest = vstd::slice::slice_subrange(instruction_data, 1, instruction_data.len());
    if tag == 1 && insert_checks_pass(program_id, accounts, rest) && !stored_tree_walkable(
        accounts[1].data.as_slice(),
    ) {
        return None;
    }
    if tag == 2 && accounts.len() >= 1 && rest.len() >= VERIFY_DATA_LEN {
        let bytes = accounts[0].data.as_slice();
        if bytes.len() == MerkleTree::LEN && bytes[DEPTH_OFFSET] as usize > DEPTH {
            return None;
        }
    }
    Some(process_instruction(program_id, accounts, instruction_data))
}

/// Whether every check of an insertion before the one for room passes.
fn insert_checks_pass(program_id: &[u8; 32], accounts: &[AccountInput], data: &[u8]) -> (res: bool)
    ensures
        res == insert_reaches_capacity(program_id@, accounts@, data@),
{
    if accounts.len() < 2 || !accounts[0].is_signer || data.len() < 32 {
        return false;
    }
    let leaf = read_node(data, 0);
    if is_zero_leaf(&leaf) {
        return false;
    }
    let bytes = accounts[1].data.as_slice();
    if bytes.len() != MerkleTree::LEN {
        return false;
    }
    let stored_authority = read_node(bytes, 0);
    if !nodes_equal(&stored_authority, &accounts[0].address) {
        return false;
    }
    let expected = tree_address(&stored_authority, bytes[BUMP_OFFSET], program_id);
    nodes_equal(&accounts[1].address, &expected)
}

/// Whether the stored tree in `bytes`, of a tree's size, can be checked for
/// room and, if it has room, walked.
fn stored_tree_walkable(bytes: &[u8]) -> (res: bool)
    requires
        bytes@.len() == MerkleTree::LEN,
    ensures
        res == insert_walkable(bytes@),
{
    let depth = bytes[DEPTH_OFFSET];
    if depth >= 32 {
        return false;
    }
    let next_index = vstd::bytes::u32_from_le_bytes(
        vstd::slice::slice_subrange(bytes, NEXT_INDEX_OFFSET, NEXT_INDEX_OFFSET + 4),
    );
    next_index >= max_leaves(depth) || depth as usize <= DEPTH
}

} // verus!
