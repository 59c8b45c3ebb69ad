use merkle::error::ProgramError;
use merkle::hash::{hash_pair, zero_hashes};
use merkle::ix::{process_instruction, AccountInput, Effect};
use merkle::address::tree_address;
use merkle::state::MerkleTree;

const ERR_ZERO_LEAF: u32 = 0;
const ERR_INVALID_PROOF: u32 = 2;

fn setup() -> [u8; 32] {
    [7u8; 32]
}

fn merkle_pda(authority: &[u8; 32], program_id: &[u8; 32]) -> ([u8; 32], u8) {
    let bump = 254u8;
    (tree_address(authority, bump, program_id), bump)
}

fn account(address: [u8; 32], is_signer: bool, data: Vec<u8>) -> AccountInput {
    AccountInput { address, is_signer, data }
}

fn ix_initialize(bump: u8) -> Vec<u8> {
    vec![0, bump]
}

fn ix_insert(leaf: [u8; 32]) -> Vec<u8> {
    let mut data = vec![1];
    data.extend_from_slice(&leaf);
    data
}

fn ix_verify(leaf: [u8; 32], index: u32, proof: &[[u8; 32]; 20]) -> Vec<u8> {
    let mut data = vec![2];
    data.extend_from_slice(&leaf);
    data.extend_from_slice(&index.to_le_bytes());
    for p in proof {
        data.extend_from_slice(p);
    }
    data
}

/// Runs an initialize instruction and returns the data of the created tree
/// account.
fn do_initialize(program_id: &[u8; 32], authority: &[u8; 32], pda: &[u8; 32], bump: u8) -> Vec<u8> {
    let accounts = vec![
        account(*authority, true, vec![]),
        account(*pda, false, vec![]),
        account([0u8; 32], false, vec![]),
    ];
    match process_instruction(program_id, &accounts, &ix_initialize(bump)) {
        Ok(Effect::Initialize(plan)) => {
            assert_eq!(plan.space, MerkleTree::LEN as u64);
            plan.tree.to_bytes()
        }
        _ => panic!("initialize failed"),
    }
}

fn do_insert(
    program_id: &[u8; 32],
    authority: &[u8; 32],
    pda: &[u8; 32],
    data: &[u8],
    leaf: [u8; 32],
) -> Result<Vec<u8>, ProgramError> {
    let accounts = vec![account(*authority, true, vec![]), account(*pda, false, data.to_vec())];
    match process_instruction(program_id, &accounts, &ix_insert(leaf)) {
        Ok(Effect::Insert(tree)) => Ok(tree.to_bytes()),
        Ok(_) => panic!("wrong effect"),
        Err(e) => Err(e),
    }
}

fn do_verify(program_id: &[u8; 32], pda: &[u8; 32], data: &[u8], leaf: [u8; 32], index: u32, proof: &[[u8; 32]; 20]) -> Result<(), ProgramError> {
    let accounts = vec![account(*pda, false, data.to_vec())];
    match process_instruction(program_id, &accounts, &ix_verify(leaf, index, proof)) {
        Ok(Effect::Verify) => Ok(()),
        Ok(_) => panic!("wrong effect"),
        Err(e) => Err(e),
    }
}

fn parse_tree(data: &[u8]) -> (u32, [u8; 32]) {
    let next_index = u32::from_le_bytes(data[36..40].try_into().unwrap());
    let root: [u8; 32] = data[40..72].try_into().unwrap();
    (next_index, root)
}

fn expected_root_after_insert(leaf: [u8; 32]) -> [u8; 32] {
    let zero = zero_hashes();
    let mut h = leaf;
    for i in 0..20usize {
        h = hash_pair(&h, &zero[i]);
    }
    h
}

#[test]
fn test_initialize() {
    let program_id = setup();
    let authority = [3u8; 32];
    let (pda, bump) = merkle_pda(&authority, &program_id);

    let accounts = vec![
        account(authority, true, vec![]),
        account(pda, false, vec![]),
        account([0u8; 32], false, vec![]),
    ];
    let plan = match process_instruction(&program_id, &accounts, &ix_initialize(bump)) {
        Ok(Effect::Initialize(plan)) => plan,
        _ => panic!("initialize failed"),
    };
    assert_eq!(plan.lamports, 2 * (128 + 712) * 6960);
    let data = plan.tree.to_bytes();
    assert_eq!(data.len(), MerkleTree::LEN, "wrong account size");
    let (next_index, root) = parse_tree(&data);
    assert_eq!(next_index, 0, "next_index must start at 0");
    assert_eq!(root, zero_hashes()[20], "empty tree root mismatch");
}

#[test]
fn test_insert_updates_state() {
    let program_id = setup();
    let authority = [4u8; 32];
    let (pda, bump) = merkle_pda(&authority, &program_id);

    let after_init = do_initialize(&program_id, &authority, &pda, bump);

    let leaf = [1u8; 32];
    let data = do_insert(&program_id, &authority, &pda, &after_init, leaf).expect("insert failed");
    let (next_index, root) = parse_tree(&data);
    assert_eq!(next_index, 1, "next_index must be 1 after insert");
    assert_eq!(root, expected_root_after_insert(leaf), "root mismatch");
}

#[test]
fn test_insert_and_verify() {
    let program_id = setup();
    let authority = [5u8; 32];
    let (pda, bump) = merkle_pda(&authority, &program_id);

    let after_init = do_initialize(&program_id, &authority, &pda, bump);

    let leaf = [0xABu8; 32];
    let after_insert = do_insert(&program_id, &authority, &pda, &after_init, leaf).expect("insert failed");

    let zero = zero_hashes();
    let proof: [[u8; 32]; 20] = core::array::from_fn(|i| zero[i]);
    assert_eq!(do_verify(&program_id, &pda, &after_insert, leaf, 0, &proof), Ok(()));

    let bad_proof: [[u8; 32]; 20] = [[0xFFu8; 32]; 20];
    assert_eq!(
        do_verify(&program_id, &pda, &after_insert, leaf, 0, &bad_proof),
        Err(ProgramError::Custom(ERR_INVALID_PROOF))
    );

    assert_eq!(
        do_verify(&program_id, &pda, &after_insert, [0x01u8; 32], 0, &proof),
        Err(ProgramError::Custom(ERR_INVALID_PROOF))
    );
}

#[test]
fn test_zero_leaf_rejected() {
    let program_id = setup();
    let authority = [6u8; 32];
    let (pda, bump) = merkle_pda(&authority, &program_id);

    let after_init = do_initialize(&program_id, &authority, &pda, bump);

    assert_eq!(
        do_insert(&program_id, &authority, &pda, &after_init, [0u8; 32]),
        Err(ProgramError::InvalidArgument)
    );
    let _ = ERR_ZERO_LEAF;
}
