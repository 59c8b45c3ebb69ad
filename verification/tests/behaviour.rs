use merkle::address::{tree_address, MERKLE_SEED};
use merkle::error::{ProgramError, ERR_INVALID_PROOF, ERR_TREE_FULL};
use merkle::hash::{hash_pair, is_zero_leaf, nodes_equal, zero_hashes, DEPTH};
use merkle::ix::{process_initialize, process_insert, process_instruction, process_verify, AccountInput, Effect};
use merkle::merkle::{compute_root, insert_leaf};
use merkle::rent::rent_exempt_lamports;
use merkle::state::MerkleTree;
use sha2::Digest;

const PROGRAM: [u8; 32] = [0x11; 32];
const AUTHORITY: [u8; 32] = [0x22; 32];
const BUMP: u8 = 253;

fn account(address: [u8; 32], is_signer: bool, data: Vec<u8>) -> AccountInput {
    AccountInput { address, is_signer, data }
}

fn pda() -> [u8; 32] {
    tree_address(&AUTHORITY, BUMP, &PROGRAM)
}

fn fresh_bytes() -> Vec<u8> {
    let accounts = vec![account(AUTHORITY, true, vec![]), account(pda(), false, vec![]), account([0; 32], false, vec![])];
    match process_initialize(&PROGRAM, &accounts, &[BUMP]) {
        Ok(plan) => plan.tree.to_bytes(),
        Err(e) => panic!("initialize failed: {:?}", e),
    }
}

fn insert(data: &[u8], leaf: [u8; 32]) -> Result<Vec<u8>, ProgramError> {
    let accounts = vec![account(AUTHORITY, true, vec![]), account(pda(), false, data.to_vec())];
    process_insert(&PROGRAM, &accounts, &leaf).map(|t| t.to_bytes())
}

fn verify_data(leaf: [u8; 32], index: u32, proof: &[[u8; 32]]) -> Vec<u8> {
    let mut data = leaf.to_vec();
    data.extend_from_slice(&index.to_le_bytes());
    for p in proof {
        data.extend_from_slice(p);
    }
    data
}

fn verify(tree: &[u8], leaf: [u8; 32], index: u32, proof: &[[u8; 32]]) -> Result<(), ProgramError> {
    let accounts = vec![account(pda(), false, tree.to_vec())];
    process_verify(&accounts, &verify_data(leaf, index, proof))
}

/// The full tree of height 20 with the given first leaves, node by node,
/// computed level by level over the non-empty part only.
fn levels(leaves: &[[u8; 32]]) -> Vec<Vec<[u8; 32]>> {
    let zero = zero_hashes();
    let mut out = vec![leaves.to_vec()];
    for level in 0..DEPTH {
        let below = &out[level];
        let mut next = Vec::new();
        let mut j = 0;
        while j < below.len() {
            let left = below[j];
            let right = if j + 1 < below.len() { below[j + 1] } else { zero[level] };
            next.push(hash_pair(&left, &right));
            j += 2;
        }
        if next.is_empty() {
            next.push(zero[level + 1]);
        }
        out.push(next);
    }
    out
}

fn path(levels: &[Vec<[u8; 32]>], index: usize) -> Vec<[u8; 32]> {
    let zero = zero_hashes();
    let mut out = Vec::new();
    let mut c = index;
    for level in 0..DEPTH {
        let s = c ^ 1;
        out.push(if s < levels[level].len() { levels[level][s] } else { zero[level] });
        c >>= 1;
    }
    out
}

fn root(data: &[u8]) -> [u8; 32] {
    data[40..72].try_into().unwrap()
}

fn next_index(data: &[u8]) -> u32 {
    u32::from_le_bytes(data[36..40].try_into().unwrap())
}

#[test]
fn hash_pair_is_sha256_of_concatenation() {
    let a = [1u8; 32];
    let b = [2u8; 32];
    let mut h = sha2::Sha256::new();
    h.update([1u8; 32]);
    h.update([2u8; 32]);
    let expected: [u8; 32] = h.finalize().into();
    assert_eq!(hash_pair(&a, &b), expected);
    assert_ne!(hash_pair(&a, &b), hash_pair(&b, &a));
}

#[test]
fn zero_hashes_known_values() {
    let zero = zero_hashes();
    assert_eq!(zero.len(), 21);
    assert_eq!(zero[0], [0u8; 32]);
    // SHA-256 of 64 zero bytes.
    let expected: [u8; 32] = [
        0xf5, 0xa5, 0xfd, 0x42, 0xd1, 0x6a, 0x20, 0x30, 0x27, 0x98, 0xef, 0x6e, 0xd3, 0x09, 0x97, 0x9b, 0x43, 0x00, 0x3d,
        0x23, 0x20, 0xd9, 0xf0, 0xe8, 0xea, 0x98, 0x31, 0xa9, 0x27, 0x59, 0xfb, 0x4b,
    ];
    assert_eq!(zero[1], expected);
    for i in 0..20 {
        assert_eq!(zero[i + 1], hash_pair(&zero[i], &zero[i]));
    }
}

#[test]
fn node_comparisons() {
    assert!(nodes_equal(&[3u8; 32], &[3u8; 32]));
    let mut b = [3u8; 32];
    b[31] = 4;
    assert!(!nodes_equal(&[3u8; 32], &b));
    assert!(is_zero_leaf(&[0u8; 32]));
    let mut c = [0u8; 32];
    c[5] = 1;
    assert!(!is_zero_leaf(&c));
}

#[test]
fn tree_address_hashes_seeds_program_and_marker() {
    let mut h = sha2::Sha256::new();
    h.update(MERKLE_SEED);
    h.update(AUTHORITY);
    h.update([BUMP]);
    h.update(PROGRAM);
    h.update(b"ProgramDerivedAddress");
    let expected: [u8; 32] = h.finalize().into();
    assert_eq!(pda(), expected);
    assert_ne!(tree_address(&AUTHORITY, BUMP - 1, &PROGRAM), expected);
}

#[test]
fn rent_exempt_balance() {
    assert_eq!(rent_exempt_lamports(), 11_692_800);
}

#[test]
fn fresh_tree_layout() {
    let data = fresh_bytes();
    let zero = zero_hashes();
    assert_eq!(data.len(), 712);
    assert_eq!(&data[0..32], &AUTHORITY);
    assert_eq!(data[32], 20);
    assert_eq!(data[33], BUMP);
    assert_eq!(&data[34..36], &[0, 0]);
    assert_eq!(next_index(&data), 0);
    assert_eq!(root(&data), zero[20]);
    for i in 0..20 {
        assert_eq!(&data[72 + 32 * i..104 + 32 * i], &zero[i]);
    }
}

#[test]
fn load_and_store_round_trip() {
    let mut data = fresh_bytes();
    data = insert(&data, [9u8; 32]).unwrap();
    data = insert(&data, [8u8; 32]).unwrap();
    let tree = MerkleTree::load(&data).unwrap();
    assert_eq!(tree.to_bytes(), data);
    assert_eq!(tree.next_index, 2);
    assert_eq!(tree.bump, BUMP);
    assert!(matches!(MerkleTree::load(&data[1..]), Err(ProgramError::InvalidAccountData)));
    let mut longer = data.clone();
    longer.push(0);
    assert!(matches!(MerkleTree::load(&longer), Err(ProgramError::InvalidAccountData)));
}

#[test]
fn inserted_leaves_give_full_tree_root_and_verify() {
    let leaves: Vec<[u8; 32]> = (1..=7u8).map(|k| [k; 32]).collect();
    let mut data = fresh_bytes();
    for (n, leaf) in leaves.iter().enumerate() {
        data = insert(&data, *leaf).unwrap();
        let lv = levels(&leaves[..n + 1]);
        assert_eq!(next_index(&data), (n + 1) as u32);
        assert_eq!(root(&data), lv[20][0]);
        for k in 0..=n {
            let p = path(&lv, k);
            assert_eq!(verify(&data, leaves[k], k as u32, &p), Ok(()));
        }
    }
    let lv = levels(&leaves);
    let p = path(&lv, 3);
    assert_eq!(verify(&data, leaves[3], 4, &p), Err(ProgramError::Custom(ERR_INVALID_PROOF)));
    assert_eq!(verify(&data, leaves[4], 3, &p), Err(ProgramError::Custom(ERR_INVALID_PROOF)));
}

#[test]
fn insert_leaf_and_compute_root_agree() {
    let mut tree = MerkleTree::load(&fresh_bytes()).unwrap();
    insert_leaf(&mut tree, &[5u8; 32]);
    insert_leaf(&mut tree, &[6u8; 32]);
    let lv = levels(&[[5u8; 32], [6u8; 32]]);
    assert_eq!(tree.current_root, lv[20][0]);
    assert_eq!(tree.filled_subtrees[0], [5u8; 32]);
    assert_eq!(tree.filled_subtrees[1], lv[1][0]);
    let proof: Vec<u8> = path(&lv, 1).concat();
    assert_eq!(compute_root(&[6u8; 32], 1, &proof, 20), lv[20][0]);
}

#[test]
fn full_tree_rejects_insert() {
    let mut data = fresh_bytes();
    data[36..40].copy_from_slice(&(1u32 << 20).to_le_bytes());
    assert_eq!(insert(&data, [1u8; 32]), Err(ProgramError::Custom(ERR_TREE_FULL)));
    data[36..40].copy_from_slice(&((1u32 << 20) - 1).to_le_bytes());
    let after = insert(&data, [1u8; 32]).unwrap();
    assert_eq!(next_index(&after), 1 << 20);
    // A shallower stored tree is full sooner.
    let mut shallow = fresh_bytes();
    shallow[32] = 1;
    shallow[36..40].copy_from_slice(&2u32.to_le_bytes());
    assert_eq!(insert(&shallow, [1u8; 32]), Err(ProgramError::Custom(ERR_TREE_FULL)));
}

#[test]
fn initialize_errors() {
    let sys = account([0; 32], false, vec![]);
    let ok = || vec![account(AUTHORITY, true, vec![]), account(pda(), false, vec![]), account([0; 32], false, vec![])];
    let two = vec![account(AUTHORITY, true, vec![]), account(pda(), false, vec![])];
    assert!(matches!(process_initialize(&PROGRAM, &two, &[BUMP]), Err(ProgramError::NotEnoughAccountKeys)));
    let unsigned = vec![account(AUTHORITY, false, vec![]), account(pda(), false, vec![]), sys];
    assert!(matches!(process_initialize(&PROGRAM, &unsigned, &[BUMP]), Err(ProgramError::MissingRequiredSignature)));
    let filled = vec![account(AUTHORITY, true, vec![]), account(pda(), false, vec![1]), account([0; 32], false, vec![])];
    assert!(matches!(process_initialize(&PROGRAM, &filled, &[BUMP]), Err(ProgramError::AccountAlreadyInitialized)));
    assert!(matches!(process_initialize(&PROGRAM, &ok(), &[]), Err(ProgramError::InvalidInstructionData)));
    assert!(matches!(process_initialize(&PROGRAM, &ok(), &[BUMP - 1]), Err(ProgramError::InvalidArgument)));
    assert!(matches!(process_initialize(&[0x12; 32], &ok(), &[BUMP]), Err(ProgramError::InvalidArgument)));
    assert!(process_initialize(&PROGRAM, &ok(), &[BUMP, 7, 7]).is_ok());
}

#[test]
fn insert_errors() {
    let data = fresh_bytes();
    let one = vec![account(AUTHORITY, true, vec![])];
    assert!(matches!(process_insert(&PROGRAM, &one, &[1u8; 32]), Err(ProgramError::NotEnoughAccountKeys)));
    let unsigned = vec![account(AUTHORITY, false, vec![]), account(pda(), false, data.clone())];
    assert!(matches!(process_insert(&PROGRAM, &unsigned, &[1u8; 32]), Err(ProgramError::MissingRequiredSignature)));
    assert_eq!(insert(&data, [0u8; 32]), Err(ProgramError::InvalidArgument));
    let ok = vec![account(AUTHORITY, true, vec![]), account(pda(), false, data.clone())];
    assert!(matches!(process_insert(&PROGRAM, &ok, &[1u8; 31]), Err(ProgramError::InvalidInstructionData)));
    let short = vec![account(AUTHORITY, true, vec![]), account(pda(), false, data[..700].to_vec())];
    assert!(matches!(process_insert(&PROGRAM, &short, &[1u8; 32]), Err(ProgramError::InvalidAccountData)));
    let stranger = vec![account([0x33; 32], true, vec![]), account(pda(), false, data.clone())];
    assert!(matches!(process_insert(&PROGRAM, &stranger, &[1u8; 32]), Err(ProgramError::InvalidArgument)));
    let elsewhere = vec![account(AUTHORITY, true, vec![]), account([0x44; 32], false, data.clone())];
    assert!(matches!(process_insert(&PROGRAM, &elsewhere, &[1u8; 32]), Err(ProgramError::InvalidArgument)));
    let mut longer = vec![1u8; 32];
    longer.extend_from_slice(&[5u8; 10]);
    assert!(process_insert(&PROGRAM, &ok, &longer).is_ok());
}

#[test]
fn verify_errors() {
    let data = insert(&fresh_bytes(), [1u8; 32]).unwrap();
    let zero = zero_hashes();
    let proof: Vec<[u8; 32]> = zero[..20].to_vec();
    let none: Vec<AccountInput> = vec![];
    assert!(matches!(process_verify(&none, &verify_data([1u8; 32], 0, &proof)), Err(ProgramError::NotEnoughAccountKeys)));
    assert_eq!(verify(&data, [1u8; 32], 0, &proof[..19]), Err(ProgramError::InvalidInstructionData));
    let wrong = vec![account(pda(), false, data[..711].to_vec())];
    assert!(matches!(process_verify(&wrong, &verify_data([1u8; 32], 0, &proof)), Err(ProgramError::InvalidAccountData)));
    assert_eq!(verify(&data, [1u8; 32], 0, &proof), Ok(()));
    // Index bits above the tree's height are not looked at.
    assert_eq!(verify(&data, [1u8; 32], 1 << 20, &proof), Ok(()));
    assert_eq!(verify(&data, [1u8; 32], 1, &proof), Err(ProgramError::Custom(ERR_INVALID_PROOF)));
}

#[test]
fn dispatch_on_first_byte() {
    let accounts = vec![account(AUTHORITY, true, vec![]), account(pda(), false, vec![]), account([0; 32], false, vec![])];
    assert!(matches!(process_instruction(&PROGRAM, &accounts, &[]), Err(ProgramError::InvalidInstructionData)));
    assert!(matches!(process_instruction(&PROGRAM, &accounts, &[3, BUMP]), Err(ProgramError::InvalidInstructionData)));
    assert!(matches!(process_instruction(&PROGRAM, &accounts, &[0, BUMP]), Ok(Effect::Initialize(_))));
    assert!(matches!(process_instruction(&PROGRAM, &accounts, &[0]), Err(ProgramError::InvalidInstructionData)));
    let data = fresh_bytes();
    let mut ins = vec![1u8];
    ins.extend_from_slice(&[4u8; 32]);
    let accounts = vec![account(AUTHORITY, true, vec![]), account(pda(), false, data.clone())];
    assert!(matches!(process_instruction(&PROGRAM, &accounts, &ins), Ok(Effect::Insert(_))));
    let zero = zero_hashes();
    let mut ver = vec![2u8];
    ver.extend_from_slice(&verify_data([0u8; 32], 0, &zero[..20]));
    let accounts = vec![account(pda(), false, data)];
    // The empty tree's root is reached from the all-zero leaf.
    assert!(matches!(process_instruction(&PROGRAM, &accounts, &ver), Ok(Effect::Verify)));
}

fn high_tree(height: u8, next: u32) -> Vec<u8> {
    let mut data = fresh_bytes();
    data[32] = height;
    data[36..40].copy_from_slice(&next.to_le_bytes());
    data
}

fn run_checked(accounts: &[AccountInput], data: &[u8]) -> Option<Result<Effect, ProgramError>> {
    merkle::ix::process_instruction_checked(&PROGRAM, accounts, data)
}

#[test]
fn high_stored_trees_fail_early_or_abort() {
    let mut ins = vec![1u8];
    ins.extend_from_slice(&[4u8; 32]);
    // Checks before the walk still give their errors.
    let unsigned = vec![account(AUTHORITY, false, vec![]), account(pda(), false, high_tree(21, 0))];
    assert!(matches!(run_checked(&unsigned, &ins), Some(Err(ProgramError::MissingRequiredSignature))));
    let elsewhere = vec![account(AUTHORITY, true, vec![]), account([0x44; 32], false, high_tree(40, 0))];
    assert!(matches!(run_checked(&elsewhere, &ins), Some(Err(ProgramError::InvalidArgument))));
    // A high tree without room is full.
    let full = vec![account(AUTHORITY, true, vec![]), account(pda(), false, high_tree(25, 1 << 25))];
    assert!(matches!(run_checked(&full, &ins), Some(Err(ProgramError::Custom(ERR_TREE_FULL)))));
    // A high tree with room, or one whose capacity does not fit, aborts.
    let room = vec![account(AUTHORITY, true, vec![]), account(pda(), false, high_tree(21, 0))];
    assert!(run_checked(&room, &ins).is_none());
    let huge = vec![account(AUTHORITY, true, vec![]), account(pda(), false, high_tree(32, u32::MAX))];
    assert!(run_checked(&huge, &ins).is_none());
    // A normal tree goes through.
    let normal = vec![account(AUTHORITY, true, vec![]), account(pda(), false, fresh_bytes())];
    assert!(matches!(run_checked(&normal, &ins), Some(Ok(Effect::Insert(_)))));

    let zero = zero_hashes();
    let mut ver = vec![2u8];
    ver.extend_from_slice(&verify_data([1u8; 32], 0, &zero[..20]));
    let high = vec![account(pda(), false, high_tree(21, 0))];
    assert!(matches!(run_checked(&high, &ver[..100]), Some(Err(ProgramError::InvalidInstructionData))));
    assert!(run_checked(&high, &ver).is_none());
    assert!(matches!(run_checked(&high, &[2u8]), Some(Err(ProgramError::InvalidInstructionData))));
    assert!(matches!(run_checked(&[], &ver), Some(Err(ProgramError::NotEnoughAccountKeys))));
}
