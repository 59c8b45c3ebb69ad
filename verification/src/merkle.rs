//! The incremental Merkle tree: the full tree that the frontier stands for,
//! the insertion of a leaf, and the root a proof of membership leads to.

use vstd::prelude::*;

use vstd::arithmetic::power2::{pow2, lemma_pow2_unfold, lemma_pow2_pos, lemma2_to64};
use vstd::arithmetic::div_mod::{lemma_div_denominator, lemma_fundamental_div_mod, lemma_mod_pos_bound};

use crate::hash::{DEPTH, spec_hash_pair, zero_hash, zero_leaf, hash_pair, zero_hashes};
use crate::state::MerkleTree;

verus! {

/// Leaf `j` of the full tree whose first leaves are `leaves`: every leaf
/// after them is the all-zero leaf.
pub open spec fn leaf_or_zero(leaves: Seq<Seq<u8>>, j: nat) -> Seq<u8> {
    if j < leaves.len() {
        leaves[j as int]
    } else {
        zero_leaf()
    }
}

/// Node `j` at height `level` of the full tree whose first leaves are
/// `leaves` (height 0 holds the leaves).
pub open spec fn node(leaves: Seq<Seq<u8>>, level: nat, j: nat) -> Seq<u8>
    decreases level,
{
    if level == 0 {
        leaf_or_zero(leaves, j)
    } else {
        spec_hash_pair(
            node(leaves, (level - 1) as nat, 2 * j),
            node(leaves, (level - 1) as nat, 2 * j + 1),
        )
    }
}

/// The root of the tree of height `depth` whose first leaves are `leaves`.
pub open spec fn merkle_root(leaves: Seq<Seq<u8>>, depth: nat) -> Seq<u8> {
    node(leaves, depth, 0)
}

/// The index of the sibling of node `j` on the same height.
pub open spec fn sibling(j: nat) -> nat {
    if j % 2 == 0 {
        j + 1
    } else {
        (j - 1) as nat
    }
}

/// The proof of membership of leaf `index`: the siblings of the nodes on
/// its path to the root, from the leaf up.
pub open spec fn auth_path(leaves: Seq<Seq<u8>>, index: nat, depth: nat) -> Seq<Seq<u8>> {
    Seq::new(depth, |i: int| node(leaves, i as nat, sibling(index / pow2(i as nat))))
}

// ---------------------------------------------------------------------------
// Arithmetic of heights

proof fn lemma_pow2_facts(level: nat)
    ensures
        pow2(0) == 1,
        pow2(level) > 0,
        pow2(level + 1) == 2 * pow2(level),
{
    lemma2_to64();
    lemma_pow2_pos(level);
    lemma_pow2_unfold(level + 1);
}

/// A tree of the program's height has fewer than `u32::MAX` leaves.
proof fn lemma_pow2_bounded(level: nat)
    requires
        level <= DEPTH,
    ensures
        pow2(level) <= pow2(DEPTH as nat),
        pow2(DEPTH as nat) == 0x10_0000,
{
    lemma2_to64();
    if level < DEPTH {
        vstd::arithmetic::power2::lemma_pow2_strictly_increases(level, DEPTH as nat);
    }
}

/// The ancestor at height `level` of leaf `n` is node `n / 2^level`: its
/// leaves run from `(n / 2^level) * 2^level` up to the next multiple.
proof fn lemma_ancestor_bounds(n: nat, level: nat)
    ensures
        (n / pow2(level)) * pow2(level) <= n < (n / pow2(level) + 1) * pow2(level),
{
    lemma_pow2_facts(level);
    let p = pow2(level) as int;
    lemma_fundamental_div_mod(n as int, p);
    lemma_mod_pos_bound(n as int, p);
    let q = n as int / p;
    assert(q * p == p * q) by (nonlinear_arith);
    assert((q + 1) * p == q * p + p) by (nonlinear_arith);
}

/// The parent of the ancestor at height `level` is the ancestor at height
/// `level + 1`.
proof fn lemma_ancestor_step(n: nat, level: nat)
    ensures
        (n / pow2(level)) / 2 == n / pow2(level + 1),
{
    lemma_pow2_facts(level);
    lemma_div_denominator(n as int, pow2(level) as int, 2);
    assert(pow2(level) * 2 == pow2(level + 1));
}

// ---------------------------------------------------------------------------
// Subtrees

/// A subtree whose leaves all lie after `leaves` is empty.
proof fn lemma_empty_subtree(leaves: Seq<Seq<u8>>, level: nat, j: nat)
    requires
        j * pow2(level) >= leaves.len(),
    ensures
        node(leaves, level, j) == zero_hash(level),
    decreases level,
{
    lemma_pow2_facts(level);
    if level > 0 {
        let l = (level - 1) as nat;
        lemma_pow2_facts(l);
        let p = pow2(l);
        assert(j * pow2(level) == (2 * j) * p) by (nonlinear_arith)
            requires
                pow2(level) == 2 * p,
        ;
        assert((2 * j) * p <= (2 * j + 1) * p) by (nonlinear_arith);
        lemma_empty_subtree(leaves, l, 2 * j);
        lemma_empty_subtree(leaves, l, 2 * j + 1);
    } else {
        assert(j * pow2(0) == j) by (nonlinear_arith)
            requires
                pow2(0) == 1,
        ;
    }
}

/// `long` extends `short`.
pub open spec fn extends(long: Seq<Seq<u8>>, short: Seq<Seq<u8>>) -> bool {
    &&& short.len() <= long.len()
    &&& forall|k: int| 0 <= k < short.len() ==> long[k] == short[k]
}

/// A subtree whose leaves all lie within `short` is the same in every
/// extension of `short`.
proof fn lemma_complete_subtree(long: Seq<Seq<u8>>, short: Seq<Seq<u8>>, level: nat, j: nat)
    requires
        extends(long, short),
        (j + 1) * pow2(level) <= short.len(),
    ensures
        node(long, level, j) == node(short, level, j),
    decreases level,
{
    lemma_pow2_facts(level);
    if level > 0 {
        let l = (level - 1) as nat;
        lemma_pow2_facts(l);
        let p = pow2(l);
        assert((j + 1) * pow2(level) == (2 * j + 2) * p) by (nonlinear_arith)
            requires
                pow2(level) == 2 * p,
        ;
        assert((2 * j + 1) * p <= (2 * j + 2) * p) by (nonlinear_arith);
        lemma_complete_subtree(long, short, l, 2 * j);
        lemma_complete_subtree(long, short, l, 2 * j + 1);
    } else {
        assert((j + 1) * pow2(0) == j + 1) by (nonlinear_arith)
            requires
                pow2(0) == 1,
        ;
    }
}


/// Moving on by one leaf, the ancestor at any height stays or becomes the
/// next node.
proof fn lemma_next_ancestor(n: nat, level: nat)
    ensures
        (n + 1) / pow2(level) == n / pow2(level) || (n + 1) / pow2(level) == n / pow2(level) + 1,
{
    lemma_pow2_facts(level);
    lemma_ancestor_bounds(n, level);
    lemma_ancestor_bounds(n + 1, level);
    let p = pow2(level) as int;
    let c = (n / pow2(level)) as int;
    let d = ((n + 1) / pow2(level)) as int;
    if d >= c + 2 {
        assert(d * p >= (c + 2) * p) by (nonlinear_arith)
            requires
                d >= c + 2,
                p > 0,
        ;
        assert((c + 2) * p == (c + 1) * p + p) by (nonlinear_arith);
    }
    if d < c {
        assert((d + 1) * p <= c * p) by (nonlinear_arith)
            requires
                d + 1 <= c,
                p > 0,
        ;
    }
}

/// Below `2^level` leaves, the root-level ancestor of every leaf is node 0.
proof fn lemma_top_ancestor(n: nat, level: nat)
    requires
        n < pow2(level),
    ensures
        n / pow2(level) == 0,
{
    lemma_pow2_facts(level);
    lemma_ancestor_bounds(n, level);
    let q = (n / pow2(level)) as int;
    if q >= 1 {
        assert(q * pow2(level) >= pow2(level)) by (nonlinear_arith)
            requires
                q >= 1,
                pow2(level) > 0,
        ;
    }
}

// ---------------------------------------------------------------------------
// The frontier

/// The frontier of a stored tree, node by node.
pub open spec fn frontier(t: MerkleTree) -> Seq<Seq<u8>> {
    t.filled_subtrees@.map_values(|n: [u8; 32]| n@)
}

/// The frontier node at height `k` after `n` leaves: the ancestor of the
/// last leaf at that height if it is a left child, else its left sibling;
/// node 0 before any leaf.
pub open spec fn frontier_index(n: nat, k: nat) -> nat {
    if n == 0 {
        0
    } else {
        let c = ((n - 1) as nat) / pow2(k);
        (c - c % 2) as nat
    }
}

/// At every height below `depth` the frontier holds the node of the full
/// tree that `frontier_index` names: the last left child of that height.
pub open spec fn frontier_matches(frontier: Seq<Seq<u8>>, leaves: Seq<Seq<u8>>, depth: nat) -> bool {
    forall|k: nat|
        k < depth ==> #[trigger] frontier[k as int] == node(leaves, k, frontier_index(leaves.len(), k))
}

/// Where the ancestor at height `k` of the next leaf is a right child, the
/// frontier index is its left sibling, a subtree that is already complete.
proof fn lemma_frontier_index_of_right_child(n: nat, k: nat)
    requires
        (n / pow2(k)) % 2 == 1,
    ensures
        frontier_index(n, k) == n / pow2(k) - 1,
        (n / pow2(k)) * pow2(k) <= n,
{
    lemma_pow2_facts(k);
    lemma_ancestor_bounds(n, k);
    let c = n / pow2(k);
    if n == 0 {
        assert(0nat / pow2(k) == 0);
    } else {
        lemma_next_ancestor((n - 1) as nat, k);
    }
}

/// Tree `t` stands for the full tree of height `t.depth` whose first
/// leaves are `leaves`, in the order of insertion.
pub open spec fn represents(t: MerkleTree, leaves: Seq<Seq<u8>>) -> bool {
    &&& t.depth <= DEPTH
    &&& leaves.len() == t.next_index
    &&& leaves.len() <= pow2(t.depth as nat)
    &&& t.current_root@ == merkle_root(leaves, t.depth as nat)
    &&& frontier_matches(frontier(t), leaves, t.depth as nat)
}

/// The running hash and the frontier after inserting `leaf` into `t` has
/// gone through the heights below `level`: at each height the running
/// hash is a left child (the frontier takes it, its sibling is empty) or a
/// right child (its sibling is the frontier node).
pub open spec fn climb(t: MerkleTree, leaf: Seq<u8>, level: nat) -> (Seq<u8>, Seq<Seq<u8>>)
    decreases level,
{
    if level == 0 {
        (leaf, frontier(t))
    } else {
        let i = (level - 1) as nat;
        let below = climb(t, leaf, i);
        if (t.next_index as nat / pow2(i)) % 2 == 0 {
            (spec_hash_pair(below.0, zero_hash(i)), below.1.update(i as int, below.0))
        } else {
            (spec_hash_pair(below.1[i as int], below.0), below.1)
        }
    }
}

/// `new` is `old` after inserting `leaf`.
pub open spec fn is_insertion(old: MerkleTree, new: MerkleTree, leaf: Seq<u8>) -> bool {
    &&& new.authority == old.authority
    &&& new.depth == old.depth
    &&& new.bump == old.bump
    &&& new._pad == old._pad
    &&& new.next_index == old.next_index + 1
    &&& new.current_root@ == climb(old, leaf, old.depth as nat).0
    &&& frontier(new) == climb(old, leaf, old.depth as nat).1
}

/// What the climb computes when `t` stands for `leaves`: the running hash
/// is the new leaf's ancestor, and the frontier takes the left children.
proof fn lemma_climb(t: MerkleTree, leaves: Seq<Seq<u8>>, leaf: Seq<u8>, level: nat)
    requires
        represents(t, leaves),
        level <= t.depth,
    ensures
        ({
            let grown = leaves.push(leaf);
            let n = leaves.len();
            let c = climb(t, leaf, level);
            &&& c.0 == node(grown, level, n / pow2(level))
            &&& c.1.len() == DEPTH
            &&& forall|k: nat|
                k < level ==> #[trigger] c.1[k as int] == (if (n / pow2(k)) % 2 == 0 {
                    node(grown, k, n / pow2(k))
                } else {
                    frontier(t)[k as int]
                })
            &&& forall|k: nat| level <= k < DEPTH ==> #[trigger] c.1[k as int] == frontier(t)[k as int]
        }),
    decreases level,
{
    let grown = leaves.push(leaf);
    let n = leaves.len();
    lemma_pow2_facts(level);
    if level == 0 {
        assert(n / pow2(0) == n);
        assert(node(grown, 0, n) == leaf);
    } else {
        let i = (level - 1) as nat;
        lemma_climb(t, leaves, leaf, i);
        let below = climb(t, leaf, i);
        let c = n / pow2(i);
        lemma_ancestor_bounds(n, i);
        lemma_ancestor_step(n, i);
        lemma_pow2_facts(i);
        assert(extends(grown, leaves));
        if c % 2 == 0 {
            assert((c + 1) * pow2(i) >= grown.len());
            lemma_empty_subtree(grown, i, c + 1);
            assert(2 * (c / 2) == c);
        } else {
            lemma_frontier_index_of_right_child(n, i);
            assert(frontier(t)[i as int] == node(leaves, i, (c - 1) as nat));
            assert(((c - 1) as nat + 1) * pow2(i) <= leaves.len());
            lemma_complete_subtree(grown, leaves, i, (c - 1) as nat);
            assert(2 * (c / 2) == c - 1);
        }
    }
}

/// Inserting a leaf appends it and keeps the frontier faithful: when `old`
/// stands for `leaves` and has room left, the tree after inserting `leaf`
/// stands for `leaves` followed by `leaf` (its count, its root and its
/// frontier at every height), and its root is the root of that full tree.
pub proof fn insertion_extends_tree(old: MerkleTree, new: MerkleTree, leaves: Seq<Seq<u8>>, leaf: Seq<u8>)
    requires
        represents(old, leaves),
        old.next_index < pow2(old.depth as nat),
        is_insertion(old, new, leaf),
    ensures
        represents(new, leaves.push(leaf)),
        new.current_root@ == merkle_root(leaves.push(leaf), old.depth as nat),
{
    let grown = leaves.push(leaf);
    let n = leaves.len();
    let d = old.depth as nat;
    lemma_climb(old, leaves, leaf, d);
    lemma_top_ancestor(n, d);
    assert(extends(grown, leaves));
    assert forall|k: nat| k < d implies #[trigger] frontier(new)[k as int] == node(
        grown,
        k,
        frontier_index(grown.len(), k),
    ) by {
        lemma_pow2_facts(k);
        let c = n / pow2(k);
        assert(frontier_index(grown.len(), k) == c - c % 2);
        if c % 2 == 1 {
            lemma_frontier_index_of_right_child(n, k);
            assert(frontier(old)[k as int] == node(leaves, k, (c - 1) as nat));
            assert(((c - 1) as nat + 1) * pow2(k) <= leaves.len());
            lemma_complete_subtree(grown, leaves, k, (c - 1) as nat);
        }
    }
}


// ---------------------------------------------------------------------------
// Insertion

/// Inserts `leaf` as the next leaf of `tree`: walks from the leaf to the
/// root, storing each left child in the frontier and hashing it with the
/// empty subtree beside it, or hashing each right child with the frontier
/// node beside it; then stores the new root and counts the leaf.
pub fn insert_leaf(tree: &mut MerkleTree, leaf: &[u8; 32])
    requires
        old(tree).depth <= DEPTH,
        old(tree).next_index < pow2(old(tree).depth as nat),
    ensures
        is_insertion(*old(tree), *final(tree), leaf@),
        forall|leaves: Seq<Seq<u8>>|
            represents(*old(tree), leaves) ==> #[trigger] represents(*final(tree), leaves.push(leaf@)),
{
    let ghost start = *tree;
    let zeros = zero_hashes();
    let depth = tree.depth as usize;
    let mut current_index: u32 = tree.next_index;
    let mut current_hash: [u8; 32] = *leaf;
    let mut i: usize = 0;
    proof {
        lemma_pow2_facts(0);
    }
    while i < depth
        invariant
            i <= depth,
            depth == start.depth,
            depth <= DEPTH,
            zeros.len() == DEPTH + 1,
            forall|j: int| 0 <= j <= DEPTH ==> #[trigger] zeros@[j]@ == zero_hash(j as nat),
            tree.authority == start.authority,
            tree.depth == start.depth,
            tree.bump == start.bump,
            tree._pad == start._pad,
            tree.next_index == start.next_index,
            tree.current_root == start.current_root,
            current_index as nat == start.next_index as nat / pow2(i as nat),
            current_hash@ == climb(start, leaf@, i as nat).0,
            frontier(*tree) == climb(start, leaf@, i as nat).1,
        decreases depth - i,
    {
        proof {
            lemma_pow2_facts(i as nat);
            lemma_ancestor_step(start.next_index as nat, i as nat);
        }
        let ghost below = climb(start, leaf@, i as nat);
        if current_index % 2 == 0 {
            tree.filled_subtrees[i] = current_hash;
            current_hash = hash_pair(&current_hash, &zeros[i]);
            proof {
                assert(frontier(*tree) =~= below.1.update(i as int, below.0));
            }
        } else {
            current_hash = hash_pair(&tree.filled_subtrees[i], &current_hash);
        }
        assert(current_index >> 1 == current_index / 2) by (bit_vector);
        current_index = current_index >> 1;
        i = i + 1;
    }
    proof {
        lemma_pow2_bounded(start.depth as nat);
    }
    tree.current_root = current_hash;
    tree.next_index = tree.next_index + 1;
    proof {
        assert forall|leaves: Seq<Seq<u8>>| represents(start, leaves) implies #[trigger] represents(
            *tree,
            leaves.push(leaf@),
        ) by {
            insertion_extends_tree(start, *tree, leaves, leaf@);
        }
    }
}


// ---------------------------------------------------------------------------
// A fresh tree

/// `t` is the tree that initialization stores for `authority` and `bump`:
/// no leaves, the root of the empty tree, and an empty frontier.
pub open spec fn is_fresh(t: MerkleTree, authority: Seq<u8>, bump: u8) -> bool {
    &&& t.authority@ == authority
    &&& t.depth == DEPTH
    &&& t.bump == bump
    &&& t._pad@ == seq![0u8, 0u8]
    &&& t.next_index == 0
    &&& t.current_root@ == zero_hash(DEPTH as nat)
    &&& forall|i: int| 0 <= i < DEPTH ==> #[trigger] t.filled_subtrees@[i]@ == zero_hash(i as nat)
}

impl MerkleTree {
    /// The tree that initialization stores for `authority` and `bump`.
    pub fn fresh(authority: &[u8; 32], bump: u8) -> (res: MerkleTree)
        ensures
            is_fresh(res, authority@, bump),
    {
        let zeros = zero_hashes();
        let mut filled_subtrees = [[0u8; 32]; DEPTH];
        let mut i: usize = 0;
        while i < DEPTH
            invariant
                i <= DEPTH,
                zeros.len() == DEPTH + 1,
                forall|j: int| 0 <= j <= DEPTH ==> #[trigger] zeros@[j]@ == zero_hash(j as nat),
                forall|j: int| 0 <= j < i ==> #[trigger] filled_subtrees@[j]@ == zero_hash(j as nat),
            decreases DEPTH - i,
        {
            filled_subtrees[i] = zeros[i];
            i = i + 1;
        }
        let res = MerkleTree {
            authority: *authority,
            depth: DEPTH as u8,
            bump,
            _pad: [0u8; 2],
            next_index: 0,
            current_root: zeros[DEPTH],
            filled_subtrees,
        };
        assert(res._pad@ =~= seq![0u8, 0u8]);
        res
    }
}

/// A freshly initialized tree stands for the tree with no leaves, whose
/// root is the root of the empty tree of the program's height.
pub proof fn fresh_tree_is_empty(t: MerkleTree, authority: Seq<u8>, bump: u8)
    requires
        is_fresh(t, authority, bump),
    ensures
        represents(t, Seq::<Seq<u8>>::empty()),
        t.current_root@ == merkle_root(Seq::<Seq<u8>>::empty(), DEPTH as nat),
{
    lemma_pow2_facts(DEPTH as nat);
    lemma_empty_subtree(Seq::<Seq<u8>>::empty(), DEPTH as nat, 0);
    assert forall|k: nat| k < DEPTH implies #[trigger] frontier(t)[k as int] == node(
        Seq::<Seq<u8>>::empty(),
        k,
        frontier_index(0, k),
    ) by {
        lemma_pow2_facts(k);
        lemma_empty_subtree(Seq::<Seq<u8>>::empty(), k, 0);
    }
}

// ---------------------------------------------------------------------------
// Proofs of membership

/// The root that a proof of membership leads to: the leaf hashed with the
/// siblings from the bottom up, the path's node on the left where the bit
/// of `index` for that height is 0 and on the right where it is 1.
pub open spec fn proof_root(leaf: Seq<u8>, index: nat, siblings: Seq<Seq<u8>>, level: nat) -> Seq<u8>
    decreases level,
{
    if level == 0 {
        leaf
    } else {
        let i = (level - 1) as nat;
        let below = proof_root(leaf, index, siblings, i);
        if (index / pow2(i)) % 2 == 0 {
            spec_hash_pair(below, siblings[i as int])
        } else {
            spec_hash_pair(siblings[i as int], below)
        }
    }
}

proof fn lemma_path_nodes(leaves: Seq<Seq<u8>>, index: nat, depth: nat, level: nat)
    requires
        index < leaves.len(),
        level <= depth,
    ensures
        proof_root(leaves[index as int], index, auth_path(leaves, index, depth), level)
            == node(leaves, level, index / pow2(level)),
    decreases level,
{
    lemma_pow2_facts(level);
    if level > 0 {
        let i = (level - 1) as nat;
        lemma_path_nodes(leaves, index, depth, i);
        lemma_ancestor_step(index, i);
        lemma_pow2_facts(i);
        let c = index / pow2(i);
        if c % 2 == 0 {
            assert(2 * (c / 2) == c);
        } else {
            assert(2 * (c / 2) == c - 1);
        }
    } else {
        assert(index / pow2(0) == index);
    }
}

/// Every inserted leaf has a proof of membership: when `t` stands for
/// `leaves`, the siblings of the path of leaf `index` lead from that leaf
/// to the current root.
pub proof fn inserted_leaf_has_proof(t: MerkleTree, leaves: Seq<Seq<u8>>, index: nat)
    requires
        represents(t, leaves),
        index < leaves.len(),
    ensures
        proof_root(leaves[index as int], index, auth_path(leaves, index, t.depth as nat), t.depth as nat)
            == t.current_root@,
{
    lemma_path_nodes(leaves, index, t.depth as nat, t.depth as nat);
    lemma_top_ancestor(index, t.depth as nat);
}

/// The siblings carried in a proof: `count` nodes of 32 bytes, one after
/// another.
pub open spec fn proof_siblings(proof: Seq<u8>, count: nat) -> Seq<Seq<u8>> {
    Seq::new(count, |i: int| proof.subrange(32 * i, 32 * i + 32))
}

/// The root that `leaf`, at position `index`, and the first `depth`
/// siblings in `proof` lead to.
pub fn compute_root(leaf: &[u8; 32], index: u32, proof: &[u8], depth: usize) -> (res: [u8; 32])
    requires
        32 * depth <= proof.len(),
    ensures
        res@ == proof_root(leaf@, index as nat, proof_siblings(proof@, depth as nat), depth as nat),
{
    let ghost siblings = proof_siblings(proof@, depth as nat);
    let mut current_hash: [u8; 32] = *leaf;
    let mut current_index: u32 = index;
    let mut i: usize = 0;
    proof {
        lemma_pow2_facts(0);
    }
    while i < depth
        invariant
            i <= depth,
            32 * depth <= proof.len(),
            siblings == proof_siblings(proof@, depth as nat),
            current_index as nat == index as nat / pow2(i as nat),
            current_hash@ == proof_root(leaf@, index as nat, siblings, i as nat),
        decreases depth - i,
    {
        proof {
            lemma_pow2_facts(i as nat);
            lemma_ancestor_step(index as nat, i as nat);
        }
        let sibling_node = crate::state::read_node(proof, i * 32);
        assert(sibling_node@ == siblings[i as int]);
        current_hash = if current_index % 2 == 0 {
            hash_pair(&current_hash, &sibling_node)
        } else {
            hash_pair(&sibling_node, &current_hash)
        };
        assert(current_index >> 1 == current_index / 2) by (bit_vector);
        current_index = current_index >> 1;
        i = i + 1;
    }
    current_hash
}

} // verus!
