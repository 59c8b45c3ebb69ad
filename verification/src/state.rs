//! The account layout of a tree: a fixed-size record read from and written
//! to the account's data.

use vstd::prelude::*;

use vstd::bytes::{spec_u32_to_le_bytes, spec_u32_from_le_bytes};

use crate::error::ProgramError;
use crate::hash::DEPTH;

verus! {

/// The state of one tree, as stored in its account.
///
/// `filled_subtrees[i]` is the frontier node of height `i`: the last left
/// child of that height that holds a leaf (the empty subtree's root before
/// any leaf), which the next insertions combine with new nodes.
#[derive(Clone, Copy)]
pub struct MerkleTree {
    pub authority: [u8; 32],
    pub depth: u8,
    pub bump: u8,
    pub _pad: [u8; 2],
    pub next_index: u32,
    pub current_root: [u8; 32],
    pub filled_subtrees: [[u8; 32]; DEPTH],
}

/// Offsets of the fields in the account data.
pub const AUTHORITY_OFFSET: usize = 0;
pub const DEPTH_OFFSET: usize = 32;
pub const BUMP_OFFSET: usize = 33;
pub const PAD_OFFSET: usize = 34;
pub const NEXT_INDEX_OFFSET: usize = 36;
pub const ROOT_OFFSET: usize = 40;
pub const SUBTREES_OFFSET: usize = 72;

impl MerkleTree {
    /// The size of the account data of a tree.
    pub const LEN: usize = 712;
}

/// The bytes of the frontier node of height `i` in account data `b`.
pub open spec fn subtree_bytes(b: Seq<u8>, i: int) -> Seq<u8> {
    b.subrange(SUBTREES_OFFSET + 32 * i, SUBTREES_OFFSET + 32 * i + 32)
}

/// `b` is the account data of tree `t`: the fields one after another in
/// declaration order, with no padding, the counter in little-endian order.
pub open spec fn encodes(t: MerkleTree, b: Seq<u8>) -> bool {
    &&& b.len() == MerkleTree::LEN
    &&& b.subrange(0, 32) == t.authority@
    &&& b[DEPTH_OFFSET as int] == t.depth
    &&& b[BUMP_OFFSET as int] == t.bump
    &&& b.subrange(34, 36) == t._pad@
    &&& b.subrange(36, 40) == spec_u32_to_le_bytes(t.next_index)
    &&& b.subrange(40, 72) == t.current_root@
    &&& forall|i: int| 0 <= i < DEPTH ==> #[trigger] subtree_bytes(b, i) == t.filled_subtrees@[i]@
}


/// The 32 bytes of `b` that start at `offset`.
pub fn read_node(b: &[u8], offset: usize) -> (res: [u8; 32])
    requires
        offset + 32 <= b.len(),
    ensures
        res@ == b@.subrange(offset as int, offset + 32),
{
    let mut res = [0u8; 32];
    let mut j: usize = 0;
    while j < 32
        invariant
            j <= 32,
            offset + 32 <= b.len(),
            forall|k: int| 0 <= k < j ==> res@[k] == b@[offset + k],
        decreases 32 - j,
    {
        res[j] = b[offset + j];
        j = j + 1;
    }
    assert(res@ =~= b@.subrange(offset as int, offset + 32));
    res
}

/// Appends the bytes of `node` to `out`.
fn push_node(out: &mut Vec<u8>, node: &[u8; 32])
    ensures
        final(out)@ == old(out)@ + node@,
{
    let ghost start = out@;
    let mut j: usize = 0;
    while j < 32
        invariant
            j <= 32,
            out@ == start + node@.subrange(0, j as int),
        decreases 32 - j,
    {
        out.push(node[j]);
        assert(node@.subrange(0, j + 1) =~= node@.subrange(0, j as int).push(node@[j as int]));
        j = j + 1;
    }
    assert(node@.subrange(0, 32) =~= node@);
}

impl MerkleTree {
    /// The account data of this tree.
    pub fn to_bytes(&self) -> (res: Vec<u8>)
        ensures
            encodes(*self, res@),
    {
        let mut out: Vec<u8> = Vec::new();
        push_node(&mut out, &self.authority);
        out.push(self.depth);
        out.push(self.bump);
        out.push(self._pad[0]);
        out.push(self._pad[1]);
        let ghost h1 = out@;
        assert(h1.subrange(0, 32) =~= self.authority@);
        assert(h1.subrange(34, 36) =~= self._pad@);
        let counter = vstd::bytes::u32_to_le_bytes(self.next_index);
        let mut k: usize = 0;
        let ghost before = out@;
        while k < 4
            invariant
                k <= 4,
                counter@.len() == 4,
                out@ == before + counter@.subrange(0, k as int),
            decreases 4 - k,
        {
            out.push(counter[k]);
            assert(counter@.subrange(0, k + 1) =~= counter@.subrange(0, k as int).push(counter@[k as int]));
            k = k + 1;
        }
        assert(counter@.subrange(0, 4) =~= counter@);
        let ghost h2 = out@;
        assert(h2.subrange(0, 36) =~= h1);
        assert(h2.subrange(36, 40) =~= counter@);
        push_node(&mut out, &self.current_root);
        let ghost head = out@;
        assert(head.len() == 72);
        assert(head.subrange(0, 40) =~= h2);
        assert(head.subrange(40, 72) =~= self.current_root@);
        let mut i: usize = 0;
        while i < DEPTH
            invariant
                i <= DEPTH,
                head.len() == 72,
                out@.len() == 72 + 32 * i,
                out@.subrange(0, 72) == head,
                forall|m: int| 0 <= m < i ==> #[trigger] subtree_bytes(out@, m) == self.filled_subtrees@[m]@,
            decreases DEPTH - i,
        {
            let ghost prev = out@;
            push_node(&mut out, &self.filled_subtrees[i]);
            assert forall|m: int| 0 <= m < i + 1 implies #[trigger] subtree_bytes(out@, m) == self.filled_subtrees@[m]@ by {
                if m < i {
                    assert(subtree_bytes(out@, m) =~= subtree_bytes(prev, m));
                } else {
                    assert(subtree_bytes(out@, m) =~= self.filled_subtrees@[m]@);
                }
            }
            assert(out@.subrange(0, 72) =~= prev.subrange(0, 72));
            i = i + 1;
        }
        assert(out@.subrange(0, 32) =~= head.subrange(0, 32));
        assert(head.subrange(0, 32) =~= h1.subrange(0, 32));
        assert(out@.subrange(34, 36) =~= head.subrange(34, 36));
        assert(head.subrange(34, 36) =~= h1.subrange(34, 36));
        assert(out@.subrange(36, 40) =~= head.subrange(36, 40));
        assert(head.subrange(36, 40) =~= h2.subrange(36, 40));
        assert(out@.subrange(40, 72) =~= head.subrange(40, 72));
        assert(out@[32] == head[32] && head[32] == h1[32]);
        assert(out@[33] == head[33] && head[33] == h1[33]);
        out
    }
}


impl MerkleTree {
    /// Reads the tree stored in account data `bytes`; fails with
    /// `InvalidAccountData` unless the data has exactly the size of a tree.
    pub fn load(bytes: &[u8]) -> (res: Result<MerkleTree, ProgramError>)
        ensures
            res is Ok <==> bytes@.len() == MerkleTree::LEN,
            res matches Ok(t) ==> encodes(t, bytes@),
            res matches Err(e) ==> e == ProgramError::InvalidAccountData,
    {
        if bytes.len() != MerkleTree::LEN {
            return Err(ProgramError::InvalidAccountData);
        }
        let authority = read_node(bytes, AUTHORITY_OFFSET);
        let depth = bytes[DEPTH_OFFSET];
        let bump = bytes[BUMP_OFFSET];
        let pad = [bytes[PAD_OFFSET], bytes[PAD_OFFSET + 1]];
        let counter = vstd::slice::slice_subrange(bytes, NEXT_INDEX_OFFSET, NEXT_INDEX_OFFSET + 4);
        let next_index = vstd::bytes::u32_from_le_bytes(counter);
        let current_root = read_node(bytes, ROOT_OFFSET);
        let mut filled_subtrees = [[0u8; 32]; DEPTH];
        let mut i: usize = 0;
        while i < DEPTH
            invariant
                i <= DEPTH,
                bytes@.len() == MerkleTree::LEN,
                forall|m: int| 0 <= m < i ==> #[trigger] filled_subtrees@[m]@ == subtree_bytes(bytes@, m),
            decreases DEPTH - i,
        {
            filled_subtrees[i] = read_node(bytes, SUBTREES_OFFSET + 32 * i);
            i = i + 1;
        }
        let t = MerkleTree { authority, depth, bump, _pad: pad, next_index, current_root, filled_subtrees };
        proof {
            vstd::bytes::lemma_auto_spec_u32_to_from_le_bytes();
            assert(t._pad@ =~= bytes@.subrange(34, 36));
            assert(counter@ =~= bytes@.subrange(36, 40));
        }
        Ok(t)
    }
}


/// Reading back what was written gives the same tree: two trees with the
/// same account data are equal, so `load` of the bytes of `to_bytes(t)`
/// is `Ok(t)`.
pub proof fn encoding_determines_tree(t1: MerkleTree, t2: MerkleTree, b: Seq<u8>)
    requires
        encodes(t1, b),
        encodes(t2, b),
    ensures
        t1 == t2,
{
    vstd::bytes::lemma_auto_spec_u32_to_from_le_bytes();
    assert(spec_u32_to_le_bytes(t1.next_index).len() == 4);
    assert(spec_u32_to_le_bytes(t2.next_index).len() == 4);
    assert(t1.authority =~= t2.authority);
    assert(t1._pad =~= t2._pad);
    assert(t1.current_root =~= t2.current_root);
    assert forall|i: int| 0 <= i < DEPTH implies t1.filled_subtrees[i] == t2.filled_subtrees[i] by {
        assert(subtree_bytes(b, i) == t1.filled_subtrees@[i]@);
        assert(subtree_bytes(b, i) == t2.filled_subtrees@[i]@);
        assert(t1.filled_subtrees[i] =~= t2.filled_subtrees[i]);
    }
    assert(t1.filled_subtrees =~= t2.filled_subtrees);
}

/// Writing back what was read gives the same bytes: a tree has exactly one
/// account data, so `to_bytes` of the tree that `load` read from `b` is `b`.
pub proof fn encoding_determines_bytes(t: MerkleTree, b1: Seq<u8>, b2: Seq<u8>)
    requires
        encodes(t, b1),
        encodes(t, b2),
    ensures
        b1 == b2,
{
    assert forall|k: int| 0 <= k < MerkleTree::LEN implies b1[k] == b2[k] by {
        if k < 32 {
            assert(b1[k] == b1.subrange(0, 32)[k]);
            assert(b2[k] == b2.subrange(0, 32)[k]);
        } else if k < 34 {
        } else if k < 36 {
            assert(b1[k] == b1.subrange(34, 36)[k - 34]);
            assert(b2[k] == b2.subrange(34, 36)[k - 34]);
        } else if k < 40 {
            assert(b1[k] == b1.subrange(36, 40)[k - 36]);
            assert(b2[k] == b2.subrange(36, 40)[k - 36]);
        } else if k < 72 {
            assert(b1[k] == b1.subrange(40, 72)[k - 40]);
            assert(b2[k] == b2.subrange(40, 72)[k - 40]);
        } else {
            let i = (k - 72) / 32;
            assert(0 <= i < DEPTH);
            assert(subtree_bytes(b1, i) == subtree_bytes(b2, i));
            assert(b1[k] == subtree_bytes(b1, i)[k - 72 - 32 * i]);
            assert(b2[k] == subtree_bytes(b2, i)[k - 72 - 32 * i]);
        }
    }
    assert(b1 =~= b2);
}

} // verus!
