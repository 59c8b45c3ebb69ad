//! Node hashing and the roots of empty subtrees.

use vstd::prelude::*;

use sha2::Digest;

verus! {

/// The depth of every tree this program creates.
pub const DEPTH: usize = 20;

/// The byte length of a node (a SHA-256 digest).
pub const HASH_LEN: usize = 32;

/// SHA-256 of a byte string, as computed by the `sha2` crate.
pub uninterp spec fn sha256(data: Seq<u8>) -> Seq<u8>;

/// The hash of an inner node whose children are `left` and `right`:
/// SHA-256 of their concatenation.
pub open spec fn spec_hash_pair(left: Seq<u8>, right: Seq<u8>) -> Seq<u8> {
    sha256(left + right)
}

/// The all-zero node: the value of an empty leaf.
pub open spec fn zero_leaf() -> Seq<u8> {
    Seq::new(32, |i: int| 0u8)
}

/// The root of an empty subtree of height `level`.
pub open spec fn zero_hash(level: nat) -> Seq<u8>
    decreases level,
{
    if level == 0 {
        zero_leaf()
    } else {
        spec_hash_pair(zero_hash((level - 1) as nat), zero_hash((level - 1) as nat))
    }
}

/// Hashes two 32-byte nodes into their parent with `sha2::Sha256`, fed
/// `left` and then `right`. The contract claims that the digest is the
/// value of the name `sha256` on the concatenation of the two arguments.
#[verifier::external_body]
pub fn hash_pair(left: &[u8; 32], right: &[u8; 32]) -> (res: [u8; 32])
    ensures
        res@ == sha256(left@ + right@),
{
    let mut hasher = sha2::Sha256::new();
    hasher.update(left);
    hasher.update(right);
    hasher.finalize().into()
}

/// The roots of the empty subtrees of heights `0` to `DEPTH`: entry `i` is
/// the root of an empty subtree of height `i`, entry `0` the all-zero leaf.
pub fn zero_hashes() -> (res: Vec<[u8; 32]>)
    ensures
        res.len() == DEPTH + 1,
        forall|i: int| 0 <= i <= DEPTH ==> #[trigger] res@[i]@ == zero_hash(i as nat),
{
    let mut res: Vec<[u8; 32]> = Vec::new();
    let mut cur: [u8; 32] = [0u8; 32];
    assert(cur@ =~= zero_leaf());
    let mut i: usize = 0;
    while i <= DEPTH
        invariant
            i <= DEPTH + 1,
            res.len() == i,
            i <= DEPTH ==> cur@ == zero_hash(i as nat),
            forall|j: int| 0 <= j < i ==> #[trigger] res@[j]@ == zero_hash(j as nat),
        decreases DEPTH + 1 - i,
    {
        res.push(cur);
        if i < DEPTH {
            cur = hash_pair(&cur, &cur);
        }
        i = i + 1;
    }
    res
}


/// Whether two nodes are the same 32 bytes.
pub fn nodes_equal(a: &[u8; 32], b: &[u8; 32]) -> (res: bool)
    ensures
        res == (a@ == b@),
{
    let mut j: usize = 0;
    while j < 32
        invariant
            j <= 32,
            forall|k: int| 0 <= k < j ==> a@[k] == b@[k],
        decreases 32 - j,
    {
        if a[j] != b[j] {
            return false;
        }
        j = j + 1;
    }
    assert(a@ =~= b@);
    true
}

/// Whether `node` is the all-zero leaf.
pub fn is_zero_leaf(node: &[u8; 32]) -> (res: bool)
    ensures
        res == (node@ == zero_leaf()),
{
    let zero = [0u8; 32];
    assert(zero@ =~= zero_leaf());
    nodes_equal(node, &zero)
}

} // verus!
