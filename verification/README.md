# merkle

An on-chain incremental Merkle tree of height 20 (up to 1,048,576 leaves),
kept as the frontier of filled subtrees, so that inserting a leaf and
verifying a proof of membership both take a number of hashes proportional
to the height: verifying takes one hash per level; inserting takes one per
level on the leaf's path and one per level for the roots of the empty
subtrees, which the library computes rather than reads from a table.

A node is the SHA-256 digest (computed with the `sha2` crate) of its two
children concatenated, left first; an empty leaf is 32 zero bytes.

- `src/` is the verified library:
  - `hash.rs`: node hashing (SHA-256 of the two children) and the roots of
    empty subtrees;
  - `state.rs`: the account layout of a tree and its reading and writing;
  - `merkle.rs`: the full tree a frontier stands for, insertion, proofs of
    membership, and the laws that tie them together;
  - `address.rs`: the program address of a tree's account;
  - `rent.rs`: the balance a tree's account is funded with;
  - `ix.rs`: the instructions (initialize, insert, verify) and their
    dispatch, over accounts given as plain values;
  - `error.rs`: the errors the instructions end with.
- `app/` holds the programs around it: the pinocchio entrypoint, which turns
  the runtime's accounts into plain values, creates the tree's account
  through the system program and writes the tree back, and the quasar
  program.
- `tests/` runs the instructions on concrete accounts.
