//! The leaf committer: the digest under which a note enters the tree.

use vstd::prelude::*;

verus! {

/// Width of a leaf in bytes.
pub const LEAF_LEN: usize = 32;

/// The Keccak-256 digest of a byte string.
pub uninterp spec fn keccak256(data: Seq<u8>) -> [u8; 32];

/// Calls `solana_program::keccak::hashv` on the one slice `data` and takes
/// the digest out of the `Hash` it returns. The digest is assumed to be
/// `keccak256` of the bytes: the function absorbs the slices in order into a
/// Keccak-256 hasher and returns its 32-byte output.
#[verifier::external_body]
fn keccak_hashv(data: &[u8]) -> (digest: [u8; 32])
    ensures
        digest == keccak256(data@),
{
    anchor_lang::solana_program::keccak::hashv(&[data]).to_bytes()
}

/// The leaf value of a message: the Keccak-256 digest of its raw bytes, with
/// nothing added before or after them.
pub open spec fn leaf_value(message: Seq<u8>) -> Seq<u8> {
    keccak256(message)@
}

/// Commits to `message`.
///
/// The result depends on the bytes of the message alone, so equal messages
/// always commit to the same leaf.
pub fn commit(message: &[u8]) -> (leaf: [u8; 32])
    ensures
        leaf@ == leaf_value(message@),
        leaf@.len() == LEAF_LEN,
{
    keccak_hashv(message)
}

/// Committing is a function of the bytes: messages of the same bytes have
/// the same leaf, whenever and wherever they are committed.
pub proof fn lemma_commit_deterministic(first: Seq<u8>, second: Seq<u8>)
    requires
        first == second,
    ensures
        leaf_value(first) == leaf_value(second),
        leaf_value(first).len() == LEAF_LEN,
{
}

} // verus!
