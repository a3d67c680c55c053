//! The hash function of the tree: SHA-256 over the concatenation of two nodes.

use vstd::prelude::*;

verus! {

/// A node of a hash tree: 32 bytes.
pub type Hash256 = [u8; 32];

/// The SHA-256 digest of a byte string.
pub uninterp spec fn sha256(data: Seq<u8>) -> Seq<u8>;

/// The parent of two nodes: the digest of the left child followed by the right.
pub open spec fn hash_pair(left: Seq<u8>, right: Seq<u8>) -> Seq<u8> {
    sha256(left + right)
}

/// The all-zero node, which pads a tree on the right.
pub open spec fn zero_chunk() -> Seq<u8> {
    Seq::new(32, |i: int| 0u8)
}

/// Calls `ethereum_hashing::hash32_concat`, which feeds the first slice and then
/// the second to one SHA-256 context and returns its 32-byte digest. The digest
/// is taken to be `sha256` of the two slices joined; nothing is proved of it.
#[verifier::external_body]
pub(crate) fn hash32_concat(h1: &[u8], h2: &[u8]) -> (digest: Hash256)
    ensures
        digest@ == sha256(h1@ + h2@),
{
    ethereum_hashing::hash32_concat(h1, h2)
}

/// Hashes two nodes into their parent.
pub fn hash_nodes(left: &Hash256, right: &Hash256) -> (parent: Hash256)
    ensures
        parent@ == hash_pair(left@, right@),
{
    hash32_concat(left.as_slice(), right.as_slice())
}

/// The all-zero node.
pub fn zero_node() -> (node: Hash256)
    ensures
        node@ == zero_chunk(),
{
    let node: Hash256 = [0u8; 32];
    assert(node@ =~= zero_chunk());
    node
}

/// Whether two nodes hold the same bytes.
pub fn hash_eq(a: &Hash256, b: &Hash256) -> (same: bool)
    ensures
        same == (a@ == b@),
{
    let mut i: usize = 0;
    while i < 32
        invariant
            i <= 32,
            forall|j: int| 0 <= j < i ==> a@[j] == b@[j],
        decreases 32 - i,
    {
        if a[i] != b[i] {
            return false;
        }
        i += 1;
    }
    assert(a@ =~= b@);
    true
}

} // verus!
