use vstd::prelude::*;

use crate::hashing::sha256_of;
use crate::hashing::sha256_concat;

verus! {

/// Lexicographic order on byte sequences: `a` is less than or equal to `b`
/// when, at the first position where they differ, `a` holds the smaller
/// byte, or when `a` is a prefix of `b`.
pub open spec fn le_bytes(a: Seq<u8>, b: Seq<u8>) -> bool
    decreases a.len(),
{
    if a.len() == 0 {
        true
    } else if b.len() == 0 {
        false
    } else if a[0] < b[0] {
        true
    } else if a[0] > b[0] {
        false
    } else {
        le_bytes(a.drop_first(), b.drop_first())
    }
}

proof fn lemma_le_bytes_total(a: Seq<u8>, b: Seq<u8>)
    ensures
        le_bytes(a, b) || le_bytes(b, a),
    decreases a.len(),
{
    if a.len() != 0 && b.len() != 0 && a[0] == b[0] {
        lemma_le_bytes_total(a.drop_first(), b.drop_first());
    }
}

proof fn lemma_le_bytes_antisymmetric(a: Seq<u8>, b: Seq<u8>)
    requires
        le_bytes(a, b),
        le_bytes(b, a),
    ensures
        a == b,
    decreases a.len(),
{
    if a.len() == 0 {
        assert(b.len() == 0);
        assert(a =~= b);
    } else {
        assert(b.len() != 0);
        assert(a[0] == b[0]);
        lemma_le_bytes_antisymmetric(a.drop_first(), b.drop_first());
        assert(forall|j: int| 1 <= j < a.len() ==> a[j] == a.drop_first()[j - 1]);
        assert(forall|j: int| 1 <= j < b.len() ==> b[j] == b.drop_first()[j - 1]);
        assert(a =~= b);
    }
}

/// Relates the order on two sequences to the order on their tails once a
/// common prefix of length `i` is stripped.
proof fn lemma_le_bytes_skip(a: Seq<u8>, b: Seq<u8>, i: int)
    requires
        0 <= i <= a.len(),
        i <= b.len(),
        forall|j: int| 0 <= j < i ==> a[j] == b[j],
    ensures
        le_bytes(a, b) == le_bytes(a.skip(i), b.skip(i)),
    decreases i,
{
    if i == 0 {
        assert(a.skip(0) =~= a);
        assert(b.skip(0) =~= b);
    } else {
        assert(a.drop_first().skip(i - 1) =~= a.skip(i));
        assert(b.drop_first().skip(i - 1) =~= b.skip(i));
        lemma_le_bytes_skip(a.drop_first(), b.drop_first(), i - 1);
    }
}

/// Decides `le_bytes` on two 32-byte digests.
fn le_digest(a: &[u8; 32], b: &[u8; 32]) -> (r: bool)
    ensures
        r == le_bytes(a@, b@),
{
    let mut i: usize = 0;
    while i < 32
        invariant
            0 <= i <= 32,
            forall|j: int| 0 <= j < i ==> a@[j] == b@[j],
        decreases 32 - i,
    {
        if a[i] < b[i] {
            proof {
                lemma_le_bytes_skip(a@, b@, i as int);
            }
            return true;
        }
        if a[i] > b[i] {
            proof {
                lemma_le_bytes_skip(a@, b@, i as int);
            }
            return false;
        }
        i = i + 1;
    }
    proof {
        lemma_le_bytes_skip(a@, b@, 32);
    }
    true
}

/// Decides equality of two 32-byte digests.
pub(crate) fn eq_digest(a: &[u8; 32], b: &[u8; 32]) -> (r: bool)
    ensures
        r == (a@ == b@),
{
    let mut i: usize = 0;
    while i < 32
        invariant
            0 <= i <= 32,
            forall|j: int| 0 <= j < i ==> a@[j] == b@[j],
        decreases 32 - i,
    {
        if a[i] != b[i] {
            assert(a@[i as int] != b@[i as int]);
            return false;
        }
        i = i + 1;
    }
    assert(a@ =~= b@);
    true
}

/// The digest of an internal tree node: the two child digests are hashed in
/// canonical order, the lexicographically smaller one first, so that the
/// combination does not depend on which child stood left and which right.
pub open spec fn node_hash(a: Seq<u8>, b: Seq<u8>) -> Seq<u8> {
    if le_bytes(a, b) {
        sha256_of(a + b)
    } else {
        sha256_of(b + a)
    }
}

pub proof fn lemma_node_hash_symmetric(a: Seq<u8>, b: Seq<u8>)
    ensures
        node_hash(a, b) == node_hash(b, a),
{
    lemma_le_bytes_total(a, b);
    if le_bytes(a, b) && le_bytes(b, a) {
        lemma_le_bytes_antisymmetric(a, b);
    }
}

/// Hashes a pair of digests in canonical order.
pub(crate) fn hash_pair(a: &[u8; 32], b: &[u8; 32]) -> (r: [u8; 32])
    ensures
        r@ == node_hash(a@, b@),
{
    if le_digest(a, b) {
        sha256_concat(a.as_slice(), b.as_slice())
    } else {
        sha256_concat(b.as_slice(), a.as_slice())
    }
}

/// The views of a sequence of 32-byte digests.
pub open spec fn digests_of(s: Seq<[u8; 32]>) -> Seq<Seq<u8>> {
    Seq::new(s.len(), |i: int| s[i]@)
}

/// Folds a proof into the digest it reconstructs: starting from the leaf,
/// each sibling digest is combined in canonical order.
pub open spec fn merkle_fold(leaf: Seq<u8>, siblings: Seq<Seq<u8>>) -> Seq<u8>
    decreases siblings.len(),
{
    if siblings.len() == 0 {
        leaf
    } else {
        merkle_fold(node_hash(leaf, siblings[0]), siblings.drop_first())
    }
}

/// A proof is valid for a root and a leaf exactly when folding the proof
/// over the leaf reconstructs the root.
pub open spec fn merkle_verifies(siblings: Seq<Seq<u8>>, root: Seq<u8>, leaf: Seq<u8>) -> bool {
    merkle_fold(leaf, siblings) == root
}

/// The 8 little-endian bytes of a 64-bit amount.
pub open spec fn u64_le_bytes(x: u64) -> Seq<u8> {
    Seq::new(8, |i: int| (((x >> ((8 * i) as u64)) & 0xff) as u8))
}

/// The bytes a leaf commits to: the recipient identity bytes followed by
/// the ceiling amount in little-endian order, with no domain prefix.
pub open spec fn leaf_bytes(claimant: Seq<u8>, amount: u64) -> Seq<u8> {
    claimant + u64_le_bytes(amount)
}

/// The digest of the leaf for a (recipient, ceiling) pair.
pub open spec fn leaf_digest(claimant: Seq<u8>, amount: u64) -> Seq<u8> {
    sha256_of(leaf_bytes(claimant, amount))
}

/// Hashes the leaf for a (recipient, ceiling) pair.
pub fn hash_leaf(claimant: &[u8; 32], amount: u64) -> (r: [u8; 32])
    ensures
        r@ == leaf_digest(claimant@, amount),
{
    let mut amount_bytes: Vec<u8> = Vec::new();
    amount_bytes.push(((amount >> 0u64) & 0xff) as u8);
    amount_bytes.push(((amount >> 8u64) & 0xff) as u8);
    amount_bytes.push(((amount >> 16u64) & 0xff) as u8);
    amount_bytes.push(((amount >> 24u64) & 0xff) as u8);
    amount_bytes.push(((amount >> 32u64) & 0xff) as u8);
    amount_bytes.push(((amount >> 40u64) & 0xff) as u8);
    amount_bytes.push(((amount >> 48u64) & 0xff) as u8);
    amount_bytes.push(((amount >> 56u64) & 0xff) as u8);
    proof {
        assert(amount_bytes@ =~= u64_le_bytes(amount));
    }
    sha256_concat(claimant.as_slice(), amount_bytes.as_slice())
}

/// One level up the tree: adjacent digests are paired and combined in
/// canonical order; an odd trailing digest is paired with itself.
pub open spec fn parent_level(lv: Seq<Seq<u8>>) -> Seq<Seq<u8>> {
    Seq::new((lv.len() + 1) / 2, |i: int|
        if 2 * i + 1 < lv.len() {
            node_hash(lv[2 * i], lv[2 * i + 1])
        } else {
            node_hash(lv[2 * i], lv[2 * i])
        })
}

/// The root digest a list of leaf digests commits to: levels are combined
/// pairwise until one digest is left. An empty list has no root; the empty
/// sequence stands in for it.
pub open spec fn root_of(lv: Seq<Seq<u8>>) -> Seq<u8>
    decreases lv.len(),
{
    if lv.len() == 0 {
        Seq::empty()
    } else if lv.len() == 1 {
        lv[0]
    } else {
        root_of(parent_level(lv))
    }
}

/// The sibling combined with the node at `idx` of one level: the right
/// neighbour of a left child, the node itself when it has no right
/// neighbour, and the left neighbour of a right child.
pub open spec fn sibling_at(lv: Seq<Seq<u8>>, idx: int) -> Seq<u8> {
    if idx % 2 == 0 {
        if idx + 1 < lv.len() {
            lv[idx + 1]
        } else {
            lv[idx]
        }
    } else {
        lv[idx - 1]
    }
}

/// The ordered sibling digests that prove membership of the leaf at `idx`.
pub open spec fn proof_of(lv: Seq<Seq<u8>>, idx: int) -> Seq<Seq<u8>>
    decreases lv.len(),
{
    if lv.len() <= 1 {
        Seq::empty()
    } else {
        seq![sibling_at(lv, idx)] + proof_of(parent_level(lv), idx / 2)
    }
}

/// Completeness of proof checking: for every list of leaf digests and
/// every leaf in it, the ordered siblings that `proof_of` collects verify
/// against the root the list commits to. Together with the contracts of
/// `SimpleMerkleTree::get_proof`, `get_root` and `verify`, this says that
/// every (recipient, ceiling) pair consistent with a published root is
/// accepted by the verifier.
pub proof fn lemma_proof_of_verifies(lv: Seq<Seq<u8>>, idx: int)
    requires
        1 <= lv.len(),
        0 <= idx < lv.len(),
    ensures
        merkle_verifies(proof_of(lv, idx), root_of(lv), lv[idx]),
    decreases lv.len(),
{
    if lv.len() == 1 {
        assert(proof_of(lv, idx) =~= Seq::<Seq<u8>>::empty());
    } else {
        let p = parent_level(lv);
        let sib = sibling_at(lv, idx);
        let rest = proof_of(p, idx / 2);
        if idx % 2 == 0 {
            assert(2 * (idx / 2) == idx);
            assert(node_hash(lv[idx], sib) == p[idx / 2]);
        } else {
            assert(2 * (idx / 2) == idx - 1);
            lemma_node_hash_symmetric(lv[idx], lv[idx - 1]);
            assert(node_hash(lv[idx], sib) == p[idx / 2]);
        }
        lemma_proof_of_verifies(p, idx / 2);
        assert((seq![sib] + rest).drop_first() =~= rest);
        assert((seq![sib] + rest)[0] == sib);
        assert(merkle_fold(lv[idx], proof_of(lv, idx))
            == merkle_fold(node_hash(lv[idx], sib), rest));
    }
}

/// A single-leaf tree: its proof is empty and the leaf itself is the root,
/// against which the empty proof verifies.
pub proof fn lemma_single_leaf(lv: Seq<Seq<u8>>)
    requires
        lv.len() == 1,
    ensures
        proof_of(lv, 0) == Seq::<Seq<u8>>::empty(),
        root_of(lv) == lv[0],
        merkle_verifies(proof_of(lv, 0), root_of(lv), lv[0]),
{
    assert(proof_of(lv, 0) =~= Seq::<Seq<u8>>::empty());
}

/// Checks a Merkle membership proof: folds the ordered sibling digests over
/// the leaf, combining each pair in canonical order, and compares the result
/// with the root. An empty proof is valid exactly when the leaf is the root.
pub fn verify(proof_nodes: Vec<[u8; 32]>, root: [u8; 32], leaf: [u8; 32]) -> (r: bool)
    ensures
        r == merkle_verifies(digests_of(proof_nodes@), root@, leaf@),
{
    let ghost all = digests_of(proof_nodes@);
    proof {
        assert(all.skip(0) =~= all);
    }
    let mut computed = leaf;
    let n = proof_nodes.len();
    let mut i: usize = 0;
    while i < n
        invariant
            0 <= i <= n,
            n == proof_nodes.len(),
            all == digests_of(proof_nodes@),
            merkle_fold(leaf@, all) == merkle_fold(computed@, all.skip(i as int)),
        decreases n - i,
    {
        let sibling = proof_nodes[i];
        proof {
            assert(all.skip(i as int)[0] == proof_nodes@[i as int]@);
            assert(all.skip(i as int).drop_first() =~= all.skip(i + 1));
        }
        computed = hash_pair(&computed, &sibling);
        i = i + 1;
    }
    proof {
        assert(all.skip(n as int) =~= Seq::<Seq<u8>>::empty());
    }
    eq_digest(&computed, &root)
}

} // verus!
