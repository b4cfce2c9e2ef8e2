use vstd::prelude::*;

use crate::merkle::digests_of;
use crate::merkle::hash_leaf;
use crate::merkle::hash_pair;
use crate::merkle::leaf_digest;
use crate::merkle::node_hash;
use crate::merkle::parent_level;
use crate::merkle::proof_of;
use crate::merkle::root_of;
use crate::merkle::sibling_at;

verus! {

/// One eligibility entry: a recipient identity and the ceiling amount the
/// tree commits to for that recipient.
#[derive(Clone, Copy, Debug)]
pub struct TreeNode {
    pub claimant: [u8; 32],
    pub amount: u64,
}

/// The leaf digests of a list of entries, in order.
pub open spec fn leaf_digests_of(entries: Seq<TreeNode>) -> Seq<Seq<u8>> {
    Seq::new(entries.len(), |i: int| leaf_digest(entries[i].claimant@, entries[i].amount))
}

/// The length of the level above a level of `n` nodes: half of `n` rounded
/// up, and zero once a level holds the single root.
pub open spec fn next_len(n: nat) -> nat {
    if n == 1 {
        0
    } else {
        (n + 1) / 2
    }
}

/// `nodes` holds the level `lv` followed by the levels above it, each the
/// pairwise combination of the one before, ending with a single root digest.
pub open spec fn wf_levels(nodes: Seq<Seq<u8>>, lv: Seq<Seq<u8>>) -> bool
    decreases lv.len(),
{
    if lv.len() == 0 {
        nodes.len() == 0
    } else if lv.len() == 1 {
        nodes == lv
    } else {
        &&& nodes.len() >= lv.len()
        &&& nodes.subrange(0, lv.len() as int) == lv
        &&& wf_levels(nodes.skip(lv.len() as int), parent_level(lv))
    }
}

proof fn lemma_wf_levels_len(nodes: Seq<Seq<u8>>, lv: Seq<Seq<u8>>)
    requires
        wf_levels(nodes, lv),
    ensures
        nodes.len() >= lv.len(),
{
}

/// Unfolds one step of `wf_levels`: the level sits at the front of the node
/// list, and the rest of the list is well-formed over the level above.
proof fn lemma_wf_levels_parts(nodes: Seq<Seq<u8>>, lv: Seq<Seq<u8>>)
    requires
        wf_levels(nodes, lv),
        lv.len() >= 1,
    ensures
        nodes.len() >= lv.len(),
        nodes.subrange(0, lv.len() as int) == lv,
        lv.len() >= 2 ==> wf_levels(nodes.skip(lv.len() as int), parent_level(lv)),
{
    if lv.len() == 1 {
        assert(nodes == lv);
        assert(nodes.subrange(0, 1) =~= nodes);
    }
}

/// In a well-formed node list, the last node is the root of the level it
/// was built from.
proof fn lemma_wf_levels_root(nodes: Seq<Seq<u8>>, lv: Seq<Seq<u8>>)
    requires
        wf_levels(nodes, lv),
        lv.len() >= 1,
    ensures
        nodes.len() >= 1,
        nodes.last() == root_of(lv),
    decreases lv.len(),
{
    if lv.len() == 1 {
    } else {
        let rest = nodes.skip(lv.len() as int);
        lemma_wf_levels_root(rest, parent_level(lv));
        assert(rest.last() == nodes.last());
    }
}

/// `nodes` holds the level `l0` followed by the combined levels down to the
/// level `lv` inclusive, with nothing after it yet.
spec fn wf_partial(nodes: Seq<Seq<u8>>, l0: Seq<Seq<u8>>, lv: Seq<Seq<u8>>) -> bool
    decreases nodes.len(),
{
    if l0 == lv {
        nodes == l0
    } else {
        &&& l0.len() >= 2
        &&& nodes.len() > l0.len()
        &&& nodes.subrange(0, l0.len() as int) == l0
        &&& wf_partial(nodes.skip(l0.len() as int), parent_level(l0), lv)
    }
}

/// A partial build never reaches a level longer than the one it started
/// from.
proof fn lemma_wf_partial_len(nodes: Seq<Seq<u8>>, l0: Seq<Seq<u8>>, lv: Seq<Seq<u8>>)
    requires
        wf_partial(nodes, l0, lv),
    ensures
        lv.len() <= l0.len(),
        l0 != lv ==> lv.len() < l0.len(),
    decreases nodes.len(),
{
    if l0 == lv {
    } else {
        lemma_wf_partial_len(nodes.skip(l0.len() as int), parent_level(l0), lv);
        assert(parent_level(l0).len() < l0.len());
    }
}

/// Appending the next combined level extends a partial build by one level.
proof fn lemma_wf_partial_step(nodes: Seq<Seq<u8>>, l0: Seq<Seq<u8>>, lv: Seq<Seq<u8>>)
    requires
        wf_partial(nodes, l0, lv),
        lv.len() >= 2,
    ensures
        wf_partial(nodes + parent_level(lv), l0, parent_level(lv)),
    decreases nodes.len(),
{
    let p = parent_level(lv);
    let grown = nodes + p;
    assert(p.len() == (lv.len() + 1) / 2);
    assert(p.len() < lv.len());
    lemma_wf_partial_len(nodes, l0, lv);
    assert(p.len() < l0.len());
    assert(l0 != p);
    if l0 == lv {
        assert(grown.subrange(0, l0.len() as int) =~= l0);
        assert(grown.skip(l0.len() as int) =~= p);
        assert(wf_partial(p, p, p));
    } else {
        lemma_wf_partial_step(nodes.skip(l0.len() as int), parent_level(l0), lv);
        assert(grown.subrange(0, l0.len() as int) =~= l0);
        assert(grown.skip(l0.len() as int) =~= nodes.skip(l0.len() as int) + p);
    }
}

/// A partial build that has reached a single-node level is complete.
proof fn lemma_wf_partial_finish(nodes: Seq<Seq<u8>>, l0: Seq<Seq<u8>>, lv: Seq<Seq<u8>>)
    requires
        wf_partial(nodes, l0, lv),
        lv.len() == 1,
    ensures
        wf_levels(nodes, l0),
    decreases nodes.len(),
{
    if l0 == lv {
    } else {
        lemma_wf_partial_finish(nodes.skip(l0.len() as int), parent_level(l0), lv);
    }
}

/// A Merkle tree stored level by level in one flat node list: the leaf
/// digests first, then each combined level, ending with the root.
pub struct SimpleMerkleTree {
    nodes: Vec<[u8; 32]>,
    leaf_count: usize,
}

impl SimpleMerkleTree {
    /// The digests of every stored node, level by level.
    pub closed spec fn stored_digests(&self) -> Seq<Seq<u8>> {
        digests_of(self.nodes@)
    }

    /// The leaf digests the tree was built over.
    pub closed spec fn leaves(&self) -> Seq<Seq<u8>> {
        digests_of(self.nodes@).subrange(0, self.leaf_count as int)
    }

    pub closed spec fn spec_leaf_count(&self) -> nat {
        self.leaf_count as nat
    }

    /// The node list holds the leaf level followed by each combined level.
    pub closed spec fn well_formed(&self) -> bool {
        &&& self.leaf_count <= self.nodes@.len()
        &&& wf_levels(digests_of(self.nodes@), self.leaves())
    }

    /// Builds a tree over the given entries: their leaf digests in order,
    /// then every combined level up to the root.
    pub fn new(tree_nodes: Vec<TreeNode>) -> (tree: Self)
        ensures
            tree.well_formed(),
            tree.spec_leaf_count() == tree_nodes@.len(),
            tree.leaves() == leaf_digests_of(tree_nodes@),
    {
        let leaf_count = tree_nodes.len();
        let mut nodes: Vec<[u8; 32]> = Vec::new();

        let mut i: usize = 0;
        while i < leaf_count
            invariant
                0 <= i <= leaf_count,
                leaf_count == tree_nodes@.len(),
                nodes@.len() == i,
                digests_of(nodes@) == leaf_digests_of(tree_nodes@).subrange(0, i as int),
            decreases leaf_count - i,
        {
            let entry = tree_nodes[i];
            let leaf_hash = hash_leaf(&entry.claimant, entry.amount);
            nodes.push(leaf_hash);
            proof {
                assert(digests_of(nodes@) =~= leaf_digests_of(tree_nodes@).subrange(
                    0,
                    i + 1,
                ));
            }
            i = i + 1;
        }
        proof {
            assert(leaf_digests_of(tree_nodes@).subrange(0, leaf_count as int)
                =~= leaf_digests_of(tree_nodes@));
        }

        let mut tree = SimpleMerkleTree { nodes, leaf_count };
        tree.build_tree();
        tree
    }

    /// Extends the leaf level already stored in `nodes` with every combined
    /// level, ending with the root digest.
    pub fn build_tree(&mut self)
        requires
            old(self).stored_digests().len() == old(self).spec_leaf_count(),
        ensures
            final(self).spec_leaf_count() == old(self).spec_leaf_count(),
            final(self).leaves() == old(self).stored_digests(),
            final(self).well_formed(),
    {
        let ghost l0 = digests_of(self.nodes@);
        let leaf_count = self.leaf_count;

        let mut level_len = self.next_level_len(leaf_count);
        let mut level_start = leaf_count;
        let mut prev_level_len = leaf_count;
        let mut prev_level_start: usize = 0;
        let ghost mut prev_lv = l0;

        proof {
            if leaf_count == 0 {
                assert(wf_levels(digests_of(self.nodes@), l0));
            }
            assert(digests_of(self.nodes@) =~= l0);
            assert(wf_partial(l0, l0, l0));
        }

        while level_len > 0
            invariant
                self.leaf_count == leaf_count,
                prev_level_len >= 1 || leaf_count == 0,
                l0.len() == leaf_count,
                prev_lv.len() == prev_level_len,
                prev_level_start + prev_level_len == self.nodes@.len(),
                level_start == self.nodes@.len(),
                leaf_count <= self.nodes@.len(),
                level_len == next_len(prev_level_len as nat),
                digests_of(self.nodes@).subrange(
                    prev_level_start as int,
                    prev_level_start + prev_level_len,
                ) == prev_lv,
                wf_partial(digests_of(self.nodes@), l0, prev_lv),
                digests_of(self.nodes@).subrange(0, leaf_count as int) == l0,
            decreases prev_level_len,
        {
            let ghost base = digests_of(self.nodes@);
            let ghost appended = parent_level(prev_lv);
            let base_len = self.nodes.len();
            assert(prev_level_len >= 2);
            assert(appended.len() == level_len);

            let mut i: usize = 0;
            while i < level_len
                invariant
                    0 <= i <= level_len,
                    self.leaf_count == leaf_count,
                    leaf_count <= base_len,
                    prev_lv.len() == prev_level_len,
                    2 * level_len <= prev_level_len + 1,
                    prev_level_start + prev_level_len == base_len,
                    base.len() == base_len,
                    appended == parent_level(prev_lv),
                    appended.len() == level_len,
                    base.subrange(prev_level_start as int, prev_level_start + prev_level_len)
                        == prev_lv,
                    digests_of(self.nodes@) == base + appended.subrange(0, i as int),
                    self.nodes@.len() == base_len + i,
                decreases level_len - i,
            {
                assert(2 * i + 1 <= prev_level_len);
                let prev_level_idx = 2 * i;
                let left_idx = prev_level_start + prev_level_idx;
                let right_idx = if prev_level_idx + 1 < prev_level_len {
                    left_idx + 1
                } else {
                    left_idx
                };
                proof {
                    assert(digests_of(self.nodes@)[left_idx as int]
                        == base[left_idx as int]);
                    assert(base[left_idx as int] == prev_lv[prev_level_idx as int]);
                    assert(digests_of(self.nodes@)[right_idx as int]
                        == base[right_idx as int]);
                }
                let left_sibling = self.nodes[left_idx];
                let right_sibling = self.nodes[right_idx];
                let hash_bytes = hash_pair(&left_sibling, &right_sibling);
                proof {
                    assert(hash_bytes@ == appended[i as int]);
                }
                let ghost before = self.nodes@;
                self.nodes.push(hash_bytes);
                proof {
                    assert(self.nodes@ == before.push(hash_bytes));
                    let target = base + appended.subrange(0, i + 1);
                    assert forall|j: int| 0 <= j < self.nodes@.len() implies digests_of(
                        self.nodes@,
                    )[j] == target[j] by {
                        if j < before.len() {
                            assert(self.nodes@[j] == before[j]);
                            assert(digests_of(before)[j] == before[j]@);
                        } else {
                            assert(self.nodes@[j] == hash_bytes);
                        }
                    }
                    assert(digests_of(self.nodes@) =~= target);
                }
                i = i + 1;
            }

            proof {
                assert(appended.subrange(0, level_len as int) =~= appended);
                lemma_wf_partial_step(base, l0, prev_lv);
                assert(digests_of(self.nodes@) == base + appended);
                assert(digests_of(self.nodes@).subrange(
                    level_start as int,
                    level_start + level_len,
                ) =~= appended);
                assert(digests_of(self.nodes@).subrange(0, leaf_count as int)
                    =~= base.subrange(0, leaf_count as int));
            }

            prev_level_start = level_start;
            prev_level_len = level_len;
            proof {
                prev_lv = appended;
            }
            level_start = self.nodes.len();
            level_len = self.next_level_len(level_len);
        }

        proof {
            if leaf_count == 0 {
                assert(prev_lv =~= l0);
                assert(digests_of(self.nodes@) =~= l0);
            } else {
                assert(prev_level_len == 1);
                lemma_wf_partial_finish(digests_of(self.nodes@), l0, prev_lv);
            }
            assert(final(self).leaves() =~= digests_of(old(self).nodes@));
        }
    }

    /// The length of the level above a level of `level_len` nodes.
    pub fn next_level_len(&self, level_len: usize) -> (r: usize)
        ensures
            r == next_len(level_len as nat),
    {
        if level_len == 1 {
            0
        } else {
            level_len / 2 + level_len % 2
        }
    }

    /// The root digest, stored last, or `None` for an empty tree.
    pub fn get_root(&self) -> (r: Option<[u8; 32]>)
        requires
            self.well_formed(),
        ensures
            match r {
                Some(root) => self.spec_leaf_count() > 0 && root@ == root_of(self.leaves()),
                None => self.spec_leaf_count() == 0,
            },
    {
        proof {
            if self.leaf_count > 0 {
                lemma_wf_levels_root(digests_of(self.nodes@), self.leaves());
            }
        }
        if self.nodes.is_empty() {
            proof {
                assert(self.leaves().len() == 0);
            }
            None
        } else {
            proof {
                if self.leaf_count == 0 {
                    assert(digests_of(self.nodes@).len() == 0);
                }
            }
            Some(self.nodes[self.nodes.len() - 1])
        }
    }

    /// The root digest as a byte vector, or an error for an empty tree.
    pub fn get_merkle_root(&self) -> (r: Result<Vec<u8>, &'static str>)
        requires
            self.well_formed(),
        ensures
            match r {
                Ok(bytes) => self.spec_leaf_count() > 0 && bytes@ == root_of(self.leaves()),
                Err(_) => self.spec_leaf_count() == 0,
            },
    {
        match self.get_root() {
            Some(root) => Ok(vstd::slice::slice_to_vec(root.as_slice())),
            None => Err("Cannot get merkle root from empty tree"),
        }
    }

    /// Collects the sibling digests that prove membership of the leaf at
    /// `index`, bottom level first, or an error when `index` is out of
    /// bounds.
    pub fn get_proof(&self, index: usize) -> (r: Result<Vec<[u8; 32]>, &'static str>)
        requires
            self.well_formed(),
        ensures
            match r {
                Ok(p) => index < self.spec_leaf_count() && digests_of(p@) == proof_of(
                    self.leaves(),
                    index as int,
                ),
                Err(_) => index >= self.spec_leaf_count(),
            },
    {
        if index >= self.leaf_count {
            return Err("Index out of bounds");
        }

        let mut result: Vec<[u8; 32]> = Vec::new();
        let mut current_index = index;
        let mut level_start: usize = 0;
        let mut level_len = self.leaf_count;
        let n_total = self.nodes.len();
        let ghost mut lv = self.leaves();

        proof {
            assert(digests_of(self.nodes@).skip(0) =~= digests_of(self.nodes@));
            assert(digests_of(self.nodes@).subrange(0, level_len as int) == lv);
            assert(digests_of(result@) + proof_of(self.leaves(), index as int)
                =~= proof_of(self.leaves(), index as int));
        }

        while level_len > 1
            invariant
                lv.len() == level_len,
                current_index < level_len,
                n_total == self.nodes@.len(),
                level_start + level_len <= n_total,
                digests_of(self.nodes@).subrange(
                    level_start as int,
                    level_start + level_len,
                ) == lv,
                wf_levels(digests_of(self.nodes@).skip(level_start as int), lv),
                proof_of(self.leaves(), index as int) == digests_of(result@) + proof_of(
                    lv,
                    current_index as int,
                ),
            decreases level_len,
        {
            let sibling_index = if current_index % 2 == 0 {
                if current_index + 1 < level_len {
                    current_index + 1
                } else {
                    current_index
                }
            } else {
                current_index - 1
            };

            let sibling_node = self.nodes[level_start + sibling_index];
            proof {
                assert(digests_of(self.nodes@)[level_start + sibling_index as int]
                    == lv[sibling_index as int]);
                assert(sibling_node@ == sibling_at(lv, current_index as int));
            }
            let ghost old_result = digests_of(result@);
            result.push(sibling_node);
            proof {
                assert(digests_of(result@) =~= old_result + seq![sibling_node@]);
            }

            let ghost rest = digests_of(self.nodes@).skip(level_start as int);
            let ghost p = parent_level(lv);
            proof {
                lemma_wf_levels_parts(rest, lv);
                let rest2 = rest.skip(lv.len() as int);
                assert(rest2 =~= digests_of(self.nodes@).skip(level_start + level_len));
                lemma_wf_levels_parts(rest2, p);
                assert(digests_of(self.nodes@).subrange(
                    level_start + level_len,
                    level_start + level_len + p.len(),
                ) =~= rest2.subrange(0, p.len() as int));
                assert(proof_of(lv, current_index as int) == seq![
                    sibling_at(lv, current_index as int),
                ] + proof_of(p, current_index as int / 2));
                assert(digests_of(result@) + proof_of(p, current_index as int / 2)
                    =~= old_result + proof_of(lv, current_index as int));
            }

            current_index = current_index / 2;
            level_start = level_start + level_len;
            level_len = self.next_level_len(level_len);
            proof {
                lv = p;
            }
        }

        proof {
            assert(lv.len() == 1);
            assert(proof_of(lv, current_index as int) =~= Seq::<Seq<u8>>::empty());
            assert(digests_of(result@) =~= digests_of(result@) + Seq::<Seq<u8>>::empty());
        }
        Ok(result)
    }
}

} // verus!
