//! The binary Merkle tree over the accumulator's leaves.
//!
//! A leaf is the hash of a commitment followed by 32 zero bytes; an inner node
//! is the hash of its two children. The leaves are padded on the right with
//! all-zero leaves up to the next power of two, and each level is paired and
//! hashed until one node is left. The root of no leaves is all zero.

use vstd::prelude::*;
use crate::bytes::{concat32, lemma_views_push, views, zero_hash, zeros};
use crate::hashing::{blake2_256, blake2b256_digest};

verus! {

/// The inner node above `left` and `right`.
pub open spec fn node_hash(left: Seq<u8>, right: Seq<u8>) -> Seq<u8> {
    blake2b256_digest(left + right)
}

/// The leaf that stands for `commitment`.
pub open spec fn leaf_digest(commitment: Seq<u8>) -> Seq<u8> {
    blake2b256_digest(commitment + zeros(32))
}

/// The first of `p`, `2p`, `4p`, … that is at least `n`.
pub open spec fn pow2_at_least(p: nat, n: nat) -> nat
    decreases
            (if n > p {
                n - p
            } else {
                0
            }),
{
    if p >= n || p == 0 {
        p
    } else {
        pow2_at_least(2 * p, n)
    }
}

/// The smallest power of two that is at least `n`.
pub open spec fn next_power_of_two(n: nat) -> nat {
    pow2_at_least(1, n)
}

/// `leaves`, padded on the right with zero leaves up to a power of two.
pub open spec fn pad_leaves(leaves: Seq<Seq<u8>>) -> Seq<Seq<u8>> {
    leaves + Seq::new(
        (next_power_of_two(leaves.len()) - leaves.len()) as nat,
        |i: int| zeros(32),
    )
}

/// The right-hand neighbour of `level[i]`, or the zero node past the end.
pub open spec fn node_or_zero(level: Seq<Seq<u8>>, i: int) -> Seq<u8> {
    if i < level.len() {
        level[i]
    } else {
        zeros(32)
    }
}

/// The level above `level`: node `i` is the hash of nodes `2i` and `2i + 1`,
/// a missing right child being the zero node.
pub open spec fn level_up(level: Seq<Seq<u8>>) -> Seq<Seq<u8>> {
    Seq::new(
        ((level.len() + 1) / 2) as nat,
        |i: int| node_hash(level[2 * i], node_or_zero(level, 2 * i + 1)),
    )
}

/// The single node that `level` reduces to.
pub open spec fn fold_levels(level: Seq<Seq<u8>>) -> Seq<u8>
    decreases level.len(),
{
    if level.len() == 0 {
        zeros(32)
    } else if level.len() == 1 {
        level[0]
    } else {
        fold_levels(level_up(level))
    }
}

/// The Merkle root of `leaves`.
pub open spec fn merkle_root(leaves: Seq<Seq<u8>>) -> Seq<u8> {
    if leaves.len() == 0 {
        zeros(32)
    } else {
        fold_levels(pad_leaves(leaves))
    }
}

/// The node that `node` at position `index` combines into with `sibling`:
/// an even position is the left child, an odd one the right child.
pub open spec fn path_step(node: Seq<u8>, index: nat, sibling: Seq<u8>) -> Seq<u8> {
    if index % 2 == 0 {
        node_hash(node, sibling)
    } else {
        node_hash(sibling, node)
    }
}

/// The node reached from `node` at position `index` by combining it with the
/// siblings of `path`, lowest level first.
pub open spec fn path_root(node: Seq<u8>, index: nat, path: Seq<Seq<u8>>) -> Seq<u8>
    decreases path.len(),
{
    if path.len() == 0 {
        node
    } else {
        path_root(path_step(node, index, path[0]), index / 2, path.drop_first())
    }
}

/// The sibling of position `index` in `level`.
pub open spec fn sibling(level: Seq<Seq<u8>>, index: nat) -> Seq<u8> {
    if index % 2 == 0 {
        node_or_zero(level, index as int + 1)
    } else {
        level[index - 1]
    }
}

/// The siblings of position `index` at `level` and at every level above it.
pub open spec fn merkle_path_from(level: Seq<Seq<u8>>, index: nat) -> Seq<Seq<u8>>
    decreases level.len(),
{
    if level.len() <= 1 {
        Seq::empty()
    } else {
        seq![sibling(level, index)] + merkle_path_from(level_up(level), index / 2)
    }
}

/// The Merkle path of leaf `index` in the tree over `leaves`.
pub open spec fn merkle_path(leaves: Seq<Seq<u8>>, index: nat) -> Seq<Seq<u8>> {
    merkle_path_from(pad_leaves(leaves), index)
}

/// Hashes two children into their parent.
pub fn hash2(left: [u8; 32], right: [u8; 32]) -> (h: [u8; 32])
    ensures
        h@ == node_hash(left@, right@),
{
    let data = concat32(&left, &right);
    blake2_256(data.as_slice())
}

/// Hashes a commitment into its leaf.
pub fn leaf_hash(commitment: [u8; 32]) -> (h: [u8; 32])
    ensures
        h@ == leaf_digest(commitment@),
{
    let zero = zero_hash();
    let data = concat32(&commitment, &zero);
    blake2_256(data.as_slice())
}

/// The smallest power of two that is at least `n`.
pub fn next_power_of_two_of(n: usize) -> (p: u128)
    ensures
        p == next_power_of_two(n as nat),
        p >= n,
        p >= 1,
{
    let mut target: u128 = 1;
    while target < n as u128
        invariant
            1 <= target,
            target == 1 || target < 2 * n,
            pow2_at_least(target as nat, n as nat) == next_power_of_two(n as nat),
        decreases 2 * n - target,
    {
        target = target * 2;
    }
    target
}

/// One level of the tree computed from the level below it.
fn hash_level(cur: &Vec<[u8; 32]>) -> (next: Vec<[u8; 32]>)
    ensures
        views(next@) == level_up(views(cur@)),
        next@.len() == (cur@.len() + 1) / 2,
{
    let zero = zero_hash();
    let len = cur.len();
    let half = len / 2 + len % 2;
    let mut next: Vec<[u8; 32]> = Vec::new();
    let mut j: usize = 0;
    while j < half
        invariant
            len == cur@.len(),
            half == (len + 1) / 2,
            zero@ == zeros(32),
            j <= half,
            next@.len() == j,
            forall|k: int| 0 <= k < j ==> next@[k]@ == #[trigger] level_up(views(cur@))[k],
        decreases half - j,
    {
        let a = cur[2 * j];
        let b = if 2 * j + 1 < len {
            cur[2 * j + 1]
        } else {
            zero
        };
        let h = hash2(a, b);
        next.push(h);
        j += 1;
    }
    assert(views(next@) =~= level_up(views(cur@)));
    next
}

/// The Merkle root of `leaves`.
pub fn compute_merkle_root(leaves: &[[u8; 32]]) -> (root: [u8; 32])
    ensures
        root@ == merkle_root(views(leaves@)),
{
    let n = leaves.len();
    if n == 0 {
        return zero_hash();
    }
    let zero = zero_hash();
    let target = next_power_of_two_of(n);
    let mut cur: Vec<[u8; 32]> = Vec::new();
    let mut i: usize = 0;
    while i < n
        invariant
            n == leaves@.len(),
            i <= n,
            cur@ == leaves@.subrange(0, i as int),
        decreases n - i,
    {
        cur.push(leaves[i]);
        assert(leaves@.subrange(0, i + 1) =~= leaves@.subrange(0, i as int).push(leaves@[i as int]));
        i += 1;
    }
    assert(cur@ =~= leaves@);
    while (cur.len() as u128) < target
        invariant
            n == leaves@.len(),
            n <= cur@.len() <= target,
            zero@ == zeros(32),
            views(cur@) == views(leaves@) + Seq::new(
                (cur@.len() - n) as nat,
                |i: int| zeros(32),
            ),
        decreases target - cur@.len(),
    {
        let ghost before = cur@;
        cur.push(zero);
        proof {
            lemma_views_push(before, zero);
            assert(views(cur@) =~= views(leaves@) + Seq::new(
                (cur@.len() - n) as nat,
                |i: int| zeros(32),
            ));
        }
    }
    assert(views(cur@) == pad_leaves(views(leaves@)));
    while cur.len() > 1
        invariant
            cur@.len() >= 1,
            fold_levels(views(cur@)) == merkle_root(views(leaves@)),
        decreases cur@.len(),
    {
        let next = hash_level(&cur);
        cur = next;
    }
    cur[0]
}

/// The node reached from `leaf` at position `index` along `path`.
pub fn compute_path_root(leaf: [u8; 32], index: u32, path: &Vec<[u8; 32]>) -> (root: [u8; 32])
    ensures
        root@ == path_root(leaf@, index as nat, views(path@)),
{
    let mut node = leaf;
    let mut idx = index;
    let mut k: usize = 0;
    assert(views(path@).subrange(0, path@.len() as int) =~= views(path@));
    while k < path.len()
        invariant
            k <= path@.len(),
            path_root(node@, idx as nat, views(path@).subrange(k as int, path@.len() as int))
                == path_root(leaf@, index as nat, views(path@)),
        decreases path@.len() - k,
    {
        let ghost rest = views(path@).subrange(k as int, path@.len() as int);
        assert(rest.drop_first() =~= views(path@).subrange(k + 1, path@.len() as int));
        assert(rest[0] == path@[k as int]@);
        let sib = path[k];
        if idx % 2 == 0 {
            node = hash2(node, sib);
        } else {
            node = hash2(sib, node);
        }
        idx = idx / 2;
        k += 1;
    }
    node
}

/// Padding is stable: between a length and its next power of two, every
/// length pads to the same power of two.
pub proof fn lemma_pow2_at_least_stable(p: nat, n: nat, m: nat)
    requires
        p >= 1,
        n <= m <= pow2_at_least(p, n),
    ensures
        pow2_at_least(p, m) == pow2_at_least(p, n),
    decreases
            (if n > p {
                n - p
            } else {
                0
            }),
{
    if p >= n {
    } else {
        lemma_pow2_at_least_stable(2 * p, n, m);
    }
}

proof fn lemma_pow2_at_least_bounds(p: nat, n: nat)
    requires
        p >= 1,
    ensures
        pow2_at_least(p, n) >= n,
        pow2_at_least(p, n) >= p,
    decreases
            (if n > p {
                n - p
            } else {
                0
            }),
{
    if p >= n {
    } else {
        lemma_pow2_at_least_bounds(2 * p, n);
    }
}

/// The padded length is at least the number of leaves.
pub proof fn lemma_next_power_of_two_bounds(n: nat)
    ensures
        next_power_of_two(n) >= n,
        next_power_of_two(n) >= 1,
{
    lemma_pow2_at_least_bounds(1, n);
}

/// A leaf opens to the root: combining leaf `index` with the siblings on its
/// Merkle path, level by level, gives the root of the tree it stands in.
pub proof fn lemma_path_opens_level(level: Seq<Seq<u8>>, index: nat)
    requires
        index < level.len(),
    ensures
        path_root(level[index as int], index, merkle_path_from(level, index)) == fold_levels(level),
    decreases level.len(),
{
    if level.len() == 1 {
    } else {
        let up = level_up(level);
        let parent = index / 2;
        let path = merkle_path_from(level, index);
        assert(path[0] == sibling(level, index));
        assert(path.drop_first() =~= merkle_path_from(up, parent));
        assert(path_step(level[index as int], index, path[0]) == up[parent as int]);
        lemma_path_opens_level(up, parent);
    }
}

/// Every leaf of a non-empty tree opens to the tree's root along its path.
pub proof fn lemma_path_opens(leaves: Seq<Seq<u8>>, index: nat)
    requires
        index < leaves.len(),
    ensures
        path_root(leaves[index as int], index, merkle_path(leaves, index)) == merkle_root(leaves),
{
    lemma_next_power_of_two_bounds(leaves.len());
    let padded = pad_leaves(leaves);
    assert(padded[index as int] == leaves[index as int]);
    lemma_path_opens_level(padded, index);
}

/// Appending keeps what was there: every leaf keeps its index, and still
/// opens to the root of the longer tree.
pub proof fn lemma_append_keeps_leaves(leaves: Seq<Seq<u8>>, more: Seq<Seq<u8>>, index: nat)
    requires
        index < leaves.len(),
    ensures
        (leaves + more)[index as int] == leaves[index as int],
        path_root(leaves[index as int], index, merkle_path(leaves + more, index)) == merkle_root(
            leaves + more,
        ),
{
    lemma_path_opens(leaves + more, index);
}

/// The root does not change when zero leaves are appended within the padding:
/// the tree over the leaves and the tree over the leaves followed by up to
/// `next_power_of_two(len) - len` zero leaves are the same tree.
pub proof fn lemma_root_ignores_zero_padding(leaves: Seq<Seq<u8>>, k: nat)
    requires
        leaves.len() > 0,
        leaves.len() + k <= next_power_of_two(leaves.len()),
    ensures
        merkle_root(leaves + Seq::new(k, |i: int| zeros(32))) == merkle_root(leaves),
{
    let longer = leaves + Seq::new(k, |i: int| zeros(32));
    lemma_pow2_at_least_stable(1, leaves.len(), longer.len());
    assert(pad_leaves(longer) =~= pad_leaves(leaves));
}

} // verus!
