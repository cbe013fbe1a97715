//! The append-only accumulator of leaves with its window of recent roots.

use vstd::prelude::*;
use crate::bytes::{hash_eq, lemma_views_push, views, zero_hash, zeros};
use crate::error::Error;
use crate::merkle::{compute_merkle_root, leaf_digest, leaf_hash, merkle_root};
use crate::store::KeyMap;

verus! {

/// The most leaves the accumulator holds.
pub const MAX_LEAVES: usize = 16384;

/// The most earlier roots that stay valid as anchors.
pub const ROOT_WINDOW: usize = 64;

/// What an accumulator holds.
pub struct AccumulatorState {
    /// The leaves in the order they were appended.
    pub leaves: Seq<Seq<u8>>,
    /// The root that anchors are built against now.
    pub current_root: Seq<u8>,
    /// Earlier roots that are still accepted, oldest first.
    pub recent_roots: Seq<Seq<u8>>,
    /// For each root that was ever current, the number of leaves it covered.
    pub root_leaf_count: Map<Seq<u8>, u32>,
}

impl AccumulatorState {
    /// The bounds that every accumulator keeps.
    pub open spec fn wf(self) -> bool {
        &&& self.leaves.len() <= MAX_LEAVES
        &&& self.recent_roots.len() <= ROOT_WINDOW
    }

    /// The accumulator at genesis: no leaves, the zero root, which covers no
    /// leaf, and no earlier roots.
    pub open spec fn genesis() -> AccumulatorState {
        AccumulatorState {
            leaves: Seq::empty(),
            current_root: zeros(32),
            recent_roots: Seq::empty(),
            root_leaf_count: Map::empty().insert(zeros(32), 0u32),
        }
    }

    /// Whether `root` may anchor a transaction: it is the current root or one
    /// of the recent ones.
    pub open spec fn anchor_is_valid(self, root: Seq<u8>) -> bool {
        root == self.current_root || self.recent_roots.contains(root)
    }

    /// The number of leaves that `root` covered; 0 for a root never seen.
    pub open spec fn leaf_count_at(self, root: Seq<u8>) -> u32 {
        if self.root_leaf_count.contains_key(root) {
            self.root_leaf_count[root]
        } else {
            0
        }
    }

    /// The state after the leaf of `commitment` is appended.
    pub open spec fn appended(self, commitment: Seq<u8>) -> AccumulatorState {
        AccumulatorState { leaves: self.leaves.push(leaf_digest(commitment)), ..self }
    }

    /// The state after each of `roots` became the current root in turn.
    pub open spec fn advanced_through(self, roots: Seq<Seq<u8>>) -> AccumulatorState
        decreases roots.len(),
    {
        if roots.len() == 0 {
            self
        } else {
            self.advanced_through(roots.drop_last()).advanced(roots.last())
        }
    }

    /// The state after `new_root` becomes the current root: the root it
    /// replaces enters the window, from which the oldest entry leaves when it
    /// is full, and `new_root` is recorded with the present number of leaves.
    pub open spec fn advanced(self, new_root: Seq<u8>) -> AccumulatorState {
        AccumulatorState {
            leaves: self.leaves,
            current_root: new_root,
            recent_roots: window_push(self.recent_roots, self.current_root),
            root_leaf_count: self.root_leaf_count.insert(new_root, self.leaves.len() as u32),
        }
    }
}

/// The window after `root` enters it.
pub open spec fn window_push(window: Seq<Seq<u8>>, root: Seq<u8>) -> Seq<Seq<u8>> {
    if window.len() >= ROOT_WINDOW {
        window.subrange(1, window.len() as int).push(root)
    } else {
        window.push(root)
    }
}

/// The accumulator.
pub struct Accumulator {
    leaves: Vec<[u8; 32]>,
    current_root: [u8; 32],
    recent_roots: Vec<[u8; 32]>,
    root_leaf_count: KeyMap<u32>,
}

impl View for Accumulator {
    type V = AccumulatorState;

    closed spec fn view(&self) -> AccumulatorState {
        AccumulatorState {
            leaves: views(self.leaves@),
            current_root: self.current_root@,
            recent_roots: views(self.recent_roots@),
            root_leaf_count: self.root_leaf_count@,
        }
    }
}

impl Accumulator {
    /// The accumulator at genesis.
    pub fn new() -> (acc: Self)
        ensures
            acc@ == AccumulatorState::genesis(),
            acc@.wf(),
    {
        let mut counts: KeyMap<u32> = KeyMap::new();
        counts.insert(zero_hash(), 0);
        let acc = Accumulator {
            leaves: Vec::new(),
            current_root: zero_hash(),
            recent_roots: Vec::new(),
            root_leaf_count: counts,
        };
        assert(views(acc.leaves@) =~= Seq::empty());
        assert(views(acc.recent_roots@) =~= Seq::empty());
        acc
    }

    /// The accumulator that holds the given parts.
    pub fn from_parts(
        leaves: Vec<[u8; 32]>,
        current_root: [u8; 32],
        recent_roots: Vec<[u8; 32]>,
        root_leaf_count: KeyMap<u32>,
    ) -> (acc: Self)
        ensures
            acc@ == (AccumulatorState {
                leaves: views(leaves@),
                current_root: current_root@,
                recent_roots: views(recent_roots@),
                root_leaf_count: root_leaf_count@,
            }),
    {
        Accumulator { leaves, current_root, recent_roots, root_leaf_count }
    }

    /// The leaf counts recorded for the roots.
    pub fn root_leaf_counts(&self) -> (counts: &KeyMap<u32>)
        ensures
            counts@ == self@.root_leaf_count,
    {
        &self.root_leaf_count
    }

    /// The number of leaves.
    pub fn len(&self) -> (n: usize)
        ensures
            n == self@.leaves.len(),
    {
        self.leaves.len()
    }

    /// The leaves in the order they were appended.
    pub fn leaves(&self) -> (leaves: &Vec<[u8; 32]>)
        ensures
            views(leaves@) == self@.leaves,
    {
        &self.leaves
    }

    /// The current root.
    pub fn current_root(&self) -> (root: [u8; 32])
        ensures
            root@ == self@.current_root,
    {
        self.current_root
    }

    /// The earlier roots that are still accepted, oldest first.
    pub fn recent_roots(&self) -> (roots: &Vec<[u8; 32]>)
        ensures
            views(roots@) == self@.recent_roots,
    {
        &self.recent_roots
    }

    /// The number of leaves that `root` covered; 0 for a root never seen.
    pub fn leaf_count_at(&self, root: &[u8; 32]) -> (count: u32)
        ensures
            count == self@.leaf_count_at(root@),
    {
        match self.root_leaf_count.get(root) {
            Some(count) => count,
            None => 0,
        }
    }

    /// Appends the leaf of `commitment` and returns its index.
    ///
    /// Fails, and changes nothing, when the accumulator is full. The root is
    /// not recomputed here: a batch of appends is followed by one
    /// [`Accumulator::advance_root`].
    pub fn append(&mut self, commitment: [u8; 32]) -> (r: Result<u32, Error>)
        requires
            old(self)@.wf(),
        ensures
            final(self)@.wf(),
            old(self)@.leaves.len() >= MAX_LEAVES ==> r == Err::<u32, Error>(
                Error::CapacityExceeded,
            ) && final(self)@ == old(self)@,
            old(self)@.leaves.len() < MAX_LEAVES ==> r == Ok::<u32, Error>(
                old(self)@.leaves.len() as u32,
            ) && final(self)@ == old(self)@.appended(commitment@),
    {
        if self.leaves.len() >= MAX_LEAVES {
            return Err(Error::CapacityExceeded);
        }
        let index = self.leaves.len() as u32;
        let leaf = leaf_hash(commitment);
        let ghost before = self.leaves@;
        self.leaves.push(leaf);
        proof {
            lemma_views_push(before, leaf);
        }
        Ok(index)
    }

    /// The Merkle root of the leaves held now.
    pub fn compute_root(&self) -> (root: [u8; 32])
        ensures
            root@ == merkle_root(self@.leaves),
    {
        compute_merkle_root(self.leaves.as_slice())
    }

    /// Makes `new_root` the current root.
    pub fn advance_root(&mut self, new_root: [u8; 32])
        requires
            old(self)@.wf(),
        ensures
            final(self)@.wf(),
            final(self)@ == old(self)@.advanced(new_root@),
    {
        let previous = self.current_root;
        let ghost window = self.recent_roots@;
        if self.recent_roots.len() >= ROOT_WINDOW {
            self.recent_roots.remove(0);
            assert(views(self.recent_roots@) =~= views(window).subrange(1, window.len() as int));
        }
        let ghost shifted = self.recent_roots@;
        self.recent_roots.push(previous);
        proof {
            lemma_views_push(shifted, previous);
        }
        self.current_root = new_root;
        let count = self.leaves.len() as u32;
        self.root_leaf_count.insert(new_root, count);
    }

    /// Whether `root` may anchor a transaction.
    pub fn anchor_is_valid(&self, root: &[u8; 32]) -> (valid: bool)
        ensures
            valid == self@.anchor_is_valid(root@),
    {
        if hash_eq(root, &self.current_root) {
            return true;
        }
        let mut i: usize = 0;
        while i < self.recent_roots.len()
            invariant
                i <= self.recent_roots@.len(),
                forall|j: int| 0 <= j < i ==> views(self.recent_roots@)[j] != root@,
            decreases self.recent_roots@.len() - i,
        {
            if hash_eq(&self.recent_roots[i], root) {
                assert(views(self.recent_roots@)[i as int] == root@);
                return true;
            }
            i += 1;
        }
        false
    }
}

/// The window never holds more than its capacity, and an entry leaves it only
/// from the front.
pub proof fn lemma_window_push(window: Seq<Seq<u8>>, root: Seq<u8>)
    requires
        window.len() <= ROOT_WINDOW,
    ensures
        window_push(window, root).len() <= ROOT_WINDOW,
        window_push(window, root).last() == root,
        window.len() < ROOT_WINDOW ==> window_push(window, root) == window.push(root),
        window.len() == ROOT_WINDOW ==> window_push(window, root) == window.drop_first().push(root),
{
    if window.len() == ROOT_WINDOW {
        assert(window.subrange(1, window.len() as int) =~= window.drop_first());
    }
}

/// The roots that were current before the last of `roots` became current, in
/// order: those of the window, the current one, and all of `roots` but the
/// last.
pub open spec fn earlier_roots(state: AccumulatorState, roots: Seq<Seq<u8>>) -> Seq<Seq<u8>> {
    state.recent_roots + seq![state.current_root] + roots.drop_last()
}

/// After roots have become current one after another, the window holds the
/// last of the roots that were current before, as many as fit, and the last
/// root is current.
pub proof fn lemma_window_after_advances(state: AccumulatorState, roots: Seq<Seq<u8>>)
    requires
        state.wf(),
        roots.len() > 0,
    ensures
        ({
            let after = state.advanced_through(roots);
            let earlier = earlier_roots(state, roots);
            let first = if earlier.len() > ROOT_WINDOW {
                earlier.len() - ROOT_WINDOW
            } else {
                0
            };
            &&& after.wf()
            &&& after.leaves == state.leaves
            &&& after.current_root == roots.last()
            &&& after.recent_roots == earlier.subrange(first, earlier.len() as int)
        }),
    decreases roots.len(),
{
    let shorter = roots.drop_last();
    let before = state.advanced_through(shorter);
    let after = before.advanced(roots.last());
    let earlier = earlier_roots(state, roots);
    if shorter.len() == 0 {
        assert(earlier =~= state.recent_roots.push(state.current_root));
        lemma_window_push(state.recent_roots, state.current_root);
        if state.recent_roots.len() == ROOT_WINDOW {
            assert(after.recent_roots =~= earlier.subrange(1, earlier.len() as int));
        } else {
            assert(after.recent_roots =~= earlier.subrange(0, earlier.len() as int));
        }
    } else {
        lemma_window_after_advances(state, shorter);
        let earlier_before = earlier_roots(state, shorter);
        assert(earlier =~= earlier_before.push(shorter.last()));
        lemma_window_push(before.recent_roots, before.current_root);
        let first = if earlier.len() > ROOT_WINDOW {
            earlier.len() - ROOT_WINDOW
        } else {
            0
        };
        assert(after.recent_roots =~= earlier.subrange(first, earlier.len() as int));
    }
}

/// An anchor outlives 64 advances and not one more: the root that is current
/// stays a valid anchor while up to 64 other roots become current after it,
/// and is none any more once 65 roots that differ from it have.
pub proof fn lemma_anchor_outlives_window(state: AccumulatorState, roots: Seq<Seq<u8>>)
    requires
        state.wf(),
    ensures
        roots.len() <= ROOT_WINDOW ==> state.advanced_through(roots).anchor_is_valid(
            state.current_root,
        ),
        roots.len() > ROOT_WINDOW && !roots.contains(state.current_root)
            ==> !state.advanced_through(roots).anchor_is_valid(state.current_root),
{
    if roots.len() > 0 {
        lemma_window_after_advances(state, roots);
        let after = state.advanced_through(roots);
        let earlier = earlier_roots(state, roots);
        let first = if earlier.len() > ROOT_WINDOW {
            earlier.len() - ROOT_WINDOW
        } else {
            0
        };
        let own = state.recent_roots.len() as int;
        assert(earlier[own] == state.current_root);
        if roots.len() <= ROOT_WINDOW {
            assert(after.recent_roots[own - first] == state.current_root);
        } else if !roots.contains(state.current_root) {
            assert forall|i: int| 0 <= i < after.recent_roots.len() implies after.recent_roots[i]
                != state.current_root by {
                let at = first + i - own - 1;
                assert(after.recent_roots[i] == roots.drop_last()[at]);
                assert(roots[at] == roots.drop_last()[at]);
            }
            assert(roots[roots.len() - 1] == roots.last());
        }
    }
}

} // verus!
