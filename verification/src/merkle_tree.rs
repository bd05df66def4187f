//! Append-only incremental Merkle accumulator with a bounded circular
//! history of recent roots.
//!
//! An insertion walks the levels from the leaf upward and costs one hash per
//! level: at each level the new node is combined either with the cached
//! right-most completed subtree of that level or with the statically known
//! "empty" node, so the untouched part of the tree is never re-hashed.

use vstd::prelude::*;
use vstd::arithmetic::div_mod::{
    lemma_mod_add_multiples_vanish, lemma_mod_bound, lemma_mod_equivalence, lemma_mod_twice,
    lemma_small_mod,
};
use vstd::arithmetic::power2::pow2;
use crate::hashing::{hash_pair, node_hash};
use crate::mixer::Error;

verus! {

/// How many recent roots stay queryable; older roots are evicted.
pub const ROOT_HISTORY_SIZE: u32 = 100;

/// The all-zero 32-byte value: the default leaf, and the value a withdrawal
/// may never claim as a root.
pub open spec fn zero_bytes32() -> Seq<u8> {
    Seq::new(32, |i: int| 0u8)
}

/// The "empty" node of a level: level 0 is the all-zero leaf, each higher
/// level the hash of two empty children.
pub open spec fn zero_at(level: nat) -> Seq<u8>
    decreases level,
{
    if level == 0 {
        zero_bytes32()
    } else {
        node_hash(zero_at((level - 1) as nat), zero_at((level - 1) as nat))
    }
}

/// One insertion pass up the tree, starting from node `cur` at `level` with
/// position `index` within that level: returns the filled-subtree cache
/// after the pass and the new root.
pub open spec fn insert_levels(
    filled: Seq<Seq<u8>>,
    index: nat,
    level: nat,
    cur: Seq<u8>,
) -> (Seq<Seq<u8>>, Seq<u8>)
    decreases filled.len() - level,
{
    if level >= filled.len() {
        (filled, cur)
    } else if index % 2 == 0 {
        insert_levels(
            filled.update(level as int, cur),
            index / 2,
            level + 1,
            node_hash(cur, zero_at(level)),
        )
    } else {
        insert_levels(filled, index / 2, level + 1, node_hash(filled[level as int], cur))
    }
}

/// The accumulator's abstract state.
#[verifier::ext_equal]
pub struct TreeView {
    pub levels: nat,
    pub next_index: nat,
    pub current_root_index: nat,
    pub filled_subtrees: Seq<Seq<u8>>,
    pub roots: Seq<Seq<u8>>,
}

impl TreeView {
    pub open spec fn wf(self) -> bool {
        &&& 0 < self.levels < 32
        &&& self.next_index <= pow2(self.levels)
        &&& self.current_root_index < ROOT_HISTORY_SIZE
        &&& self.filled_subtrees.len() == self.levels
        &&& self.roots.len() == ROOT_HISTORY_SIZE
    }

    /// The accumulator accepts no further leaf.
    pub open spec fn is_full(self) -> bool {
        self.next_index >= pow2(self.levels)
    }

    /// The root the last insertion produced (the initial root before any
    /// insertion is the root of the all-empty tree).
    pub open spec fn last_root(self) -> Seq<u8> {
        self.roots[self.current_root_index as int]
    }

    /// A root a withdrawal may be checked against: an all-zero value never
    /// counts, any other value counts exactly when some slot of the bounded
    /// history holds it.
    pub open spec fn known_root(self, root: Seq<u8>) -> bool {
        root != zero_bytes32() && exists|i: int|
            0 <= i < self.roots.len() && self.roots[i] == root
    }
}

/// The new root an insertion into `t` produces for `leaf`.
pub open spec fn root_after_insert(t: TreeView, leaf: Seq<u8>) -> Seq<u8> {
    insert_levels(t.filled_subtrees, t.next_index, 0, leaf).1
}

/// The whole state after an insertion into a non-full accumulator: one hash
/// pass updates the subtree cache, the new root overwrites the oldest slot
/// of the circular history, and the leaf count advances.
pub open spec fn tree_after_insert(t: TreeView, leaf: Seq<u8>) -> TreeView {
    let slot = (t.current_root_index + 1) % (ROOT_HISTORY_SIZE as nat);
    TreeView {
        levels: t.levels,
        next_index: t.next_index + 1,
        current_root_index: slot,
        filled_subtrees: insert_levels(t.filled_subtrees, t.next_index, 0, leaf).0,
        roots: t.roots.update(slot as int, root_after_insert(t, leaf)),
    }
}

/// The freshly constructed accumulator: no leaves, every subtree cache slot
/// holds the empty node of its level, and the history holds the all-empty
/// tree's root in slot zero.
pub open spec fn new_tree_view(levels: nat) -> TreeView {
    TreeView {
        levels: levels,
        next_index: 0,
        current_root_index: 0,
        filled_subtrees: Seq::new(levels, |i: int| zero_at(i as nat)),
        roots: Seq::new(ROOT_HISTORY_SIZE as nat, |i: int|
            if i == 0 { zero_at(levels) } else { zero_bytes32() }),
    }
}

/// Fixed-depth incremental Merkle accumulator.
#[derive(Clone)]
pub struct MerkleTree {
    levels: u32,
    next_index: u32,
    current_root_index: u32,
    filled_subtrees: Vec<[u8; 32]>,
    roots: Vec<[u8; 32]>,
    /// The precomputed empty node of each level, so an insertion needs no
    /// re-hashing to find a missing right sibling.
    zeros: Vec<[u8; 32]>,
}

impl View for MerkleTree {
    type V = TreeView;

    closed spec fn view(&self) -> TreeView {
        TreeView {
            levels: self.levels as nat,
            next_index: self.next_index as nat,
            current_root_index: self.current_root_index as nat,
            filled_subtrees: self.filled_subtrees@.map_values(|n: [u8; 32]| n@),
            roots: self.roots@.map_values(|n: [u8; 32]| n@),
        }
    }
}

/// Compares two 32-byte values.
pub fn eq_bytes32(a: &[u8; 32], b: &[u8; 32]) -> (r: bool)
    ensures
        r == (a@ == b@),
{
    let mut i: usize = 0;
    while i < 32
        invariant
            i <= 32,
            forall|j: int| 0 <= j < i ==> a@[j] == b@[j],
        decreases 32 - i,
    {
        if a[i] != b[i] {
            return false;
        }
        i += 1;
    }
    proof {
        assert(a@ =~= b@);
    }
    true
}

/// Tests whether a 32-byte value is all zero.
pub fn is_zero_bytes32(a: &[u8; 32]) -> (r: bool)
    ensures
        r == (a@ == zero_bytes32()),
{
    let mut i: usize = 0;
    while i < 32
        invariant
            i <= 32,
            forall|j: int| 0 <= j < i ==> a@[j] == 0u8,
        decreases 32 - i,
    {
        if a[i] != 0u8 {
            return false;
        }
        i += 1;
    }
    proof {
        assert(a@ =~= zero_bytes32());
    }
    true
}

/// The slot the root-history scan visits after walking `j` steps backward
/// from position `c`.
pub open spec fn back_slot(c: int, j: int, n: int) -> int {
    (c - j) % n
}

/// Walking one more step backward from any position decrements the slot,
/// wrapping below zero to the top of the buffer.
proof fn lemma_back_slot_step(c: int, j: int, n: int)
    requires
        0 < n,
    ensures
        back_slot(c, j + 1, n) == if back_slot(c, j, n) == 0 {
            n - 1
        } else {
            back_slot(c, j, n) - 1
        },
{
    let x = c - j;
    let m = x % n;
    lemma_mod_bound(x, n);
    if m == 0 {
        lemma_mod_add_multiples_vanish(x - n, n);
        lemma_mod_equivalence(x - 1, n - 1, n);
        lemma_small_mod((n - 1) as nat, n as nat);
    } else {
        lemma_mod_equivalence(x, m, n);
        lemma_small_mod(m as nat, n as nat);
        lemma_mod_equivalence(x - 1, m - 1, n);
        lemma_small_mod((m - 1) as nat, n as nat);
    }
}

/// A backward walk of a whole buffer length reaches every slot: the number
/// of steps at which it visits slot `s`.
proof fn lemma_back_slot_covers(c: int, s: int, n: int)
    requires
        0 < n,
        0 <= s < n,
    ensures
        ({
            let j = (c - s) % n;
            0 <= j < n && back_slot(c, j, n) == s
        }),
{
    let j = (c - s) % n;
    lemma_mod_bound(c - s, n);
    lemma_mod_twice(c - s, n);
    lemma_small_mod(j as nat, n as nat);
    lemma_mod_equivalence(c - s, j, n);
    lemma_mod_equivalence(c - j, s, n);
    lemma_small_mod(s as nat, n as nat);
}

impl MerkleTree {
    /// The accumulator's structural invariant: the view is well formed and
    /// the cached empty nodes are the empty node of each level.
    pub closed spec fn wf(self) -> bool {
        &&& self@.wf()
        &&& self.zeros@.len() == self.levels
        &&& forall|i: int| 0 <= i < self.zeros@.len() ==> self.zeros@[i]@ == zero_at(i as nat)
    }

    /// Builds the empty accumulator of the given depth.
    pub fn new(levels: u32) -> (t: Self)
        requires
            0 < levels < 32,
        ensures
            t.wf(),
            t@ == new_tree_view(levels as nat),
    {
        let mut zeros: Vec<[u8; 32]> = Vec::new();
        let mut filled_subtrees: Vec<[u8; 32]> = Vec::new();
        let mut cur: [u8; 32] = [0u8; 32];
        proof {
            assert(cur@ =~= zero_bytes32());
        }
        let mut i: usize = 0;
        while i < levels as usize
            invariant
                i <= levels < 32,
                zeros@.len() == i,
                filled_subtrees@ == zeros@,
                forall|j: int| 0 <= j < i ==> zeros@[j]@ == zero_at(j as nat),
                cur@ == zero_at(i as nat),
            decreases levels - i,
        {
            zeros.push(cur);
            filled_subtrees.push(cur);
            i += 1;
            cur = hash_pair(&cur, &cur);
        }
        let mut roots: Vec<[u8; 32]> = Vec::new();
        roots.push(cur);
        let mut j: usize = 1;
        while j < ROOT_HISTORY_SIZE as usize
            invariant
                1 <= j <= ROOT_HISTORY_SIZE,
                roots@.len() == j,
                roots@[0]@ == zero_at(levels as nat),
                forall|k: int| 1 <= k < j ==> roots@[k]@ == zero_bytes32(),
            decreases ROOT_HISTORY_SIZE - j,
        {
            roots.push([0u8; 32]);
            proof {
                assert(roots@[j as int]@ =~= zero_bytes32());
            }
            j += 1;
        }
        let t = MerkleTree {
            levels,
            next_index: 0,
            current_root_index: 0,
            filled_subtrees,
            roots,
            zeros,
        };
        proof {
            vstd::arithmetic::power2::lemma_pow2_pos(levels as nat);
            assert(t@.filled_subtrees =~= new_tree_view(levels as nat).filled_subtrees);
            assert(t@.roots =~= new_tree_view(levels as nat).roots);
            assert(t@ =~~= new_tree_view(levels as nat));
        }
        t
    }

    /// The accumulator's depth.
    pub fn levels(&self) -> (r: u32)
        ensures
            r == self@.levels,
    {
        self.levels
    }

    /// How many leaves have been inserted so far.
    pub fn next_index(&self) -> (r: u32)
        ensures
            r == self@.next_index,
    {
        self.next_index
    }

    /// The most recently produced root.
    pub fn get_last_root(&self) -> (r: [u8; 32])
        requires
            self.wf(),
        ensures
            r@ == self@.last_root(),
    {
        self.roots[self.current_root_index as usize]
    }

    /// Appends a leaf: one hash per level, the new root recorded in the
    /// circular history, and the leaf's position returned. A full
    /// accumulator refuses the leaf and is left untouched.
    pub fn insert(&mut self, leaf: [u8; 32]) -> (r: Result<u32, Error>)
        requires
            old(self).wf(),
        ensures
            final(self).wf(),
            old(self)@.is_full() ==> r == Err::<u32, Error>(Error::MerkleTreeIsFull)
                && final(self)@ == old(self)@,
            !old(self)@.is_full() ==> r == Ok::<u32, Error>(old(self)@.next_index as u32)
                && final(self)@ == tree_after_insert(old(self)@, leaf@),
    {
        proof {
            vstd::bits::lemma_u32_pow2_no_overflow(self.levels as nat);
            vstd::bits::lemma_u32_shl_is_mul(1u32, self.levels);
        }
        let capacity: u32 = 1u32 << self.levels;
        if self.next_index >= capacity {
            return Err(Error::MerkleTreeIsFull);
        }
        let ghost orig = self@;
        let mut current_index: u32 = self.next_index;
        let mut cur: [u8; 32] = leaf;
        let mut level: usize = 0;
        while level < self.levels as usize
            invariant
                self.wf(),
                level <= self.levels,
                self@.levels == orig.levels,
                self@.next_index == orig.next_index,
                self@.current_root_index == orig.current_root_index,
                self@.roots == orig.roots,
                insert_levels(self@.filled_subtrees, current_index as nat, level as nat, cur@)
                    == insert_levels(orig.filled_subtrees, orig.next_index, 0, leaf@),
            decreases self.levels - level,
        {
            let ghost pre_filled = self@.filled_subtrees;
            if current_index % 2 == 0 {
                let zero = self.zeros[level];
                let parent = hash_pair(&cur, &zero);
                self.filled_subtrees[level] = cur;
                proof {
                    assert(self@.filled_subtrees =~= pre_filled.update(level as int, cur@));
                }
                cur = parent;
            } else {
                let left = self.filled_subtrees[level];
                cur = hash_pair(&left, &cur);
            }
            current_index = current_index / 2;
            level += 1;
        }
        proof {
            assert(insert_levels(self@.filled_subtrees, current_index as nat, level as nat, cur@)
                == (self@.filled_subtrees, cur@));
        }
        let new_root_index = (self.current_root_index + 1) % ROOT_HISTORY_SIZE;
        self.current_root_index = new_root_index;
        let ghost pre_roots = self@.roots;
        self.roots[new_root_index as usize] = cur;
        proof {
            assert(self@.roots =~= pre_roots.update(new_root_index as int, cur@));
        }
        let index = self.next_index;
        proof {
            vstd::arithmetic::power2::lemma_pow2_strictly_increases(self.levels as nat, 32);
            vstd::arithmetic::power2::lemma2_to64();
        }
        self.next_index = index + 1;
        proof {
            assert(self@ =~~= tree_after_insert(orig, leaf@));
        }
        Ok(index)
    }

    /// Decides whether a withdrawal may be checked against this root: false
    /// for the all-zero value, otherwise true exactly when some slot of the
    /// bounded history holds the root.
    pub fn is_known_root(&self, root: &[u8; 32]) -> (r: bool)
        requires
            self.wf(),
        ensures
            r == self@.known_root(root@),
    {
        if is_zero_bytes32(root) {
            return false;
        }
        // Walk the circular buffer backward from the most recent root, so a
        // recent root is found after a few steps.
        let ghost c = self.current_root_index as int;
        let ghost n = ROOT_HISTORY_SIZE as int;
        let mut i: usize = self.current_root_index as usize;
        let mut steps: u32 = 0;
        proof {
            lemma_small_mod(self.current_root_index as nat, ROOT_HISTORY_SIZE as nat);
        }
        while steps < ROOT_HISTORY_SIZE
            invariant
                self.wf(),
                steps <= ROOT_HISTORY_SIZE,
                0 <= i < ROOT_HISTORY_SIZE,
                i == back_slot(c, steps as int, n),
                n == ROOT_HISTORY_SIZE,
                c == self.current_root_index,
                root@ != zero_bytes32(),
                forall|j: int| 0 <= j < steps ==> self@.roots[#[trigger] back_slot(c, j, n)]
                    != root@,
            decreases ROOT_HISTORY_SIZE - steps,
        {
            if eq_bytes32(&self.roots[i], root) {
                proof {
                    assert(self@.roots[i as int] == root@);
                }
                return true;
            }
            proof {
                lemma_back_slot_step(c, steps as int, n);
            }
            i = if i == 0 {
                (ROOT_HISTORY_SIZE - 1) as usize
            } else {
                i - 1
            };
            steps += 1;
        }
        proof {
            assert forall|s: int| 0 <= s < self@.roots.len() implies self@.roots[s]
                != root@ by {
                lemma_back_slot_covers(c, s, n);
            }
        }
        false
    }
}

} // verus!
