//! How runs of insertions move through the bounded root history.
//!
//! Each insertion writes its root into the next slot of the circular
//! buffer, so a run of insertions walks the buffer forward. The laws here
//! pin that walk down: the most recent `ROOT_HISTORY_SIZE` roots occupy the
//! buffer, every older root is evicted, leaf indices count insertions
//! consecutively, and the all-zero root is never known.

use vstd::prelude::*;
use vstd::arithmetic::div_mod::{
    lemma_add_mod_noop, lemma_mod_add_multiples_vanish, lemma_mod_bound, lemma_mod_equivalence,
    lemma_mod_twice, lemma_small_mod,
};
use crate::merkle_tree::{
    root_after_insert, tree_after_insert, zero_bytes32, TreeView, ROOT_HISTORY_SIZE,
};

verus! {

/// The state after inserting a whole run of leaves, first leaf first.
pub open spec fn tree_after_inserts(t: TreeView, leaves: Seq<Seq<u8>>) -> TreeView
    decreases leaves.len(),
{
    if leaves.len() == 0 {
        t
    } else {
        tree_after_inserts(tree_after_insert(t, leaves[0]), leaves.drop_first())
    }
}

/// The roots the run produces, in insertion order.
pub open spec fn roots_written(t: TreeView, leaves: Seq<Seq<u8>>) -> Seq<Seq<u8>>
    decreases leaves.len(),
{
    if leaves.len() == 0 {
        Seq::empty()
    } else {
        seq![root_after_insert(t, leaves[0])] + roots_written(
            tree_after_insert(t, leaves[0]),
            leaves.drop_first(),
        )
    }
}

/// What the history laws need of a state: a full circular buffer and a
/// position inside it. Well-formedness implies it, and an insertion
/// preserves it even on a conceptually full tree.
pub open spec fn history_wf(t: TreeView) -> bool {
    &&& t.current_root_index < ROOT_HISTORY_SIZE
    &&& t.roots.len() == ROOT_HISTORY_SIZE
}

/// Folding one more leaf at the end of a run is one insertion after the run.
pub proof fn lemma_inserts_snoc(t: TreeView, leaves: Seq<Seq<u8>>, leaf: Seq<u8>)
    ensures
        tree_after_inserts(t, leaves.push(leaf)) == tree_after_insert(
            tree_after_inserts(t, leaves),
            leaf,
        ),
    decreases leaves.len(),
{
    if leaves.len() == 0 {
        assert(leaves.push(leaf)[0] == leaf);
        assert(leaves.push(leaf).drop_first() =~= Seq::<Seq<u8>>::empty());
        assert(tree_after_inserts(t, leaves) == t);
        assert(tree_after_inserts(tree_after_insert(t, leaf), Seq::<Seq<u8>>::empty())
            == tree_after_insert(t, leaf));
    } else {
        assert(leaves.push(leaf)[0] == leaves[0]);
        assert(leaves.push(leaf).drop_first() =~= leaves.drop_first().push(leaf));
        lemma_inserts_snoc(tree_after_insert(t, leaves[0]), leaves.drop_first(), leaf);
    }
}

/// The roots of a run extended by one leaf: the roots of the run, then the
/// root that last insertion produces.
pub proof fn lemma_written_snoc(t: TreeView, leaves: Seq<Seq<u8>>, leaf: Seq<u8>)
    ensures
        roots_written(t, leaves.push(leaf)) == roots_written(t, leaves).push(
            root_after_insert(tree_after_inserts(t, leaves), leaf),
        ),
    decreases leaves.len(),
{
    if leaves.len() == 0 {
        assert(leaves.push(leaf)[0] == leaf);
        assert(leaves.push(leaf).drop_first() =~= Seq::<Seq<u8>>::empty());
        assert(tree_after_inserts(t, leaves) == t);
        assert(roots_written(tree_after_insert(t, leaf), Seq::<Seq<u8>>::empty())
            =~= Seq::<Seq<u8>>::empty());
        assert(roots_written(t, leaves.push(leaf)) =~= roots_written(t, leaves).push(
            root_after_insert(tree_after_inserts(t, leaves), leaf),
        ));
    } else {
        assert(leaves.push(leaf)[0] == leaves[0]);
        assert(leaves.push(leaf).drop_first() =~= leaves.drop_first().push(leaf));
        lemma_written_snoc(tree_after_insert(t, leaves[0]), leaves.drop_first(), leaf);
        assert(roots_written(t, leaves.push(leaf)) =~= roots_written(t, leaves).push(
            root_after_insert(tree_after_inserts(t, leaves), leaf),
        ));
    }
}

/// The slot of the circular buffer that the `j`-th write after position
/// `c` lands in.
pub open spec fn write_slot(c: int, j: int, n: int) -> int {
    (c + 1 + j) % n
}

/// Two write positions less than a whole buffer apart land in different
/// slots.
proof fn lemma_slot_injective(c: int, j1: int, j2: int, n: int)
    requires
        0 < n,
        j1 < j2,
        j2 - j1 < n,
    ensures
        write_slot(c, j1, n) != write_slot(c, j2, n),
{
    lemma_mod_equivalence(c + 1 + j1, c + 1 + j2, n);
    lemma_mod_add_multiples_vanish(j1 - j2, n);
    lemma_small_mod((j1 - j2 + n) as nat, n as nat);
}

/// Every slot is written by exactly one position of any window of `n`
/// consecutive write positions: the witness for slot `s`.
proof fn lemma_slot_witness(c: int, base: int, s: int, n: int)
    requires
        0 < n,
        0 <= s < n,
    ensures
        ({
            let j = base + ((s - c - 1 - base) % n);
            base <= j < base + n && write_slot(c, j, n) == s
        }),
{
    let d = s - c - 1 - base;
    let t = d % n;
    lemma_mod_bound(d, n);
    lemma_mod_twice(d, n);
    lemma_mod_equivalence(t, d, n);
    lemma_mod_equivalence(c + 1 + base + t, s, n);
    lemma_small_mod(s as nat, n as nat);
}

/// Where a run of insertions lands in the circular history: the counters
/// advance by the length of the run, each of the last `ROOT_HISTORY_SIZE`
/// roots written sits in the slot its insertion wrote, and slots no write
/// of the run reached still hold what they held before.
pub proof fn lemma_history_slots(t: TreeView, leaves: Seq<Seq<u8>>)
    requires
        history_wf(t),
    ensures
        ({
            let w = tree_after_inserts(t, leaves);
            let written = roots_written(t, leaves);
            let k = leaves.len() as int;
            let n = ROOT_HISTORY_SIZE as int;
            let c = t.current_root_index as int;
            &&& history_wf(w)
            &&& w.levels == t.levels
            &&& w.next_index == t.next_index + k
            &&& w.current_root_index == (c + k) % n
            &&& written.len() == k
            &&& forall|j: int|
                #![trigger written[j]]
                0 <= j < k && k - n <= j ==> w.roots[write_slot(c, j, n)] == written[j]
            &&& forall|s: int|
                #![trigger w.roots[s]]
                0 <= s < n && (forall|j: int|
                    0 <= j < k && k - n <= j ==> #[trigger] write_slot(c, j, n) != s)
                    ==> w.roots[s] == t.roots[s]
        }),
    decreases leaves.len(),
{
    let n = ROOT_HISTORY_SIZE as int;
    let c = t.current_root_index as int;
    let k = leaves.len() as int;
    if leaves.len() == 0 {
        lemma_small_mod(t.current_root_index, ROOT_HISTORY_SIZE as nat);
    } else {
        let init = leaves.take(k - 1);
        let last = leaves[k - 1];
        assert(leaves =~= init.push(last));
        lemma_history_slots(t, init);
        lemma_inserts_snoc(t, init, last);
        lemma_written_snoc(t, init, last);
        let w0 = tree_after_inserts(t, init);
        let w = tree_after_insert(w0, last);
        let written0 = roots_written(t, init);
        let written = roots_written(t, leaves);
        let k0 = k - 1;
        assert(written == written0.push(root_after_insert(w0, last)));

        // The slot this last insertion writes is the next one of the walk.
        let c0 = w0.current_root_index as int;
        let slot = (c0 + 1) % n;
        lemma_add_mod_noop(c + k0, 1, n);
        lemma_small_mod(1nat, n as nat);
        lemma_mod_twice(c + k0 + 1, n);
        assert(slot == write_slot(c, k0, n));
        lemma_mod_bound(c + 1 + k0, n);
        assert(w.current_root_index == (c + k) % n);
        assert(w.roots[write_slot(c, k0, n)] == written[k0]);

        // Older writes of the window sit where they already sat, because
        // the new write lands in a different slot.
        assert forall|j: int|
            #![trigger written[j]]
            0 <= j < k0 && k - n <= j implies w.roots[write_slot(c, j, n)] == written[j] by {
            lemma_slot_injective(c, j, k0, n);
            lemma_mod_bound(c + 1 + j, n);
            assert(w0.roots[write_slot(c, j, n)] == written0[j]);
        }

        // A slot no write of the window reached: untouched by the last
        // write, and untouched by the run before it, since the one position
        // the shorter window has in addition writes the same slot as the
        // newest one.
        assert forall|s: int|
            #![trigger w.roots[s]]
            0 <= s < n && (forall|j: int|
                0 <= j < k && k - n <= j ==> #[trigger] write_slot(c, j, n) != s)
                implies w.roots[s] == t.roots[s] by {
            assert(write_slot(c, k0, n) != s);
            assert forall|j: int|
                0 <= j < k0 && k0 - n <= j implies #[trigger] write_slot(c, j, n) != s by {
                if j == k - 1 - n {
                    lemma_mod_add_multiples_vanish(c + 1 + j, n);
                    assert(write_slot(c, j, n) == write_slot(c, k - 1, n));
                } else {
                    assert(0 <= j < k && k - n <= j);
                }
            }
            assert(w0.roots[s] == t.roots[s]);
        }
    }
}

/// Leaf positions count insertions: a run of insertions grows the leaf
/// count by exactly the length of the run, so the index each insertion
/// returns equals the number of insertions before it.
pub proof fn lemma_insert_count(t: TreeView, leaves: Seq<Seq<u8>>)
    ensures
        tree_after_inserts(t, leaves).next_index == t.next_index + leaves.len(),
    decreases leaves.len(),
{
    if leaves.len() > 0 {
        lemma_insert_count(tree_after_insert(t, leaves[0]), leaves.drop_first());
    }
}

/// Bounded history, the eviction half: after a run of at least
/// `ROOT_HISTORY_SIZE` insertions, a root that differs from every one of
/// the last `ROOT_HISTORY_SIZE` roots written — in particular the root an
/// early insertion produced, unless a recent insertion reproduced the same
/// 32 bytes — is no longer known.
pub proof fn lemma_old_root_evicted(t: TreeView, leaves: Seq<Seq<u8>>, v: Seq<u8>)
    requires
        history_wf(t),
        leaves.len() >= ROOT_HISTORY_SIZE,
        forall|j: int|
            leaves.len() - ROOT_HISTORY_SIZE <= j < leaves.len() ==> roots_written(t, leaves)[j]
                != v,
    ensures
        !tree_after_inserts(t, leaves).known_root(v),
{
    let w = tree_after_inserts(t, leaves);
    let written = roots_written(t, leaves);
    let k = leaves.len() as int;
    let n = ROOT_HISTORY_SIZE as int;
    let c = t.current_root_index as int;
    lemma_history_slots(t, leaves);
    assert forall|s: int| 0 <= s < w.roots.len() implies w.roots[s] != v by {
        lemma_slot_witness(c, k - n, s, n);
        let j = (k - n) + ((s - c - 1 - (k - n)) % n);
        assert(w.roots[write_slot(c, j, n)] == written[j]);
        assert(written[j] != v);
    }
}

/// Bounded history, the retention half: each of the last
/// `ROOT_HISTORY_SIZE` roots a run wrote is still known afterwards, unless
/// it is the all-zero value, which is never known.
pub proof fn lemma_recent_root_known(t: TreeView, leaves: Seq<Seq<u8>>, j: int)
    requires
        history_wf(t),
        0 <= j < leaves.len(),
        leaves.len() - ROOT_HISTORY_SIZE <= j,
        roots_written(t, leaves)[j] != zero_bytes32(),
    ensures
        tree_after_inserts(t, leaves).known_root(roots_written(t, leaves)[j]),
{
    let w = tree_after_inserts(t, leaves);
    let n = ROOT_HISTORY_SIZE as int;
    let c = t.current_root_index as int;
    lemma_history_slots(t, leaves);
    lemma_mod_bound(c + 1 + j, n);
    assert(w.roots[write_slot(c, j, n)] == roots_written(t, leaves)[j]);
}

/// The all-zero root is never known, whatever the state.
pub proof fn lemma_zero_root_never_known(t: TreeView)
    ensures
        !t.known_root(zero_bytes32()),
{
}

} // verus!
