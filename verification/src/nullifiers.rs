//! The nullifier ledger: the persistent set of spent 32-byte markers.
//! Marking is insert-once and idempotent; nothing is ever removed, so a
//! withdrawal is strictly one-shot per nullifier.

use vstd::prelude::*;
use crate::merkle_tree::eq_bytes32;

verus! {

/// Persistent set of spent nullifiers.
#[derive(Clone)]
pub struct NullifierLedger {
    spent: Vec<[u8; 32]>,
}

impl View for NullifierLedger {
    type V = Set<Seq<u8>>;

    closed spec fn view(&self) -> Set<Seq<u8>> {
        Set::new(|n: Seq<u8>| exists|i: int|
            0 <= i < self.spent@.len() && self.spent@[i]@ == n)
    }
}

impl NullifierLedger {
    /// The empty ledger: no nullifier spent yet.
    pub fn new() -> (r: Self)
        ensures
            r@ == Set::<Seq<u8>>::empty(),
    {
        let r = NullifierLedger { spent: Vec::new() };
        proof {
            assert(r@ =~= Set::<Seq<u8>>::empty());
        }
        r
    }

    /// Membership query: has this nullifier been spent?
    pub fn contains(&self, nullifier: &[u8; 32]) -> (r: bool)
        ensures
            r == self@.contains(nullifier@),
    {
        let mut i: usize = 0;
        while i < self.spent.len()
            invariant
                i <= self.spent@.len(),
                forall|j: int| 0 <= j < i ==> self.spent@[j]@ != nullifier@,
            decreases self.spent@.len() - i,
        {
            if eq_bytes32(&self.spent[i], nullifier) {
                proof {
                    assert(self.spent@[i as int]@ == nullifier@);
                    assert(self@.contains(nullifier@));
                }
                return true;
            }
            i += 1;
        }
        proof {
            assert(!self@.contains(nullifier@));
        }
        false
    }

    /// Marks a nullifier as spent. Idempotent; never removes anything.
    pub fn mark(&mut self, nullifier: &[u8; 32])
        ensures
            final(self)@ == old(self)@.insert(nullifier@),
    {
        if !self.contains(nullifier) {
            self.spent.push(*nullifier);
            proof {
                assert forall|n: Seq<u8>| old(self)@.insert(nullifier@).contains(n)
                    implies self@.contains(n) by {
                    if n == nullifier@ {
                        assert(self.spent@[self.spent@.len() - 1]@ == n);
                    } else {
                        let i = choose|i: int|
                            0 <= i < old(self).spent@.len() && old(self).spent@[i]@ == n;
                        assert(self.spent@[i]@ == n);
                    }
                }
                assert forall|n: Seq<u8>| self@.contains(n)
                    implies old(self)@.insert(nullifier@).contains(n) by {
                    let i = choose|i: int|
                        0 <= i < self.spent@.len() && self.spent@[i]@ == n;
                    if i < old(self).spent@.len() {
                        assert(old(self).spent@[i]@ == n);
                    }
                }
                assert(self@ =~= old(self)@.insert(nullifier@));
            }
        } else {
            proof {
                assert(self@ =~= old(self)@.insert(nullifier@));
            }
        }
    }
}

} // verus!
