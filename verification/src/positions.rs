//! The positions of the ledger, one for each address that has one.

use crate::address::Address;
use crate::types::{PositionView, StakingPosition};
use vstd::prelude::*;

verus! {

/// One address with its position.
#[derive(Debug)]
struct PositionEntry {
    address: Address,
    position: StakingPosition,
}

/// Whether some entry belongs to `addr`.
spec fn has_entry(entries: Seq<PositionEntry>, addr: Address) -> bool {
    exists|i: int| 0 <= i < entries.len() && entries[i].address == addr
}

/// The place of an entry that belongs to `addr`.
spec fn entry_slot(entries: Seq<PositionEntry>, addr: Address) -> int {
    choose|i: int| 0 <= i < entries.len() && entries[i].address == addr
}

/// No two entries belong to one address.
spec fn distinct_entries(entries: Seq<PositionEntry>) -> bool {
    forall|i: int, j: int|
        0 <= i < entries.len() && 0 <= j < entries.len() && i != j ==> entries[i].address
            != entries[j].address
}

/// The map from each address to its position.
spec fn entries_map(entries: Seq<PositionEntry>) -> Map<Address, PositionView> {
    Map::new(
        |addr: Address| has_entry(entries, addr),
        |addr: Address| entries[entry_slot(entries, addr)].position@,
    )
}

/// With distinct entries, the entry at `i` is the one found for its address.
proof fn lemma_entry_found(entries: Seq<PositionEntry>, i: int)
    requires
        distinct_entries(entries),
        0 <= i < entries.len(),
    ensures
        has_entry(entries, entries[i].address),
        entry_slot(entries, entries[i].address) == i,
        entries_map(entries).contains_key(entries[i].address),
        entries_map(entries)[entries[i].address] == entries[i].position@,
{
}

/// A map from addresses to positions.
#[derive(Debug)]
pub struct PositionStore {
    entries: Vec<PositionEntry>,
}

impl View for PositionStore {
    type V = Map<Address, PositionView>;

    closed spec fn view(&self) -> Map<Address, PositionView> {
        entries_map(self.entries@)
    }
}

impl PositionStore {
    /// Every address has at most one entry.
    pub closed spec fn wf(&self) -> bool {
        distinct_entries(self.entries@)
    }

    /// The empty map.
    pub fn new() -> (r: PositionStore)
        ensures
            r.wf(),
            r@ == Map::<Address, PositionView>::empty(),
    {
        let r = PositionStore { entries: Vec::new() };
        assert(r@ =~= Map::<Address, PositionView>::empty());
        r
    }

    /// The number of positions.
    pub fn len(&self) -> (r: usize)
        requires
            self.wf(),
        ensures
            r == self@.dom().len(),
            self@.dom().finite(),
    {
        proof {
            self.lemma_len();
        }
        self.entries.len()
    }

    /// The map has as many keys as the store has entries.
    proof fn lemma_len(&self)
        requires
            self.wf(),
        ensures
            self@.dom().finite(),
            self@.dom().len() == self.entries@.len(),
    {
        let keys = self.entries@.map_values(|e: PositionEntry| e.address);
        assert(keys.no_duplicates());
        keys.unique_seq_to_set();
        assert(keys.to_set() =~= self@.dom()) by {
            assert forall|a: Address| keys.to_set().contains(a) <==> self@.dom().contains(a) by {
                if keys.contains(a) {
                    let i = choose|i: int| 0 <= i < keys.len() && keys[i] == a;
                    assert(self.entries@[i].address == a);
                }
                if has_entry(self.entries@, a) {
                    let i = entry_slot(self.entries@, a);
                    assert(keys[i] == a);
                }
            }
        }
    }

    /// Where the entry of `addr` stands, if there is one.
    fn slot_of(&self, addr: &Address) -> (r: Option<usize>)
        ensures
            match r {
                Some(i) => i < self.entries@.len() && self.entries@[i as int].address == *addr,
                None => !has_entry(self.entries@, *addr),
            },
    {
        let n = self.entries.len();
        let mut i: usize = 0;
        while i < n
            invariant
                i <= n,
                n == self.entries@.len(),
                forall|j: int| 0 <= j < i ==> self.entries@[j].address != *addr,
            decreases n - i,
        {
            if self.entries[i].address == *addr {
                return Some(i);
            }
            i += 1;
        }
        None
    }

    /// The position of `addr`, if it has one.
    pub fn get(&self, addr: &Address) -> (r: Option<&StakingPosition>)
        requires
            self.wf(),
        ensures
            match r {
                Some(position) => self@.contains_key(*addr) && position@ == self@[*addr],
                None => !self@.contains_key(*addr),
            },
    {
        match self.slot_of(addr) {
            Some(i) => {
                proof {
                    lemma_entry_found(self.entries@, i as int);
                }
                Some(&self.entries[i].position)
            },
            None => None,
        }
    }

    /// Gives `addr` the position `position`, in place of the one it had, if
    /// it had one.
    pub fn set(&mut self, addr: Address, position: StakingPosition)
        requires
            old(self).wf(),
        ensures
            final(self).wf(),
            final(self)@ == old(self)@.insert(addr, position@),
    {
        let entry = PositionEntry { address: addr, position };
        match self.slot_of(&addr) {
            Some(i) => {
                self.entries[i] = entry;
            },
            None => {
                self.entries.push(entry);
            },
        }
        proof {
            let before = old(self).entries@;
            let after = self.entries@;
            assert(distinct_entries(after));
            assert forall|a: Address| has_entry(after, a) <==> has_entry(before, a) || a
                == addr by {
                if has_entry(after, a) && a != addr {
                    let j = entry_slot(after, a);
                    assert(before[j].address == a);
                }
                if has_entry(before, a) {
                    let j = entry_slot(before, a);
                    assert(after[j].address == a);
                }
                if a == addr {
                    let j = if has_entry(before, addr) {
                        entry_slot(before, addr)
                    } else {
                        before.len() as int
                    };
                    assert(after[j].address == a);
                }
            }
            assert forall|a: Address| has_entry(after, a) implies entries_map(after)[a] == old(
                self,
            )@.insert(addr, position@)[a] by {
                let j = entry_slot(after, a);
                lemma_entry_found(after, j);
                if a != addr {
                    lemma_entry_found(before, j);
                }
            }
            assert(self@ =~= old(self)@.insert(addr, position@));
        }
    }

    /// Drops the position of `addr`, if it has one.
    pub fn clear(&mut self, addr: &Address)
        requires
            old(self).wf(),
        ensures
            final(self).wf(),
            final(self)@ == old(self)@.remove(*addr),
    {
        match self.slot_of(addr) {
            Some(i) => {
                self.entries.swap_remove(i);
                proof {
                    let before = old(self).entries@;
                    let after = self.entries@;
                    let last = before.len() - 1;
                    assert(distinct_entries(after));
                    assert forall|a: Address| has_entry(after, a) <==> has_entry(before, a) && a
                        != *addr by {
                        if has_entry(after, a) {
                            let j = entry_slot(after, a);
                            if j == i {
                                assert(before[last].address == a);
                            } else {
                                assert(before[j].address == a);
                            }
                        }
                        if has_entry(before, a) && a != *addr {
                            let j = entry_slot(before, a);
                            if j == last {
                                assert(after[i as int].address == a);
                            } else {
                                assert(after[j].address == a);
                            }
                        }
                    }
                    assert forall|a: Address| has_entry(after, a) implies entries_map(after)[a]
                        == old(self)@[a] by {
                        let j = entry_slot(after, a);
                        lemma_entry_found(after, j);
                        if j == i {
                            lemma_entry_found(before, last);
                        } else {
                            lemma_entry_found(before, j);
                        }
                    }
                    assert(self@ =~= old(self)@.remove(*addr));
                }
            },
            None => {
                assert(self@ =~= old(self)@.remove(*addr));
            },
        }
    }
}

} // verus!
