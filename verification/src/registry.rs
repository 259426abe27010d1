//! The set of addresses that hold a position.

use crate::address::Address;
use vstd::prelude::*;

verus! {

/// A set of addresses. Its members can be listed; the order of the listing
/// is the order of arrival until a removal, which moves the last member into
/// the place of the one that leaves.
#[derive(Debug)]
pub struct AddressRegistry {
    addresses: Vec<Address>,
}

impl View for AddressRegistry {
    type V = Set<Address>;

    open spec fn view(&self) -> Set<Address> {
        self.listing().to_set()
    }
}

impl AddressRegistry {
    /// The members in the order in which they are listed.
    pub closed spec fn listing(&self) -> Seq<Address> {
        self.addresses@
    }

    /// No address is listed twice.
    pub open spec fn wf(&self) -> bool {
        self.listing().no_duplicates()
    }

    /// The empty set.
    pub fn new() -> (r: AddressRegistry)
        ensures
            r.wf(),
            r.listing() == Seq::<Address>::empty(),
            r@ == Set::<Address>::empty(),
    {
        let r = AddressRegistry { addresses: Vec::new() };
        assert(r@ =~= Set::<Address>::empty());
        r
    }

    /// The number of members.
    pub fn len(&self) -> (r: usize)
        ensures
            r == self.listing().len(),
    {
        self.addresses.len()
    }

    /// Whether the set has no member.
    pub fn is_empty(&self) -> (r: bool)
        ensures
            r == (self.listing().len() == 0),
    {
        self.addresses.len() == 0
    }

    /// The members as a list.
    pub fn to_vec(&self) -> (r: Vec<Address>)
        ensures
            r@ == self.listing(),
    {
        let r = self.addresses.clone();
        assert(r@ =~= self.addresses@);
        r
    }

    /// Where `addr` is listed, if it is a member.
    fn position_of(&self, addr: &Address) -> (r: Option<usize>)
        ensures
            match r {
                Some(i) => i < self.listing().len() && self.listing()[i as int] == *addr,
                None => !self.listing().contains(*addr),
            },
    {
        let n = self.addresses.len();
        let mut i: usize = 0;
        while i < n
            invariant
                i <= n,
                n == self.addresses@.len(),
                forall|j: int| 0 <= j < i ==> self.addresses@[j] != *addr,
            decreases n - i,
        {
            if self.addresses[i] == *addr {
                return Some(i);
            }
            i += 1;
        }
        None
    }

    /// Whether `addr` is a member.
    pub fn contains(&self, addr: &Address) -> (r: bool)
        ensures
            r == self@.contains(*addr),
    {
        self.position_of(addr).is_some()
    }

    /// Makes `addr` a member, and says whether it was none before.
    pub fn insert(&mut self, addr: Address) -> (r: bool)
        requires
            old(self).wf(),
        ensures
            final(self).wf(),
            r == !old(self)@.contains(addr),
            final(self)@ == old(self)@.insert(addr),
            final(self).listing() == if r {
                old(self).listing().push(addr)
            } else {
                old(self).listing()
            },
    {
        match self.position_of(&addr) {
            Some(_) => {
                assert(self@ =~= self@.insert(addr));
                false
            },
            None => {
                self.addresses.push(addr);
                assert(self@ =~= old(self)@.insert(addr)) by {
                    let before = old(self).listing();
                    let after = before.push(addr);
                    assert forall|a: Address| after.contains(a) <==> before.contains(a) || a
                        == addr by {
                        if before.contains(a) {
                            let i = choose|i: int| 0 <= i < before.len() && before[i] == a;
                            assert(after[i] == a);
                        }
                        if a == addr {
                            assert(after[before.len() as int] == a);
                        }
                    }
                }
                true
            },
        }
    }

    /// Takes `addr` out of the set, and says whether it was a member. The
    /// member listed last takes its place in the listing.
    pub fn swap_remove(&mut self, addr: &Address) -> (r: bool)
        requires
            old(self).wf(),
        ensures
            final(self).wf(),
            r == old(self)@.contains(*addr),
            final(self)@ == old(self)@.remove(*addr),
            final(self).listing() == if r {
                old(self).listing().update(
                    old(self).listing().index_of(*addr),
                    old(self).listing().last(),
                ).drop_last()
            } else {
                old(self).listing()
            },
    {
        match self.position_of(addr) {
            Some(i) => {
                self.addresses.swap_remove(i);
                proof {
                    let before = old(self).listing();
                    let after = self.listing();
                    let last = before.len() - 1;
                    assert(before.index_of(*addr) == i);
                    assert forall|a: Address| after.contains(a) <==> before.contains(a) && a
                        != *addr by {
                        if after.contains(a) {
                            let j = choose|j: int| 0 <= j < after.len() && after[j] == a;
                            if j == i {
                                assert(before[last] == a);
                            } else {
                                assert(before[j] == a);
                            }
                        }
                        if before.contains(a) && a != *addr {
                            let j = choose|j: int| 0 <= j < before.len() && before[j] == a;
                            if j == last {
                                assert(after[i as int] == a);
                            } else {
                                assert(after[j] == a);
                            }
                        }
                    }
                    assert(self@ =~= old(self)@.remove(*addr));
                }
                true
            },
            None => {
                assert(self@ =~= self@.remove(*addr));
                false
            },
        }
    }
}

} // verus!
