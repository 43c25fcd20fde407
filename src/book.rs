use vstd::prelude::*;
use crate::address::Address;

verus! {

/// What `map` says of `a`, where an identity without an entry has zero.
pub open spec fn amount_in(map: Map<Address, nat>, a: Address) -> nat {
    if map.contains_key(a) { map[a] } else { 0 }
}

/// A table of amounts keyed by identity; an identity without an entry holds zero.
pub struct AmountBook {
    entries: Vec<(Address, u128)>,
    ghost_map: Ghost<Map<Address, nat>>,
}

impl AmountBook {
    pub closed spec fn view(&self) -> Map<Address, nat> {
        self.ghost_map@
    }

    pub closed spec fn wf(&self) -> bool {
        &&& forall|i: int| 0 <= i < self.entries@.len() ==>
            #[trigger] self.ghost_map@.contains_key(self.entries@[i].0)
                && self.ghost_map@[self.entries@[i].0] == self.entries@[i].1 as nat
        &&& forall|a: Address| #[trigger] self.ghost_map@.contains_key(a) ==>
            exists|i: int| 0 <= i < self.entries@.len() && #[trigger] self.entries@[i].0 == a
        &&& forall|i: int, j: int| 0 <= i < j < self.entries@.len() ==>
            self.entries@[i].0 != self.entries@[j].0
    }

    pub fn new() -> (r: AmountBook)
        ensures
            r.wf(),
            r@ == Map::<Address, nat>::empty(),
    {
        AmountBook { entries: Vec::new(), ghost_map: Ghost(Map::empty()) }
    }

    fn find(&self, a: Address) -> (r: Option<usize>)
        requires
            self.wf(),
        ensures
            match r {
                Some(i) => i < self.entries@.len() && self.entries@[i as int].0 == a,
                None => !self@.contains_key(a),
            },
    {
        let mut i: usize = 0;
        while i < self.entries.len()
            invariant
                self.wf(),
                i <= self.entries@.len(),
                forall|j: int| 0 <= j < i ==> self.entries@[j].0 != a,
            decreases self.entries@.len() - i,
        {
            if self.entries[i].0 == a {
                return Some(i);
            }
            i = i + 1;
        }
        None
    }

    /// The amount held for `a`.
    pub fn get(&self, a: Address) -> (r: u128)
        requires
            self.wf(),
        ensures
            r as nat == amount_in(self@, a),
    {
        match self.find(a) {
            Some(i) => {
                assert(self.ghost_map@.contains_key(self.entries@[i as int].0));
                self.entries[i].1
            },
            None => 0,
        }
    }

    /// Sets the amount held for `a` to `v`.
    pub fn set(&mut self, a: Address, v: u128)
        requires
            old(self).wf(),
        ensures
            final(self).wf(),
            final(self)@ == old(self)@.insert(a, v as nat),
    {
        let ghost old_entries = self.entries@;
        let ghost new_map = self.ghost_map@.insert(a, v as nat);
        match self.find(a) {
            Some(i) => {
                self.entries.set(i, (a, v));
                proof {
                    assert forall|b: Address| #[trigger] new_map.contains_key(b) implies
                        exists|k: int| 0 <= k < self.entries@.len() && #[trigger] self.entries@[k].0 == b by {
                        if b == a {
                            assert(self.entries@[i as int].0 == b);
                        } else {
                            assert(old_entries.len() == self.entries@.len());
                            let k = choose|k: int| 0 <= k < old_entries.len() && #[trigger] old_entries[k].0 == b;
                            assert(self.entries@[k].0 == b);
                        }
                    }
                }
            },
            None => {
                self.entries.push((a, v));
                proof {
                    assert forall|b: Address| #[trigger] new_map.contains_key(b) implies
                        exists|k: int| 0 <= k < self.entries@.len() && #[trigger] self.entries@[k].0 == b by {
                        if b == a {
                            assert(self.entries@[old_entries.len() as int].0 == b);
                        } else {
                            let k = choose|k: int| 0 <= k < old_entries.len() && #[trigger] old_entries[k].0 == b;
                            assert(self.entries@[k].0 == b);
                        }
                    }
                    assert forall|k: int| 0 <= k < old_entries.len() implies
                        #[trigger] old_entries[k].0 != a by {
                        assert(self.ghost_map@.contains_key(old_entries[k].0));
                    }
                }
            },
        }
        self.ghost_map = Ghost(new_map);
        proof {
            assert forall|k: int| 0 <= k < self.entries@.len() implies
                #[trigger] self.ghost_map@.contains_key(self.entries@[k].0)
                    && self.ghost_map@[self.entries@[k].0] == self.entries@[k].1 as nat by {
                if k < old_entries.len() && old_entries[k].0 != a {
                    assert(self.entries@[k] == old_entries[k]);
                }
            }
            assert forall|k: int, l: int| 0 <= k < l < self.entries@.len() implies
                self.entries@[k].0 != self.entries@[l].0 by {
                if self.entries@[k].0 == a || self.entries@[l].0 == a {
                } else {
                    assert(self.entries@[k] == old_entries[k]);
                }
            }
        }
    }
}

/// A set of identities.
pub struct AddressSet {
    members: Vec<Address>,
}

impl AddressSet {
    pub closed spec fn view(&self) -> Set<Address> {
        Set::new(|a: Address| self.members@.contains(a))
    }

    pub fn new() -> (r: AddressSet)
        ensures
            r@ == Set::<Address>::empty(),
    {
        let r = AddressSet { members: Vec::new() };
        assert(r@ =~= Set::<Address>::empty());
        r
    }

    pub fn contains(&self, a: Address) -> (r: bool)
        ensures
            r == self@.contains(a),
    {
        let mut i: usize = 0;
        while i < self.members.len()
            invariant
                i <= self.members@.len(),
                forall|j: int| 0 <= j < i ==> self.members@[j] != a,
            decreases self.members@.len() - i,
        {
            if self.members[i] == a {
                assert(self.members@.contains(a));
                return true;
            }
            i = i + 1;
        }
        false
    }

    pub fn insert(&mut self, a: Address)
        ensures
            final(self)@ == old(self)@.insert(a),
    {
        let ghost before = self.members@;
        if !self.contains(a) {
            self.members.push(a);
            assert forall|b: Address| #[trigger] self.members@.contains(b) <==> before.contains(b) || b == a by {
                if before.contains(b) {
                    let k = choose|k: int| 0 <= k < before.len() && before[k] == b;
                    assert(self.members@[k] == b);
                }
                if b == a {
                    assert(self.members@[before.len() as int] == b);
                }
            }
        }
        assert(self@ =~= old(self)@.insert(a));
    }
}

} // verus!
