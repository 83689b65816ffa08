//! A set of versions: what an object store lists.

use crate::refreshable_versions::Snapshot;
use crate::version::Version;
use vstd::prelude::*;
use vstd::set_lib::lemma_subset_equality;

verus! {

/// A finite set of versions.
#[derive(Clone, Debug)]
pub struct VersionSet {
    items: Vec<Version>,
}

impl View for VersionSet {
    type V = Set<Version>;

    closed spec fn view(&self) -> Set<Version> {
        self.items@.to_set()
    }
}

impl VersionSet {
    /// Whether the set is in order: it keeps each of its versions once.
    pub closed spec fn wf(&self) -> bool {
        self.items@.no_duplicates()
    }

    /// The set is finite, and as large as the list it keeps.
    proof fn lemma_size(&self)
        requires
            self.wf(),
        ensures
            self@.finite(),
            self@.len() == self.items@.len(),
    {
        vstd::seq_lib::seq_to_set_is_finite(self.items@);
        self.items@.unique_seq_to_set();
    }

    /// The empty set.
    pub fn new() -> (set: VersionSet)
        ensures
            set.wf(),
            set@ == Set::<Version>::empty(),
    {
        let set = VersionSet { items: Vec::new() };
        assert(set@ =~= Set::<Version>::empty());
        set
    }

    /// Whether `ver` is in the set.
    pub fn contains(&self, ver: &Version) -> (r: bool)
        ensures
            r == self@.contains(*ver),
    {
        let mut i: usize = 0;
        while i < self.items.len()
            invariant
                0 <= i <= self.items@.len(),
                forall|k: int| 0 <= k < i ==> self.items@[k] != *ver,
            decreases self.items@.len() - i,
        {
            if self.items[i] == *ver {
                return true;
            }
            i = i + 1;
        }
        false
    }

    /// Puts `ver` into the set and says whether it was new.
    pub fn insert(&mut self, ver: Version) -> (added: bool)
        requires
            old(self).wf(),
        ensures
            final(self).wf(),
            final(self)@ == old(self)@.insert(ver),
            added == !old(self)@.contains(ver),
    {
        if self.contains(&ver) {
            assert(self@ =~= old(self)@.insert(ver));
            false
        } else {
            self.items.push(ver);
            proof {
                let before = old(self).items@;
                assert(self.items@ == before.push(ver));
                assert forall|v: Version| self.items@.contains(v) <==> before.contains(v) || v
                    == ver by {
                    if before.contains(v) {
                        let i = choose|i: int| 0 <= i < before.len() && before[i] == v;
                        assert(self.items@[i] == v);
                    }
                    if v == ver {
                        assert(self.items@[before.len() as int] == v);
                    }
                }
                assert(self@ =~= old(self)@.insert(ver));
            }
            true
        }
    }

    /// How many versions the set holds.
    pub fn len(&self) -> (n: usize)
        requires
            self.wf(),
        ensures
            self@.finite(),
            n == self@.len(),
    {
        proof {
            self.lemma_size();
        }
        self.items.len()
    }

    /// Whether the set is empty.
    pub fn is_empty(&self) -> (r: bool)
        ensures
            r == (self@ == Set::<Version>::empty()),
    {
        let r = self.items.len() == 0;
        proof {
            if r {
                assert(self@ =~= Set::<Version>::empty());
            } else {
                assert(self@.contains(self.items@[0]));
            }
        }
        r
    }

    /// The versions of the set, each once, in no order that means anything.
    pub fn to_vec(&self) -> (list: Vec<Version>)
        requires
            self.wf(),
        ensures
            list@.no_duplicates(),
            list@.to_set() == self@,
    {
        self.items.clone()
    }

    /// Whether two sets hold the same versions.
    pub fn equals(&self, other: &VersionSet) -> (r: bool)
        requires
            self.wf(),
            other.wf(),
        ensures
            r == (self@ == other@),
    {
        proof {
            self.lemma_size();
            other.lemma_size();
        }
        if self.items.len() != other.items.len() {
            return false;
        }
        let mut i: usize = 0;
        while i < self.items.len()
            invariant
                0 <= i <= self.items@.len(),
                forall|k: int| 0 <= k < i ==> other@.contains(self.items@[k]),
            decreases self.items@.len() - i,
        {
            if !other.contains(&self.items[i]) {
                proof {
                    assert(self@.contains(self.items@[i as int]));
                }
                return false;
            }
            i = i + 1;
        }
        proof {
            assert(self@.subset_of(other@)) by {
                assert forall|v: Version| self@.contains(v) implies other@.contains(v) by {
                    let k = choose|k: int| 0 <= k < self.items@.len() && self.items@[k] == v;
                    assert(other@.contains(self.items@[k]));
                }
            }
            lemma_subset_equality(self@, other@);
        }
        true
    }
}

impl Default for VersionSet {
    fn default() -> (set: VersionSet)
        ensures
            set.wf(),
            set@ == Set::<Version>::empty(),
    {
        VersionSet::new()
    }
}

impl Snapshot for VersionSet {
    open spec fn valid(&self) -> bool {
        self.wf()
    }

    open spec fn same(&self, other: &Self) -> bool {
        self@ == other@
    }

    open spec fn size(&self) -> nat {
        self@.len()
    }

    fn same_as(&self, other: &Self) -> (r: bool) {
        self.equals(other)
    }

    fn len(&self) -> (n: usize) {
        VersionSet::len(self)
    }
}

} // verus!
