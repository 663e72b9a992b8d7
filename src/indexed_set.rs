use std::collections::HashMap;
use vstd::prelude::*;

verus! {

broadcast use vstd::std_specs::hash::group_hash_axioms;

/// The sequence left after "swap and pop" at slot `i`: the last element
/// moves into slot `i` and the sequence shrinks by one.
pub open spec fn swap_remove(s: Seq<u64>, i: int) -> Seq<u64> {
    if i == s.len() - 1 {
        s.drop_last()
    } else {
        s.drop_last().update(i, s.last())
    }
}

/// A dense array over a sparse reverse index: O(1) append, O(1) removal,
/// O(1) membership and count. No order of the members is kept.
pub struct IndexedSet {
    items: Vec<u64>,
    index: HashMap<u64, u64>,
}

impl View for IndexedSet {
    type V = Seq<u64>;

    closed spec fn view(&self) -> Seq<u64> {
        self.items@
    }
}

impl IndexedSet {
    /// The reverse index: each member to its slot in the array.
    pub closed spec fn positions(&self) -> Map<u64, u64> {
        self.index@
    }

    /// The array and the reverse index describe the same members, each once.
    pub open spec fn wf(&self) -> bool {
        &&& self@.len() <= u64::MAX
        &&& forall|i: int|
            0 <= i < self@.len() ==> #[trigger] self.positions().contains_key(self@[i])
                && self.positions()[self@[i]] == i
        &&& forall|k: u64| #[trigger]
            self.positions().contains_key(k) ==> self.positions()[k] < self@.len() && self@[self.positions()[k] as int] == k
    }

    /// A well-formed set holds no duplicate, and its members are exactly
    /// the keys of its reverse index.
    pub proof fn lemma_wf_members(&self)
        requires
            self.wf(),
        ensures
            self@.no_duplicates(),
            forall|k: u64| #[trigger] self@.contains(k) <==> self.positions().contains_key(k),
    {
        assert forall|k: u64| #[trigger] self@.contains(k) implies self.positions().contains_key(k) by {
            let i = choose|i: int| 0 <= i < self@.len() && self@[i] == k;
            assert(self.positions().contains_key(self@[i]));
        }
        assert forall|k: u64| self.positions().contains_key(k) implies #[trigger] self@.contains(k) by {
            assert(self@[self.positions()[k] as int] == k);
        }
        assert forall|i: int, j: int|
            0 <= i < self@.len() && 0 <= j < self@.len() && i != j implies self@[i] != self@[j] by {
            assert(self.positions().contains_key(self@[i]));
            assert(self.positions().contains_key(self@[j]));
        }
    }

    pub fn new() -> (r: Self)
        ensures
            r.wf(),
            r@ == Seq::<u64>::empty(),
    {
        IndexedSet { items: Vec::new(), index: HashMap::new() }
    }

    pub fn len(&self) -> (r: u64)
        requires
            self.wf(),
        ensures
            r == self@.len(),
    {
        self.items.len() as u64
    }

    pub fn contains(&self, k: u64) -> (r: bool)
        requires
            self.wf(),
        ensures
            r == self@.contains(k),
    {
        proof {
            self.lemma_wf_members();
        }
        self.index.contains_key(&k)
    }

    /// The member stored at slot `i`, if there is one.
    pub fn get(&self, i: u64) -> (r: Option<u64>)
        requires
            self.wf(),
        ensures
            i < self@.len() ==> r == Some(self@[i as int]),
            i >= self@.len() ==> r.is_none(),
    {
        if i < self.items.len() as u64 {
            Some(self.items[i as usize])
        } else {
            None
        }
    }

    /// Puts `k` in the slot after the last one.
    pub fn append(&mut self, k: u64)
        requires
            old(self).wf(),
            !old(self)@.contains(k),
            old(self)@.len() < u64::MAX,
        ensures
            final(self).wf(),
            final(self)@ == old(self)@.push(k),
            final(self)@.no_duplicates(),
            final(self)@.to_set() == old(self)@.to_set().insert(k),
    {
        proof {
            self.lemma_wf_members();
        }
        let n = self.items.len() as u64;
        self.items.push(k);
        self.index.insert(k, n);
        proof {
            assert forall|i: int| 0 <= i < self@.len() implies #[trigger] self.positions().contains_key(self@[i])
                && self.positions()[self@[i]] == i by {
                if i < n {
                    assert(old(self)@[i] != k);
                }
            }
            self.lemma_wf_members();
            assert(self@.to_set() =~= old(self)@.to_set().insert(k));
        }
    }

    /// Swap and pop: the last member takes the slot of `k`, and the array
    /// shrinks by one.
    pub fn remove(&mut self, k: u64)
        requires
            old(self).wf(),
            old(self)@.contains(k),
        ensures
            final(self).wf(),
            final(self)@ == swap_remove(old(self)@, old(self).positions()[k] as int),
            final(self)@.len() == old(self)@.len() - 1,
            final(self)@.no_duplicates(),
            forall|i: int| 0 <= i < final(self)@.len() ==> #[trigger] final(self).positions()[final(self)@[i]] == i,
            final(self)@.to_set() == old(self)@.to_set().remove(k),
    {
        proof {
            self.lemma_wf_members();
        }
        let i = *self.index.get(&k).unwrap();
        let last_pos = self.items.len() - 1;
        let last = self.items[last_pos];
        if (i as usize) != last_pos {
            self.items.set(i as usize, last);
            self.index.insert(last, i);
        }
        self.items.pop();
        self.index.remove(&k);
        proof {
            let s = old(self)@;
            assert(self@ =~= swap_remove(s, i as int));
            assert(s[i as int] == k);
            assert forall|j: int| 0 <= j < self@.len() implies #[trigger] self.positions().contains_key(self@[j])
                && self.positions()[self@[j]] == j by {
                assert(old(self).positions().contains_key(s[j]));
                if j == i {
                    assert(self@[j] == s.last());
                    assert(s.last() != k);
                } else {
                    assert(self@[j] == s[j]);
                    assert(s[j] != k);
                    assert(s[j] != s.last());
                }
            }
            assert forall|x: u64| #[trigger] self.positions().contains_key(x) implies
                self.positions()[x] < self@.len() && self@[self.positions()[x] as int] == x by {
                assert(old(self).positions().contains_key(x));
            }
            self.lemma_wf_members();
            assert(self@.to_set() =~= s.to_set().remove(k));
            assert forall|j: int| 0 <= j < self@.len() implies #[trigger] self.positions()[self@[j]] == j by {
                assert(self.positions().contains_key(self@[j]));
            }
        }
    }
}

} // verus!
