use vstd::prelude::*;

use crate::address::Address;

verus! {

/// Whether no address occurs twice among the keys of `s`.
pub open spec fn keys_distinct<V>(s: Seq<(Address, V)>) -> bool {
    forall|i: int, j: int| 0 <= i < s.len() && 0 <= j < s.len() && i != j ==> s[i].0 != s[j].0
}

/// Whether `a` is the key of some entry of `s`.
pub open spec fn has_key<V>(s: Seq<(Address, V)>, a: Address) -> bool {
    exists|i: int| 0 <= i < s.len() && s[i].0 == a
}

/// The map that a list of entries with distinct keys stands for.
pub open spec fn entries_map<V>(s: Seq<(Address, V)>) -> Map<Address, V> {
    Map::new(
        |a: Address| has_key(s, a),
        |a: Address| s[choose|i: int| 0 <= i < s.len() && s[i].0 == a].1,
    )
}

/// The entry at index `i` of a list with distinct keys is what the map holds for its key.
pub proof fn lemma_entries_map_at<V>(s: Seq<(Address, V)>, i: int)
    requires
        keys_distinct(s),
        0 <= i < s.len(),
    ensures
        entries_map(s).dom().contains(s[i].0),
        entries_map(s)[s[i].0] == s[i].1,
{
    let a = s[i].0;
    assert(has_key(s, a));
    let j = choose|j: int| 0 <= j < s.len() && s[j].0 == a;
    assert(j == i);
}

/// A finite map from addresses to values, stored as a list of entries whose keys
/// are distinct.
#[derive(Clone)]
pub struct AddressMap<V> {
    entries: Vec<(Address, V)>,
}

impl<V> View for AddressMap<V> {
    type V = Map<Address, V>;

    closed spec fn view(&self) -> Map<Address, V> {
        entries_map(self.entries@)
    }
}

impl<V: Copy> AddressMap<V> {
    /// The well-formedness of the map: no address is stored twice.
    pub closed spec fn wf(&self) -> bool {
        keys_distinct(self.entries@)
    }

    /// The empty map.
    pub fn new() -> (m: Self)
        ensures
            m.wf(),
            m@ == Map::<Address, V>::empty(),
    {
        let m = AddressMap { entries: Vec::new() };
        assert(m@ =~= Map::<Address, V>::empty());
        m
    }

    /// Index of the entry whose key is `a`, if there is one.
    fn find(&self, a: &Address) -> (r: Option<usize>)
        requires
            self.wf(),
        ensures
            match r {
                Some(i) => i < self.entries@.len() && self.entries@[i as int].0 == *a,
                None => !has_key(self.entries@, *a),
            },
    {
        let mut i: usize = 0;
        while i < self.entries.len()
            invariant
                i <= self.entries@.len(),
                forall|j: int| 0 <= j < i ==> self.entries@[j].0 != *a,
            decreases self.entries@.len() - i,
        {
            if self.entries[i].0.same_as(a) {
                return Some(i);
            }
            i = i + 1;
        }
        None
    }

    /// The value stored for `a`, if any.
    pub fn get(&self, a: &Address) -> (r: Option<V>)
        requires
            self.wf(),
        ensures
            r == (if self@.dom().contains(*a) { Some(self@[*a]) } else { None::<V> }),
    {
        match self.find(a) {
            Some(i) => {
                proof {
                    lemma_entries_map_at(self.entries@, i as int);
                }
                Some(self.entries[i].1)
            },
            None => None,
        }
    }

    /// Stores `v` for `a`, replacing what was stored for `a` before.
    pub fn insert(&mut self, a: Address, v: V)
        requires
            old(self).wf(),
        ensures
            final(self).wf(),
            final(self)@ == old(self)@.insert(a, v),
    {
        let ghost s0 = self.entries@;
        match self.find(&a) {
            Some(i) => {
                self.entries[i] = (a, v);
                let ghost s1 = self.entries@;
                assert(s1 == s0.update(i as int, (a, v)));
                assert(keys_distinct(s1));
                assert forall|k: Address| #[trigger] has_key(s1, k) == (has_key(s0, k) || k == a) by {
                    if has_key(s0, k) {
                        let j = choose|j: int| 0 <= j < s0.len() && s0[j].0 == k;
                        assert(s1[j].0 == k);
                    }
                    if has_key(s1, k) {
                        let j = choose|j: int| 0 <= j < s1.len() && s1[j].0 == k;
                        if j != i {
                            assert(s0[j].0 == k);
                        }
                    }
                }
                assert forall|k: Address| #[trigger] has_key(s1, k) implies entries_map(s1)[k]
                    == old(self)@.insert(a, v)[k] by {
                    let j = choose|j: int| 0 <= j < s1.len() && s1[j].0 == k;
                    lemma_entries_map_at(s1, j);
                    if j != i {
                        lemma_entries_map_at(s0, j);
                    }
                }
                assert(self@ =~= old(self)@.insert(a, v));
            },
            None => {
                self.entries.push((a, v));
                let ghost s1 = self.entries@;
                assert(s1 == s0.push((a, v)));
                assert(keys_distinct(s1));
                assert forall|k: Address| #[trigger] has_key(s1, k) == (has_key(s0, k) || k == a) by {
                    if has_key(s0, k) {
                        let j = choose|j: int| 0 <= j < s0.len() && s0[j].0 == k;
                        assert(s1[j].0 == k);
                    }
                    if k == a {
                        assert(s1[s0.len() as int].0 == k);
                    }
                }
                assert forall|k: Address| #[trigger] has_key(s1, k) implies entries_map(s1)[k]
                    == old(self)@.insert(a, v)[k] by {
                    let j = choose|j: int| 0 <= j < s1.len() && s1[j].0 == k;
                    lemma_entries_map_at(s1, j);
                    if j < s0.len() {
                        lemma_entries_map_at(s0, j);
                    }
                }
                assert(self@ =~= old(self)@.insert(a, v));
            },
        }
    }

    /// Drops what is stored for `a`, if anything.
    pub fn remove(&mut self, a: &Address)
        requires
            old(self).wf(),
        ensures
            final(self).wf(),
            final(self)@ == old(self)@.remove(*a),
    {
        let ghost s0 = self.entries@;
        match self.find(a) {
            Some(i) => {
                let _ = self.entries.remove(i);
                let ghost s1 = self.entries@;
                assert(s1 == s0.remove(i as int));
                assert forall|j: int| 0 <= j < s1.len() implies #[trigger] s1[j] == (if j < i {
                    s0[j]
                } else {
                    s0[j + 1]
                }) by {}
                assert(keys_distinct(s1)) by {
                    assert forall|x: int, y: int|
                        0 <= x < s1.len() && 0 <= y < s1.len() && x != y implies #[trigger] s1[x].0
                        != #[trigger] s1[y].0 by {
                        let x0 = if x < i { x } else { x + 1 };
                        let y0 = if y < i { y } else { y + 1 };
                        assert(s1[x] == s0[x0]);
                        assert(s1[y] == s0[y0]);
                    }
                }
                assert forall|k: Address| #[trigger] has_key(s1, k) == (has_key(s0, k) && k != *a) by {
                    if has_key(s0, k) && k != *a {
                        let j = choose|j: int| 0 <= j < s0.len() && s0[j].0 == k;
                        assert(j != i);
                        if j < i {
                            assert(s1[j].0 == k);
                        } else {
                            assert(s1[j - 1].0 == k);
                        }
                    }
                    if has_key(s1, k) {
                        let j = choose|j: int| 0 <= j < s1.len() && s1[j].0 == k;
                        let j0 = if j < i { j } else { j + 1 };
                        assert(s0[j0].0 == k);
                        assert(j0 != i);
                    }
                }
                assert forall|k: Address| #[trigger] has_key(s1, k) implies entries_map(s1)[k]
                    == old(self)@.remove(*a)[k] by {
                    let j = choose|j: int| 0 <= j < s1.len() && s1[j].0 == k;
                    let j0 = if j < i { j } else { j + 1 };
                    lemma_entries_map_at(s1, j);
                    lemma_entries_map_at(s0, j0);
                }
                assert(self@ =~= old(self)@.remove(*a));
            },
            None => {
                assert(self@ =~= old(self)@.remove(*a));
            },
        }
    }
}

} // verus!
