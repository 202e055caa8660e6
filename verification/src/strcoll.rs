//! Small verified collections keyed by strings.
//!
//! The UI core keeps several association tables (pages by name, styles by
//! class, key bindings by action).  They are stored as entry vectors with
//! pairwise-distinct keys; their mathematical content is a `Map` from
//! character sequences to values, or a `Set` of character sequences.

use vstd::prelude::*;

verus! {

/// Distinctness of the keys of an entry sequence, compared as character
/// sequences.
pub open spec fn distinct_keys<V>(s: Seq<(String, V)>) -> bool {
    forall|i: int, j: int| 0 <= i < j < s.len() ==> s[i].0@ != s[j].0@
}

/// A finite map from strings to values.
#[derive(Debug)]
pub struct StrMap<V> {
    pub entries: Vec<(String, V)>,
}

impl<V> View for StrMap<V> {
    type V = Map<Seq<char>, V>;

    open spec fn view(&self) -> Map<Seq<char>, V> {
        StrMap::<V>::entries_map(self.entries@)
    }
}

impl<V> StrMap<V> {
    /// The map denoted by an entry sequence; a later entry overrides an
    /// earlier one with the same key.
    pub open spec fn entries_map(s: Seq<(String, V)>) -> Map<Seq<char>, V>
        decreases s.len(),
    {
        if s.len() == 0 {
            Map::empty()
        } else {
            Self::entries_map(s.drop_last()).insert(s.last().0@, s.last().1)
        }
    }

    /// The entry sequence itself, for callers that walk the table.
    pub open spec fn kv(self) -> Seq<(String, V)> {
        self.entries@
    }

    pub open spec fn wf(self) -> bool {
        distinct_keys(self.entries@)
    }

    /// Every key of the map comes from some entry.
    pub proof fn lemma_dom_to_entry(s: Seq<(String, V)>, k: Seq<char>)
        requires
            Self::entries_map(s).contains_key(k),
        ensures
            exists|i: int| 0 <= i < s.len() && #[trigger] s[i].0@ == k,
        decreases s.len(),
    {
        if s.len() > 0 {
            if s.last().0@ == k {
                assert(s[s.len() - 1].0@ == k);
            } else {
                Self::lemma_dom_to_entry(s.drop_last(), k);
                let i = choose|i: int| 0 <= i < s.drop_last().len() && #[trigger] s.drop_last()[i].0@ == k;
                assert(s[i].0@ == k);
            }
        }
    }

    /// With distinct keys, each entry gives the value of the map at its key.
    pub proof fn lemma_entry_to_value(s: Seq<(String, V)>, i: int)
        requires
            distinct_keys(s),
            0 <= i < s.len(),
        ensures
            Self::entries_map(s).contains_key(s[i].0@),
            Self::entries_map(s)[s[i].0@] == s[i].1,
        decreases s.len(),
    {
        if i == s.len() - 1 {
        } else {
            assert(distinct_keys(s.drop_last())) by {
                assert(forall|p: int, q: int|
                    0 <= p < q < s.drop_last().len() ==> s.drop_last()[p] == s[p] && s.drop_last()[q] == s[q]);
            }
            Self::lemma_entry_to_value(s.drop_last(), i);
            assert(s.drop_last()[i] == s[i]);
            assert(s[i].0@ != s.last().0@);
        }
    }

    /// Removing an entry removes exactly its key from the map.
    proof fn lemma_remove_entry(s: Seq<(String, V)>, i: int)
        requires
            distinct_keys(s),
            0 <= i < s.len(),
        ensures
            Self::entries_map(s.remove(i)) == Self::entries_map(s).remove(s[i].0@),
        decreases s.len(),
    {
        let k = s[i].0@;
        if i == s.len() - 1 {
            assert(s.remove(i) =~= s.drop_last());
            assert(!Self::entries_map(s.drop_last()).contains_key(k)) by {
                if Self::entries_map(s.drop_last()).contains_key(k) {
                    Self::lemma_dom_to_entry(s.drop_last(), k);
                    let j = choose|j: int|
                        0 <= j < s.drop_last().len() && #[trigger] s.drop_last()[j].0@ == k;
                    assert(s[j].0@ == k);
                }
            }
            assert(Self::entries_map(s.drop_last()) =~= Self::entries_map(s).remove(k));
        } else {
            assert(distinct_keys(s.drop_last())) by {
                assert(forall|p: int, q: int|
                    0 <= p < q < s.drop_last().len() ==> s.drop_last()[p] == s[p] && s.drop_last()[q] == s[q]);
            }
            Self::lemma_remove_entry(s.drop_last(), i);
            assert(s.remove(i).drop_last() =~= s.drop_last().remove(i));
            assert(s.remove(i).last() == s.last());
            assert(Self::entries_map(s.remove(i))
                == Self::entries_map(s.drop_last()).remove(k).insert(s.last().0@, s.last().1));
            assert(s.last().0@ != k);
            assert(Self::entries_map(s.drop_last()).remove(k).insert(s.last().0@, s.last().1)
                =~= Self::entries_map(s).remove(k));
        }
    }

    pub fn new() -> (m: Self)
        ensures
            m@ == Map::<Seq<char>, V>::empty(),
            m.wf(),
            m.kv().len() == 0,
    {
        StrMap { entries: Vec::new() }
    }

    /// Index of the entry holding `key`, if any.
    fn find(&self, key: &String) -> (r: Option<usize>)
        ensures
            match r {
                Some(i) => i < self.entries@.len() && self.entries@[i as int].0@ == key@,
                None => forall|i: int| 0 <= i < self.entries@.len() ==> self.entries@[i].0@ != key@,
            },
    {
        let n = self.entries.len();
        let mut i: usize = 0;
        while i < n
            invariant
                n == self.entries@.len(),
                i <= n,
                forall|j: int| 0 <= j < i ==> self.entries@[j].0@ != key@,
            decreases n - i,
        {
            if self.entries[i].0.eq(key) {
                return Some(i);
            }
            i = i + 1;
        }
        None
    }

    pub fn contains_key(&self, key: &String) -> (r: bool)
        requires
            self.wf(),
        ensures
            r == self@.contains_key(key@),
    {
        proof {
            if self@.contains_key(key@) {
                Self::lemma_dom_to_entry(self.entries@, key@);
            }
        }
        match self.find(key) {
            Some(i) => {
                proof {
                    Self::lemma_entry_to_value(self.entries@, i as int);
                }
                true
            },
            None => false,
        }
    }

    pub fn get<'a>(&'a self, key: &String) -> (r: Option<&'a V>)
        requires
            self.wf(),
        ensures
            match r {
                Some(v) => self@.contains_key(key@) && *v == self@[key@],
                None => !self@.contains_key(key@),
            },
    {
        proof {
            if self@.contains_key(key@) {
                Self::lemma_dom_to_entry(self.entries@, key@);
            }
        }
        match self.find(key) {
            Some(i) => {
                proof {
                    Self::lemma_entry_to_value(self.entries@, i as int);
                }
                Some(&self.entries[i].1)
            },
            None => None,
        }
    }

    /// Inserts `value` under `key`, overriding any earlier binding.
    pub fn insert(&mut self, key: String, value: V)
        requires
            old(self).wf(),
        ensures
            final(self).wf(),
            final(self)@ == old(self)@.insert(key@, value),
    {
        let ghost s0 = self.entries@;
        match self.find(&key) {
            Some(i) => {
                let ghost gi = i as int;
                proof {
                    Self::lemma_remove_entry(s0, gi);
                }
                self.entries.remove(i);
                proof {
                    assert forall|j: int| 0 <= j < self.entries@.len()
                        implies self.entries@[j].0@ != key@ by {
                        assert(self.entries@[j] == if j < gi { s0[j] } else { s0[j + 1] });
                    }
                    assert(distinct_keys(self.entries@)) by {
                        assert forall|p: int, q: int| 0 <= p < q < self.entries@.len()
                            implies self.entries@[p].0@ != self.entries@[q].0@ by {
                            assert(self.entries@[p] == if p < gi { s0[p] } else { s0[p + 1] });
                            assert(self.entries@[q] == if q < gi { s0[q] } else { s0[q + 1] });
                        }
                    }
                }
            },
            None => {},
        }
        let ghost s1 = self.entries@;
        self.entries.push((key, value));
        proof {
            assert(self.entries@.drop_last() =~= s1);
            assert(self.entries@.last() == (key, value));
            assert(Self::entries_map(self.entries@)
                == Self::entries_map(s1).insert(key@, value));
            assert(Self::entries_map(s1).insert(key@, value)
                =~= Self::entries_map(s0).insert(key@, value));
            assert(distinct_keys(self.entries@)) by {
                assert forall|p: int, q: int| 0 <= p < q < self.entries@.len()
                    implies self.entries@[p].0@ != self.entries@[q].0@ by {
                    if q == self.entries@.len() - 1 {
                        assert(self.entries@[p] == s1[p]);
                    } else {
                        assert(self.entries@[p] == s1[p]);
                        assert(self.entries@[q] == s1[q]);
                    }
                }
            }
        }
    }

    /// Removes the binding of `key`, returning its value if it was bound.
    pub fn remove(&mut self, key: &String) -> (r: Option<V>)
        requires
            old(self).wf(),
        ensures
            final(self).wf(),
            final(self)@ == old(self)@.remove(key@),
            r.is_some() == old(self)@.contains_key(key@),
            r matches Some(v) ==> v == old(self)@[key@],
    {
        proof {
            if self@.contains_key(key@) {
                Self::lemma_dom_to_entry(self.entries@, key@);
            }
        }
        match self.find(key) {
            Some(i) => {
                let ghost s0 = self.entries@;
                let ghost gi = i as int;
                proof {
                    Self::lemma_entry_to_value(s0, gi);
                    Self::lemma_remove_entry(s0, gi);
                }
                let e = self.entries.remove(i);
                proof {
                    assert(distinct_keys(self.entries@)) by {
                        assert forall|p: int, q: int| 0 <= p < q < self.entries@.len()
                            implies self.entries@[p].0@ != self.entries@[q].0@ by {
                            assert(self.entries@[p] == if p < gi { s0[p] } else { s0[p + 1] });
                            assert(self.entries@[q] == if q < gi { s0[q] } else { s0[q + 1] });
                        }
                    }
                }
                Some(e.1)
            },
            None => {
                proof {
                    assert(self@ =~= self@.remove(key@));
                }
                None
            },
        }
    }

    pub fn entry_count(&self) -> (r: usize)
        ensures
            r == self.kv().len(),
    {
        self.entries.len()
    }

    pub fn entry_at<'a>(&'a self, i: usize) -> (r: &'a (String, V))
        requires
            i < self.kv().len(),
        ensures
            *r == self.kv()[i as int],
    {
        &self.entries[i]
    }

    pub fn is_empty(&self) -> (r: bool)
        requires
            self.wf(),
        ensures
            r == (self@.dom() =~= Set::<Seq<char>>::empty()),
    {
        proof {
            if self.entries@.len() > 0 {
                Self::lemma_entry_to_value(self.entries@, 0);
            }
        }
        self.entries.len() == 0
    }
}

/// Distinctness of a string sequence, compared as character sequences.
pub open spec fn distinct_strings(s: Seq<String>) -> bool {
    forall|i: int, j: int| 0 <= i < j < s.len() ==> s[i]@ != s[j]@
}

/// A finite set of strings.
#[derive(Debug)]
pub struct StrSet {
    pub items: Vec<String>,
}

impl View for StrSet {
    type V = Set<Seq<char>>;

    open spec fn view(&self) -> Set<Seq<char>> {
        StrSet::items_set(self.items@)
    }
}

impl StrSet {
    pub open spec fn items_set(s: Seq<String>) -> Set<Seq<char>>
        decreases s.len(),
    {
        if s.len() == 0 {
            Set::empty()
        } else {
            Self::items_set(s.drop_last()).insert(s.last()@)
        }
    }

    pub open spec fn elems(self) -> Seq<String> {
        self.items@
    }

    pub open spec fn wf(self) -> bool {
        distinct_strings(self.items@)
    }

    /// Every member of the set comes from some element.
    pub proof fn lemma_set_to_elem(s: Seq<String>, k: Seq<char>)
        requires
            Self::items_set(s).contains(k),
        ensures
            exists|i: int| 0 <= i < s.len() && #[trigger] s[i]@ == k,
        decreases s.len(),
    {
        if s.len() > 0 {
            if s.last()@ == k {
                assert(s[s.len() - 1]@ == k);
            } else {
                Self::lemma_set_to_elem(s.drop_last(), k);
                let i = choose|i: int| 0 <= i < s.drop_last().len() && #[trigger] s.drop_last()[i]@ == k;
                assert(s[i]@ == k);
            }
        }
    }

    /// Every element is a member of the set.
    pub proof fn lemma_elem_to_set(s: Seq<String>, i: int)
        requires
            0 <= i < s.len(),
        ensures
            Self::items_set(s).contains(s[i]@),
        decreases s.len(),
    {
        if i < s.len() - 1 {
            Self::lemma_elem_to_set(s.drop_last(), i);
            assert(s.drop_last()[i] == s[i]);
        }
    }

    pub fn new() -> (r: Self)
        ensures
            r@ == Set::<Seq<char>>::empty(),
            r.wf(),
            r.elems().len() == 0,
    {
        StrSet { items: Vec::new() }
    }

    pub fn contains(&self, key: &String) -> (r: bool)
        ensures
            r == self@.contains(key@),
    {
        proof {
            if self@.contains(key@) {
                Self::lemma_set_to_elem(self.items@, key@);
            }
        }
        let n = self.items.len();
        let mut i: usize = 0;
        while i < n
            invariant
                n == self.items@.len(),
                i <= n,
                forall|j: int| 0 <= j < i ==> self.items@[j]@ != key@,
            decreases n - i,
        {
            if self.items[i].eq(key) {
                proof {
                    Self::lemma_elem_to_set(self.items@, i as int);
                }
                return true;
            }
            i = i + 1;
        }
        false
    }

    /// Adds `key` to the set.
    pub fn insert(&mut self, key: String)
        requires
            old(self).wf(),
        ensures
            final(self).wf(),
            final(self)@ == old(self)@.insert(key@),
    {
        let ghost s0 = self.items@;
        if self.contains(&key) {
            proof {
                assert(self@ =~= self@.insert(key@));
            }
        } else {
            proof {
                if exists|j: int| 0 <= j < s0.len() && #[trigger] s0[j]@ == key@ {
                    let j = choose|j: int| 0 <= j < s0.len() && #[trigger] s0[j]@ == key@;
                    Self::lemma_elem_to_set(s0, j);
                    assert(false);
                }
            }
            self.items.push(key);
            proof {
                assert(self.items@.drop_last() =~= s0);
            }
        }
    }

    /// Removes every member.
    pub fn clear(&mut self)
        ensures
            final(self).wf(),
            final(self)@ == Set::<Seq<char>>::empty(),
            final(self).elems().len() == 0,
    {
        self.items.clear();
    }

    pub fn elem_count(&self) -> (r: usize)
        ensures
            r == self.elems().len(),
    {
        self.items.len()
    }

    pub fn elem_at<'a>(&'a self, i: usize) -> (r: &'a String)
        requires
            i < self.elems().len(),
        ensures
            *r == self.elems()[i as int],
            self@.contains(self.elems()[i as int]@),
    {
        proof {
            Self::lemma_elem_to_set(self.items@, i as int);
        }
        &self.items[i]
    }
}

impl Clone for StrSet {
    /// A clone denotes the same set.
    fn clone(&self) -> (r: Self)
        ensures
            r@ == self@,
            r.elems() == self.elems(),
            r.wf() == self.wf(),
    {
        let mut items: Vec<String> = Vec::new();
        let n = self.items.len();
        let mut i: usize = 0;
        while i < n
            invariant
                n == self.items@.len(),
                i <= n,
                items@.len() == i,
                forall|j: int| 0 <= j < i ==> items@[j] == self.items@[j],
            decreases n - i,
        {
            items.push(self.items[i].clone());
            i = i + 1;
        }
        proof {
            assert(items@ =~= self.items@);
        }
        StrSet { items }
    }
}

} // verus!
