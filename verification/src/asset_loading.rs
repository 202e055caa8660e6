//! Asset loading groups.
//!
//! Assets load in named groups; a group is loaded once none of its assets
//! is still pending.  The tracker keeps, per group, the pending asset
//! handles, and per asset, the groups waiting on it; the two tables index
//! each other.

use vstd::prelude::*;
use crate::strcoll::{StrMap, StrSet};

verus! {

/// A finite set of asset handles.
#[derive(Debug)]
pub struct IdSet {
    pub items: Vec<u64>,
}

impl View for IdSet {
    type V = Set<u64>;

    open spec fn view(&self) -> Set<u64> {
        IdSet::items_set(self.items@)
    }
}

impl IdSet {
    pub open spec fn items_set(s: Seq<u64>) -> Set<u64>
        decreases s.len(),
    {
        if s.len() == 0 {
            Set::empty()
        } else {
            Self::items_set(s.drop_last()).insert(s.last())
        }
    }

    pub open spec fn wf(self) -> bool {
        forall|i: int, j: int| 0 <= i < j < self.items@.len() ==> self.items@[i] != self.items@[j]
    }

    pub proof fn lemma_set_to_elem(s: Seq<u64>, k: u64)
        requires
            Self::items_set(s).contains(k),
        ensures
            exists|i: int| 0 <= i < s.len() && #[trigger] s[i] == k,
        decreases s.len(),
    {
        if s.len() > 0 {
            if s.last() == k {
                assert(s[s.len() - 1] == k);
            } else {
                Self::lemma_set_to_elem(s.drop_last(), k);
                let i = choose|i: int| 0 <= i < s.drop_last().len() && #[trigger] s.drop_last()[i] == k;
                assert(s[i] == k);
            }
        }
    }

    pub proof fn lemma_elem_to_set(s: Seq<u64>, i: int)
        requires
            0 <= i < s.len(),
        ensures
            Self::items_set(s).contains(s[i]),
        decreases s.len(),
    {
        if i < s.len() - 1 {
            Self::lemma_elem_to_set(s.drop_last(), i);
            assert(s.drop_last()[i] == s[i]);
        }
    }

    pub fn new() -> (r: Self)
        ensures
            r@ == Set::<u64>::empty(),
            r.wf(),
    {
        IdSet { items: Vec::new() }
    }

    pub fn contains(&self, k: u64) -> (r: bool)
        ensures
            r == self@.contains(k),
    {
        proof {
            if self@.contains(k) {
                Self::lemma_set_to_elem(self.items@, k);
            }
        }
        let n = self.items.len();
        let mut i: usize = 0;
        while i < n
            invariant
                n == self.items@.len(),
                i <= n,
                forall|j: int| 0 <= j < i ==> self.items@[j] != k,
            decreases n - i,
        {
            if self.items[i] == k {
                proof {
                    Self::lemma_elem_to_set(self.items@, i as int);
                }
                return true;
            }
            i = i + 1;
        }
        false
    }

    /// Adds a handle to the set.
    pub fn insert(&mut self, k: u64)
        requires
            old(self).wf(),
        ensures
            final(self).wf(),
            final(self)@ == old(self)@.insert(k),
    {
        let ghost s0 = self.items@;
        if self.contains(k) {
            proof {
                assert(self@ =~= self@.insert(k));
            }
        } else {
            proof {
                if exists|j: int| 0 <= j < s0.len() && #[trigger] s0[j] == k {
                    let j = choose|j: int| 0 <= j < s0.len() && #[trigger] s0[j] == k;
                    Self::lemma_elem_to_set(s0, j);
                    assert(false);
                }
            }
            self.items.push(k);
            proof {
                assert(self.items@.drop_last() =~= s0);
            }
        }
    }

    /// Drops a handle from the set.
    pub fn remove(&mut self, k: u64)
        requires
            old(self).wf(),
        ensures
            final(self).wf(),
            final(self)@ == old(self)@.remove(k),
    {
        proof {
            if self@.contains(k) {
                Self::lemma_set_to_elem(self.items@, k);
            }
        }
        let ghost s0 = self.items@;
        let n = self.items.len();
        let mut i: usize = 0;
        while i < n
            invariant
                n == self.items@.len(),
                self.items@ == s0,
                s0 == old(self).items@,
                i <= n,
                forall|p: int, q: int| 0 <= p < q < s0.len() ==> s0[p] != s0[q],
                forall|j: int| 0 <= j < i ==> self.items@[j] != k,
            decreases n - i,
        {
            if self.items[i] == k {
                let ghost gi = i as int;
                proof {
                    Self::lemma_remove_elem(s0, gi);
                }
                self.items.remove(i);
                proof {
                    assert(self.items@ =~= s0.remove(gi));
                    assert(s0[gi] == k);
                    assert(Self::items_set(s0.remove(gi)) == Self::items_set(s0).remove(k));
                    assert(self@ == Self::items_set(self.items@));
                    assert(self@ == Self::items_set(s0).remove(k));
                    assert forall|p: int, q: int| 0 <= p < q < self.items@.len()
                        implies self.items@[p] != self.items@[q] by {
                        assert(self.items@[p] == if p < gi { s0[p] } else { s0[p + 1] });
                        assert(self.items@[q] == if q < gi { s0[q] } else { s0[q + 1] });
                    }
                }
                return ;
            }
            i = i + 1;
        }
        proof {
            assert(!self@.contains(k));
            assert(self@ =~= self@.remove(k));
        }
    }

    proof fn lemma_remove_elem(s: Seq<u64>, i: int)
        requires
            0 <= i < s.len(),
            forall|p: int, q: int| 0 <= p < q < s.len() ==> s[p] != s[q],
        ensures
            Self::items_set(s.remove(i)) == Self::items_set(s).remove(s[i]),
        decreases s.len(),
    {
        if i == s.len() - 1 {
            assert(s.remove(i) =~= s.drop_last());
            assert(!Self::items_set(s.drop_last()).contains(s[i])) by {
                if Self::items_set(s.drop_last()).contains(s[i]) {
                    Self::lemma_set_to_elem(s.drop_last(), s[i]);
                    let j = choose|j: int|
                        0 <= j < s.drop_last().len() && #[trigger] s.drop_last()[j] == s[i];
                    assert(s[j] == s[i]);
                }
            }
            assert(Self::items_set(s.drop_last()) =~= Self::items_set(s).remove(s[i]));
        } else {
            assert forall|p: int, q: int| 0 <= p < q < s.drop_last().len()
                implies s.drop_last()[p] != s.drop_last()[q] by {
                assert(s.drop_last()[p] == s[p]);
                assert(s.drop_last()[q] == s[q]);
            }
            Self::lemma_remove_elem(s.drop_last(), i);
            assert(s.remove(i).drop_last() =~= s.drop_last().remove(i));
            assert(s.remove(i).last() == s.last());
            assert(s.drop_last()[i] == s[i]);
            assert(s.last() != s[i]);
            assert(Self::items_set(s.drop_last()).remove(s[i]).insert(s.last())
                =~= Self::items_set(s).remove(s[i]));
        }
    }

    pub fn is_empty(&self) -> (r: bool)
        requires
            self.wf(),
        ensures
            r == (self@ =~= Set::<u64>::empty()),
    {
        proof {
            if self.items@.len() > 0 {
                Self::lemma_elem_to_set(self.items@, 0);
            }
        }
        self.items.len() == 0
    }
}

/// The groups waiting on each asset; a later entry overrides an earlier
/// equal-keyed one.
pub open spec fn state_keys(s: Seq<(u64, StrSet)>, id: u64) -> Set<Seq<char>>
    decreases s.len(),
{
    if s.len() == 0 {
        Set::empty()
    } else if s.last().0 == id {
        s.last().1@
    } else {
        state_keys(s.drop_last(), id)
    }
}

/// The tracker of loading groups.
#[derive(Debug)]
pub struct LoadingStateGroups {
    pub groups: StrMap<IdSet>,
    pub loading_states: Vec<(u64, StrSet)>,
}

impl LoadingStateGroups {
    /// Whether group `k` still waits on asset `id`.
    pub open spec fn pending(self, k: Seq<char>, id: u64) -> bool {
        self.groups@.contains_key(k) && self.groups@[k]@.contains(id)
    }

    pub open spec fn wf(self) -> bool {
        &&& self.groups.wf()
        &&& forall|k: Seq<char>| self.groups@.contains_key(k) ==> (#[trigger] self.groups@[k]).wf()
        &&& forall|i: int, j: int|
            0 <= i < j < self.loading_states@.len() ==> self.loading_states@[i].0
                != self.loading_states@[j].0
        &&& forall|i: int|
            0 <= i < self.loading_states@.len() ==> (#[trigger] self.loading_states@[i].1).wf()
    }

    /// The two tables index each other: a group waits on an asset exactly
    /// when the asset lists the group.
    pub open spec fn indexed(self) -> bool {
        forall|k: Seq<char>, id: u64|
            #![trigger state_keys(self.loading_states@, id).contains(k)]
            #![trigger self.pending(k, id)]
            state_keys(self.loading_states@, id).contains(k) <==> self.pending(k, id)
    }

    pub fn new() -> (r: Self)
        ensures
            r.wf(),
            r.indexed(),
            r.groups@ == Map::<Seq<char>, IdSet>::empty(),
            r.loading_states@.len() == 0,
    {
        let r = LoadingStateGroups { groups: StrMap::new(), loading_states: Vec::new() };
        proof {
            assert forall|k: Seq<char>, id: u64|
                #![trigger state_keys(r.loading_states@, id).contains(k)]
                #![trigger r.pending(k, id)]
                state_keys(r.loading_states@, id).contains(k) <==> r.pending(k, id) by {
                assert(!state_keys(r.loading_states@, id).contains(k));
                assert(!r.pending(k, id));
            }
        }
        r
    }

    /// Whether a group's assets are all loaded; a group never started
    /// counts as loaded.
    pub fn is_loaded(&self, key: String) -> (r: bool)
        requires
            self.wf(),
        ensures
            r == (forall|id: u64| !self.pending(key@, id)),
    {
        let r = match self.groups.get(&key) {
            Some(group) => group.is_empty(),
            None => true,
        };
        proof {
            if r {
                assert forall|id: u64| !self.pending(key@, id) by {}
            } else {
                assert(self.groups@.contains_key(key@));
                assert(!(self.groups@[key@]@ =~= Set::<u64>::empty()));
                let w = choose|w: u64| self.groups@[key@]@.contains(w);
                assert(self.pending(key@, w));
            }
        }
        r
    }

    /// Index of the entry tracking `id`, if any.
    fn state_index(&self, id: u64) -> (r: Option<usize>)
        ensures
            match r {
                Some(i) => i < self.loading_states@.len() && self.loading_states@[i as int].0 == id,
                None => forall|j: int|
                    0 <= j < self.loading_states@.len() ==> self.loading_states@[j].0 != id,
            },
    {
        let n = self.loading_states.len();
        let mut i: usize = 0;
        while i < n
            invariant
                n == self.loading_states@.len(),
                i <= n,
                forall|j: int| 0 <= j < i ==> self.loading_states@[j].0 != id,
            decreases n - i,
        {
            if self.loading_states[i].0 == id {
                return Some(i);
            }
            i = i + 1;
        }
        None
    }

    proof fn lemma_state_at(s: Seq<(u64, StrSet)>, i: int)
        requires
            0 <= i < s.len(),
            forall|p: int, q: int| 0 <= p < q < s.len() ==> s[p].0 != s[q].0,
        ensures
            state_keys(s, s[i].0) == s[i].1@,
        decreases s.len(),
    {
        if i < s.len() - 1 {
            assert(s.last().0 != s[i].0);
            assert forall|p: int, q: int| 0 <= p < q < s.drop_last().len()
                implies s.drop_last()[p].0 != s.drop_last()[q].0 by {
                assert(s.drop_last()[p] == s[p]);
                assert(s.drop_last()[q] == s[q]);
            }
            Self::lemma_state_at(s.drop_last(), i);
            assert(s.drop_last()[i] == s[i]);
        }
    }

    proof fn lemma_state_absent(s: Seq<(u64, StrSet)>, id: u64)
        requires
            forall|p: int| 0 <= p < s.len() ==> s[p].0 != id,
        ensures
            state_keys(s, id) == Set::<Seq<char>>::empty(),
        decreases s.len(),
    {
        if s.len() > 0 {
            assert(forall|p: int| 0 <= p < s.drop_last().len() ==> s.drop_last()[p] == s[p]);
            Self::lemma_state_absent(s.drop_last(), id);
        }
    }

    proof fn lemma_state_remove(s: Seq<(u64, StrSet)>, i: int)
        requires
            0 <= i < s.len(),
            forall|p: int, q: int| 0 <= p < q < s.len() ==> s[p].0 != s[q].0,
        ensures
            forall|id: u64|
                #![trigger state_keys(s.remove(i), id)]
                state_keys(s.remove(i), id) == if id == s[i].0 {
                    Set::<Seq<char>>::empty()
                } else {
                    state_keys(s, id)
                },
        decreases s.len(),
    {
        assert forall|id: u64|
            #![trigger state_keys(s.remove(i), id)]
            state_keys(s.remove(i), id) == if id == s[i].0 {
                Set::<Seq<char>>::empty()
            } else {
                state_keys(s, id)
            } by {
            if i == s.len() - 1 {
                assert(s.remove(i) =~= s.drop_last());
                if id == s[i].0 {
                    assert forall|p: int| 0 <= p < s.drop_last().len()
                        implies s.drop_last()[p].0 != id by {
                        assert(s.drop_last()[p] == s[p]);
                    }
                    Self::lemma_state_absent(s.drop_last(), id);
                }
            } else {
                assert forall|p: int, q: int| 0 <= p < q < s.drop_last().len()
                    implies s.drop_last()[p].0 != s.drop_last()[q].0 by {
                    assert(s.drop_last()[p] == s[p]);
                    assert(s.drop_last()[q] == s[q]);
                }
                Self::lemma_state_remove(s.drop_last(), i);
                assert(s.remove(i).drop_last() =~= s.drop_last().remove(i));
                assert(s.remove(i).last() == s.last());
                assert(s.drop_last()[i] == s[i]);
                assert(state_keys(s.drop_last().remove(i), id) == if id == s[i].0 {
                    Set::<Seq<char>>::empty()
                } else {
                    state_keys(s.drop_last(), id)
                });
                assert(s.remove(i).len() > 0);
                assert(state_keys(s.remove(i), id) == if s.remove(i).last().0 == id {
                    s.remove(i).last().1@
                } else {
                    state_keys(s.remove(i).drop_last(), id)
                });
            }
        }
    }

    /// Starts tracking asset `id` in group `key`: the group gains the
    /// asset and the asset lists the group.
    pub fn add_asset(&mut self, key: String, id: u64)
        requires
            old(self).wf(),
            old(self).indexed(),
        ensures
            final(self).wf(),
            final(self).indexed(),
            forall|k: Seq<char>, id2: u64|
                #![trigger final(self).pending(k, id2)]
                final(self).pending(k, id2) == (old(self).pending(k, id2) || (k == key@ && id2
                    == id)),
    {
        let ghost self0 = *self;
        let ghost gkey = key@;
        let mut group = match self.groups.remove(&key) {
            Some(g) => g,
            None => IdSet::new(),
        };
        group.insert(id);
        let ghost ggroup = group;
        self.groups.insert(key.clone(), group);
        proof {
            assert forall|k: Seq<char>, id2: u64|
                #![trigger self.pending(k, id2)]
                self.pending(k, id2) == (self0.pending(k, id2) || (k == gkey && id2 == id)) by {
                if k == gkey {
                    assert(self.groups@[k] == ggroup);
                } else {
                    assert(self.groups@.contains_key(k) == self0.groups@.contains_key(k));
                    if self.groups@.contains_key(k) {
                        assert(self.groups@[k] == self0.groups@[k]);
                    }
                }
            }
        }
        let ghost mid_states = self.loading_states@;
        let found = self.state_index(id);
        match found {
            Some(idx) => {
                let mut entry = self.loading_states.remove(idx);
                entry.1.insert(key);
                let ghost s1 = self.loading_states@;
                let ghost gi = idx as int;
                self.loading_states.push(entry);
                proof {
                    assert(s1 =~= mid_states.remove(gi));
                    Self::lemma_state_remove(mid_states, gi);
                    Self::lemma_state_at(mid_states, gi);
                    assert(self.loading_states@.drop_last() =~= s1);
                    assert(self.loading_states@.last().0 == id);
                    assert(self.loading_states@.last().1@ == mid_states[gi].1@.insert(gkey));
                    assert forall|id2: u64|
                        #![trigger state_keys(self.loading_states@, id2)]
                        state_keys(self.loading_states@, id2) == if id2 == id {
                            state_keys(mid_states, id2).insert(gkey)
                        } else {
                            state_keys(mid_states, id2)
                        } by {
                        if id2 == id {
                            assert(state_keys(mid_states, id) == mid_states[gi].1@);
                        } else {
                            assert(self.loading_states@.last().0 != id2);
                            assert(state_keys(self.loading_states@, id2) == state_keys(s1, id2));
                            assert(state_keys(mid_states.remove(gi), id2) == state_keys(
                                mid_states,
                                id2,
                            ));
                            assert(state_keys(s1, id2) == state_keys(mid_states.remove(gi), id2));
                        }
                    }
                    assert forall|p: int, q: int| 0 <= p < q < self.loading_states@.len()
                        implies self.loading_states@[p].0 != self.loading_states@[q].0 by {
                        if q == self.loading_states@.len() - 1 {
                            let p0 = if p < gi {
                                p
                            } else {
                                p + 1
                            };
                            assert(self.loading_states@[p] == s1[p]);
                            assert(s1[p] == mid_states[p0]);
                        } else {
                            let p0 = if p < gi {
                                p
                            } else {
                                p + 1
                            };
                            let q0 = if q < gi {
                                q
                            } else {
                                q + 1
                            };
                            assert(self.loading_states@[p] == s1[p] && s1[p] == mid_states[p0]);
                            assert(self.loading_states@[q] == s1[q] && s1[q] == mid_states[q0]);
                        }
                    }
                    assert forall|p: int| 0 <= p < self.loading_states@.len()
                        implies (#[trigger] self.loading_states@[p].1).wf() by {
                        if p < self.loading_states@.len() - 1 {
                            let p0 = if p < gi {
                                p
                            } else {
                                p + 1
                            };
                            assert(self.loading_states@[p] == mid_states[p0]);
                        }
                    }
                }
            },
            None => {
                let mut names = StrSet::new();
                names.insert(key);
                self.loading_states.push((id, names));
                proof {
                    assert(self.loading_states@.drop_last() =~= mid_states);
                    Self::lemma_state_absent(mid_states, id);
                    assert forall|id2: u64|
                        #![trigger state_keys(self.loading_states@, id2)]
                        state_keys(self.loading_states@, id2) == if id2 == id {
                            state_keys(mid_states, id2).insert(gkey)
                        } else {
                            state_keys(mid_states, id2)
                        } by {
                        if id2 == id {
                            assert(state_keys(mid_states, id) =~= Set::<Seq<char>>::empty());
                            assert(self.loading_states@.last().1@ =~= state_keys(
                                mid_states,
                                id,
                            ).insert(gkey));
                        }
                    }
                    assert forall|p: int, q: int| 0 <= p < q < self.loading_states@.len()
                        implies self.loading_states@[p].0 != self.loading_states@[q].0 by {
                        if q == self.loading_states@.len() - 1 {
                            assert(self.loading_states@[p] == mid_states[p]);
                        } else {
                            assert(self.loading_states@[p] == mid_states[p]);
                            assert(self.loading_states@[q] == mid_states[q]);
                        }
                    }
                    assert forall|p: int| 0 <= p < self.loading_states@.len()
                        implies (#[trigger] self.loading_states@[p].1).wf() by {
                        if p < self.loading_states@.len() - 1 {
                            assert(self.loading_states@[p] == mid_states[p]);
                        }
                    }
                }
            },
        }
        proof {
            assert forall|k: Seq<char>, id2: u64|
                #![trigger state_keys(self.loading_states@, id2).contains(k)]
                #![trigger self.pending(k, id2)]
                state_keys(self.loading_states@, id2).contains(k) <==> self.pending(k, id2) by {
                assert(state_keys(self.loading_states@, id2) == if id2 == id {
                    state_keys(self0.loading_states@, id2).insert(gkey)
                } else {
                    state_keys(self0.loading_states@, id2)
                });
                assert(state_keys(self0.loading_states@, id2).contains(k) <==> self0.pending(
                    k,
                    id2,
                ));
                assert(self.pending(k, id2) == (self0.pending(k, id2) || (k == gkey && id2 == id)));
            }
        }
    }

    /// Stops tracking asset `id`: every group waiting on it drops it, and
    /// a group thereby emptied is closed out.
    pub fn remove_asset(&mut self, id: u64)
        requires
            old(self).wf(),
            old(self).indexed(),
        ensures
            final(self).wf(),
            final(self).indexed(),
            forall|k: Seq<char>, id2: u64|
                #![trigger final(self).pending(k, id2)]
                final(self).pending(k, id2) == (old(self).pending(k, id2) && id2 != id),
            forall|id2: u64|
                #![trigger state_keys(final(self).loading_states@, id2)]
                state_keys(final(self).loading_states@, id2) == if id2 == id {
                    Set::<Seq<char>>::empty()
                } else {
                    state_keys(old(self).loading_states@, id2)
                },
    {
        let ghost self0 = *self;
        let found = self.state_index(id);
        let keys = match found {
            Some(idx) => {
                let ghost gi = idx as int;
                proof {
                    Self::lemma_state_at(self.loading_states@, gi);
                    Self::lemma_state_remove(self.loading_states@, gi);
                }
                let entry = self.loading_states.remove(idx);
                proof {
                    assert(self.loading_states@ =~= self0.loading_states@.remove(gi));
                    assert forall|p: int, q: int| 0 <= p < q < self.loading_states@.len()
                        implies self.loading_states@[p].0 != self.loading_states@[q].0 by {
                        assert(self.loading_states@[p] == if p < gi {
                            self0.loading_states@[p]
                        } else {
                            self0.loading_states@[p + 1]
                        });
                        assert(self.loading_states@[q] == if q < gi {
                            self0.loading_states@[q]
                        } else {
                            self0.loading_states@[q + 1]
                        });
                    }
                    assert forall|p: int| 0 <= p < self.loading_states@.len()
                        implies (#[trigger] self.loading_states@[p].1).wf() by {
                        assert(self.loading_states@[p] == if p < gi {
                            self0.loading_states@[p]
                        } else {
                            self0.loading_states@[p + 1]
                        });
                    }
                    assert(entry.1@ == state_keys(self0.loading_states@, id));
                }
                entry.1
            },
            None => {
                proof {
                    Self::lemma_state_absent(self0.loading_states@, id);
                    assert forall|k: Seq<char>, id2: u64|
                        #![trigger self.pending(k, id2)]
                        self.pending(k, id2) == (self0.pending(k, id2) && id2 != id) by {
                        if id2 == id && self0.pending(k, id2) {
                            assert(state_keys(self0.loading_states@, id).contains(k));
                        }
                    }
                    assert forall|id2: u64|
                        #![trigger state_keys(self.loading_states@, id2)]
                        state_keys(self.loading_states@, id2) == if id2 == id {
                            Set::<Seq<char>>::empty()
                        } else {
                            state_keys(self0.loading_states@, id2)
                        } by {}
                }
                return ;
            },
        };
        let ghost gkeys = keys.elems();
        let m = keys.elem_count();
        let mut j: usize = 0;
        while j < m
            invariant
                self.wf(),
                m == gkeys.len(),
                j <= m,
                gkeys == keys.elems(),
                keys.wf(),
                keys@ == state_keys(self0.loading_states@, id),
                forall|id2: u64|
                    #![trigger state_keys(self.loading_states@, id2)]
                    state_keys(self.loading_states@, id2) == if id2 == id {
                        Set::<Seq<char>>::empty()
                    } else {
                        state_keys(self0.loading_states@, id2)
                    },
                forall|k: Seq<char>, id2: u64|
                    #![trigger self.pending(k, id2)]
                    self.pending(k, id2) == (self0.pending(k, id2) && !(id2 == id && exists|i1: int|
                        0 <= i1 < j && (#[trigger] gkeys[i1])@ == k)),
            decreases m - j,
        {
            let key = keys.elem_at(j).clone();
            let ghost pre = *self;
            match self.groups.remove(&key) {
                Some(mut group) => {
                    group.remove(id);
                    if !group.is_empty() {
                        self.groups.insert(key.clone(), group);
                    }
                },
                None => {},
            }
            proof {
                assert forall|k: Seq<char>, id2: u64|
                    #![trigger self.pending(k, id2)]
                    self.pending(k, id2) == (self0.pending(k, id2) && !(id2 == id && exists|i1: int|
                        0 <= i1 < j + 1 && (#[trigger] gkeys[i1])@ == k)) by {
                    if k == key@ {
                        assert(gkeys[j as int]@ == k);
                        assert(exists|i1: int| 0 <= i1 < j + 1 && (#[trigger] gkeys[i1])@ == k);
                        if pre.groups@.contains_key(k) {
                            let g0 = pre.groups@[k];
                            if g0@.remove(id) =~= Set::<u64>::empty() {
                                assert(!self.groups@.contains_key(k));
                                assert(!self.pending(k, id2));
                                if id2 != id && pre.pending(k, id2) {
                                    assert(g0@.contains(id2));
                                    assert(g0@.remove(id).contains(id2));
                                    assert(false);
                                }
                            } else {
                                assert(self.groups@.contains_key(k));
                                assert(self.groups@[k]@ == g0@.remove(id));
                                if id2 != id {
                                    assert(self.pending(k, id2) == pre.pending(k, id2));
                                } else {
                                    assert(!self.pending(k, id));
                                }
                            }
                        } else {
                            assert(!pre.pending(k, id2));
                            assert(!self.groups@.contains_key(k));
                            assert(!self.pending(k, id2));
                        }
                        assert(pre.pending(k, id2) == (self0.pending(k, id2) && !(id2 == id
                            && exists|i1: int| 0 <= i1 < j && (#[trigger] gkeys[i1])@ == k)));
                    } else {
                        assert(self.groups@.contains_key(k) == pre.groups@.contains_key(k));
                        if self.groups@.contains_key(k) {
                            assert(self.groups@[k] == pre.groups@[k]);
                        }
                        assert(pre.pending(k, id2) == self.pending(k, id2));
                        assert forall|i1: int| 0 <= i1 < j + 1 && (#[trigger] gkeys[i1])@ == k
                            implies i1 < j by {
                            if i1 == j {
                                assert(gkeys[i1]@ == key@);
                            }
                        }
                    }
                }
            }
            j = j + 1;
        }
        proof {
            assert forall|k: Seq<char>, id2: u64|
                #![trigger self.pending(k, id2)]
                self.pending(k, id2) == (self0.pending(k, id2) && id2 != id) by {
                if id2 == id && self0.pending(k, id) {
                    assert(state_keys(self0.loading_states@, id).contains(k));
                    StrSet::lemma_set_to_elem(gkeys, k);
                    let i1 = choose|i1: int| 0 <= i1 < gkeys.len() && #[trigger] gkeys[i1]@ == k;
                    assert((gkeys[i1])@ == k);
                }
                if id2 == id && !self0.pending(k, id) {
                    assert(!self.pending(k, id2));
                }
            }
            assert forall|k: Seq<char>, id2: u64|
                #![trigger state_keys(self.loading_states@, id2).contains(k)]
                #![trigger self.pending(k, id2)]
                state_keys(self.loading_states@, id2).contains(k) <==> self.pending(k, id2) by {
                assert(state_keys(self.loading_states@, id2) == if id2 == id {
                    Set::<Seq<char>>::empty()
                } else {
                    state_keys(self0.loading_states@, id2)
                });
                assert(state_keys(self0.loading_states@, id2).contains(k) <==> self0.pending(
                    k,
                    id2,
                ));
                assert(self.pending(k, id2) == (self0.pending(k, id2) && id2 != id));
            }
        }
    }

    /// Closes out every asset the host reports as loaded.
    pub fn update_with_load_states(&mut self, loaded: &Vec<u64>)
        requires
            old(self).wf(),
            old(self).indexed(),
        ensures
            final(self).wf(),
            final(self).indexed(),
            forall|k: Seq<char>, id2: u64|
                #![trigger final(self).pending(k, id2)]
                final(self).pending(k, id2) == (old(self).pending(k, id2) && !loaded@.contains(
                    id2,
                )),
    {
        let ghost self0 = *self;
        let n = loaded.len();
        let mut i: usize = 0;
        while i < n
            invariant
                self.wf(),
                self.indexed(),
                n == loaded@.len(),
                i <= n,
                forall|k: Seq<char>, id2: u64|
                    #![trigger self.pending(k, id2)]
                    self.pending(k, id2) == (self0.pending(k, id2) && !loaded@.take(
                        i as int,
                    ).contains(id2)),
            decreases n - i,
        {
            let ghost pre = *self;
            self.remove_asset(loaded[i]);
            proof {
                assert forall|k: Seq<char>, id2: u64|
                    #![trigger self.pending(k, id2)]
                    self.pending(k, id2) == (self0.pending(k, id2) && !loaded@.take(
                        i as int + 1,
                    ).contains(id2)) by {
                    assert(self.pending(k, id2) == (pre.pending(k, id2) && id2 != loaded@[i as int]));
                    if loaded@.take(i as int + 1).contains(id2) {
                        let w = choose|w: int| 0 <= w < i + 1 && #[trigger] loaded@.take(i as int + 1)[w] == id2;
                        if w < i {
                            assert(loaded@.take(i as int)[w] == id2);
                            assert(loaded@.take(i as int).contains(id2));
                        } else {
                            assert(id2 == loaded@[i as int]);
                        }
                    } else {
                        assert(!loaded@.take(i as int).contains(id2)) by {
                            if loaded@.take(i as int).contains(id2) {
                                let w = choose|w: int|
                                    0 <= w < i && #[trigger] loaded@.take(i as int)[w] == id2;
                                assert(loaded@.take(i as int + 1)[w] == id2);
                                assert(loaded@.take(i as int + 1).contains(id2));
                            }
                        }
                        assert(id2 != loaded@[i as int]) by {
                            if id2 == loaded@[i as int] {
                                assert(loaded@.take(i as int + 1)[i as int] == id2);
                                assert(loaded@.take(i as int + 1).contains(id2));
                            }
                        }
                    }
                }
            }
            i = i + 1;
        }
        proof {
            assert(loaded@.take(n as int) =~= loaded@);
            assert forall|k: Seq<char>, id2: u64|
                #![trigger self.pending(k, id2)]
                self.pending(k, id2) == (self0.pending(k, id2) && !loaded@.contains(id2)) by {
                assert(self.pending(k, id2) == (self0.pending(k, id2) && !loaded@.take(
                    n as int,
                ).contains(id2)));
            }
        }
    }
}

/// The asset-loading subsystem, as a unit the host application installs;
/// its state is a `LoadingStateGroups` tracker.
pub struct AssetLoadingUtilPlugin;

impl Default for LoadingStateGroups {
    fn default() -> (r: Self)
        ensures
            r.wf(),
            r.indexed(),
            r.groups@ == Map::<Seq<char>, IdSet>::empty(),
            r.loading_states@.len() == 0,
    {
        LoadingStateGroups::new()
    }
}

} // verus!
