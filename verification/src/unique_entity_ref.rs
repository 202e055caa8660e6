//! Unique tagged children.
//!
//! A parent keeps, per tag, the one child entity carrying that tag, and
//! remembers which tags changed during the frame.  When the host reparents
//! a tagged child, the old parent drops its reference and the new parent
//! gains one.

use vstd::prelude::*;
use crate::strcoll::{StrMap, StrSet};

verus! {

/// Marks an entity as its parent's unique child for a tag.
#[derive(Debug)]
pub struct UniqueEntity {
    pub tag: String,
}

/// The parent a unique child was last registered with.
#[derive(Clone, Copy, Debug, PartialEq, Eq, Structural)]
pub struct UniqueEntityParentRef {
    pub entity: u64,
}

/// The references a parent keeps to its unique children.
#[derive(Debug)]
pub struct UniqueEntityRefs {
    pub refs: StrMap<u64>,
    pub changed: StrSet,
}

impl UniqueEntityRefs {
    pub open spec fn wf(self) -> bool {
        self.refs.wf() && self.changed.wf()
    }

    pub fn new() -> (r: Self)
        ensures
            r.wf(),
            r.refs@ == Map::<Seq<char>, u64>::empty(),
            r.changed@ == Set::<Seq<char>>::empty(),
    {
        UniqueEntityRefs { refs: StrMap::new(), changed: StrSet::new() }
    }

    /// Forgets which tags changed; run at the start of a frame's pass.
    pub fn clear_changed(&mut self)
        ensures
            final(self).wf() == old(self).refs.wf(),
            final(self).refs == old(self).refs,
            final(self).changed@ == Set::<Seq<char>>::empty(),
    {
        self.changed.clear();
    }

    /// Drops the reference under `tag` and marks the tag as changed.
    pub fn remove_ref(&mut self, tag: &String)
        requires
            old(self).wf(),
        ensures
            final(self).wf(),
            final(self).refs@ == old(self).refs@.remove(tag@),
            final(self).changed@ == old(self).changed@.insert(tag@),
    {
        self.refs.remove(tag);
        self.changed.insert(tag.clone());
    }

    /// Points `tag` at `entity` and marks the tag as changed.
    pub fn set_ref(&mut self, tag: String, entity: u64)
        requires
            old(self).wf(),
        ensures
            final(self).wf(),
            final(self).refs@ == old(self).refs@.insert(tag@, entity),
            final(self).changed@ == old(self).changed@.insert(tag@),
    {
        let marker = tag.clone();
        self.refs.insert(tag, entity);
        self.changed.insert(marker);
    }

    /// The unique child registered under `tag`, if any.
    pub fn get_ref(&self, tag: &String) -> (r: Option<u64>)
        requires
            self.wf(),
        ensures
            match r {
                Some(e) => self.refs@.contains_key(tag@) && e == self.refs@[tag@],
                None => !self.refs@.contains_key(tag@),
            },
    {
        match self.refs.get(tag) {
            Some(e) => Some(*e),
            None => None,
        }
    }

    /// Whether `tag` changed during this frame.
    pub fn has_changed(&self, tag: &String) -> (r: bool)
        ensures
            r == self.changed@.contains(tag@),
    {
        self.changed.contains(tag)
    }
}

impl Default for UniqueEntityRefs {
    fn default() -> (r: Self)
        ensures
            r.wf(),
            r.refs@ == Map::<Seq<char>, u64>::empty(),
            r.changed@ == Set::<Seq<char>>::empty(),
    {
        UniqueEntityRefs::new()
    }
}

} // verus!
