//! The input-focus protocol.
//!
//! At most one entity holds input focus.  Click and keyboard handlers ask
//! for focus changes; when a focused entity disappears or releases focus,
//! focus falls back to the nearest ancestor that accepts it.  The host hands
//! in the ancestor chains; the decisions below are what its observers run.

use vstd::prelude::*;

verus! {

/// How an entity takes part in focus handling.
#[derive(Clone, Copy, Debug, PartialEq, Eq, Structural)]
pub enum InputFocusPolicy {
    /// The entity never takes focus.
    Ignore,
    /// The entity accepts focus.
    All,
    /// The entity is disabled and shown as such.
    Disabled,
}

/// Notification that an entity lost focus.
#[derive(Clone, Copy, Debug, PartialEq, Eq, Structural)]
pub struct FocusReleased {
    pub entity: u64,
}

/// Notification that an entity gained focus.
#[derive(Clone, Copy, Debug, PartialEq, Eq, Structural)]
pub struct Focused {
    pub entity: u64,
}

/// A request to give focus up.
#[derive(Clone, Copy, Debug, PartialEq, Eq, Structural)]
pub enum ReleaseFocusEvent {
    /// Release the named entity's focus towards its ancestors; when none
    /// accepts it and `allow_none` is set, clear focus.
    ToParent { entity: u64, allow_none: bool },
    /// Clear focus unconditionally.
    All,
}

/// The entity holding input focus, if any.
#[derive(Clone, Copy, Debug, PartialEq, Eq, Structural)]
pub struct InputFocus(pub Option<u64>);

/// The first entity of a chain that accepts focus.
pub open spec fn first_focusable(chain: Seq<(u64, InputFocusPolicy)>) -> Option<u64>
    decreases chain.len(),
{
    if chain.len() == 0 {
        None
    } else if chain[0].1 == InputFocusPolicy::All {
        Some(chain[0].0)
    } else {
        first_focusable(chain.drop_first())
    }
}

proof fn lemma_first_focusable_skip(chain: Seq<(u64, InputFocusPolicy)>, i: int)
    requires
        0 <= i <= chain.len(),
        forall|j: int| 0 <= j < i ==> chain[j].1 != InputFocusPolicy::All,
    ensures
        first_focusable(chain) == first_focusable(chain.skip(i)),
    decreases i,
{
    if i > 0 {
        assert(chain.skip(0) =~= chain);
        lemma_first_focusable_skip(chain.drop_first(), i - 1);
        assert(chain.drop_first().skip(i - 1) =~= chain.skip(i));
    } else {
        assert(chain.skip(0) =~= chain);
    }
}

/// Scans a chain of entities and their focus policies for the first that
/// accepts focus.
fn find_first_focusable(chain: &Vec<(u64, InputFocusPolicy)>) -> (r: Option<u64>)
    ensures
        r == first_focusable(chain@),
{
    let n = chain.len();
    let mut i: usize = 0;
    while i < n
        invariant
            n == chain@.len(),
            i <= n,
            forall|j: int| 0 <= j < i ==> chain@[j].1 != InputFocusPolicy::All,
        decreases n - i,
    {
        if chain[i].1 == InputFocusPolicy::All {
            proof {
                lemma_first_focusable_skip(chain@, i as int);
                assert(chain@.skip(i as int)[0] == chain@[i as int]);
            }
            return Some(chain[i].0);
        }
        i = i + 1;
    }
    proof {
        lemma_first_focusable_skip(chain@, n as int);
        assert(chain@.skip(n as int) =~= Seq::<(u64, InputFocusPolicy)>::empty());
    }
    None
}

impl InputFocus {
    /// Core of a focus-change request: focus moves to `entity` when the
    /// host still knows that entity, clears when no entity is named, and
    /// stays put (reporting failure) when the entity is gone.
    pub fn set_next_input_focus(&mut self, entity: Option<u64>, entity_exists: bool) -> (r: Result<
        (),
        (),
    >)
        ensures
            match entity {
                Some(e) => {
                    &&& entity_exists ==> final(self).0 == Some(e) && r is Ok
                    &&& !entity_exists ==> *final(self) == *old(self) && r is Err
                },
                None => final(self).0 is None && r is Ok,
            },
    {
        match entity {
            Some(e) => {
                if entity_exists {
                    self.0 = Some(e);
                    Ok(())
                } else {
                    Err(())
                }
            },
            None => {
                self.0 = None;
                Ok(())
            },
        }
    }

    /// After the entity holding focus is despawned: focus falls back to the
    /// nearest ancestor that accepts it; when none does, or when focus had
    /// already moved elsewhere, nothing changes.
    pub fn fallback_after_despawn(&mut self, removed: u64, ancestors: &Vec<(u64, InputFocusPolicy)>)
        ensures
            old(self).0 != Some(removed) ==> *final(self) == *old(self),
            old(self).0 == Some(removed) ==> final(self).0 == match first_focusable(ancestors@) {
                Some(e) => Some(e),
                None => old(self).0,
            },
    {
        let current_is_removed = match self.0 {
            Some(c) => c == removed,
            None => false,
        };
        if !current_is_removed {
            return ;
        }
        match find_first_focusable(ancestors) {
            Some(e) => {
                self.0 = Some(e);
            },
            None => {},
        }
    }

    /// Handles one release request.  For a release towards the ancestors,
    /// `chain` is the releasing entity followed by its ancestors, each with
    /// its focus policy; the request only applies while that entity still
    /// holds focus.
    pub fn apply_release_event(
        &mut self,
        event: &ReleaseFocusEvent,
        chain: &Vec<(u64, InputFocusPolicy)>,
    )
        ensures
            match *event {
                ReleaseFocusEvent::All => final(self).0 is None,
                ReleaseFocusEvent::ToParent { entity, allow_none } => {
                    &&& old(self).0 != Some(entity) ==> *final(self) == *old(self)
                    &&& old(self).0 == Some(entity) ==> final(self).0 == match first_focusable(
                        chain@,
                    ) {
                        Some(e) => Some(e),
                        None => if allow_none {
                            None
                        } else {
                            old(self).0
                        },
                    }
                },
            },
    {
        match event {
            ReleaseFocusEvent::All => {
                self.0 = None;
            },
            ReleaseFocusEvent::ToParent { entity, allow_none } => {
                let current_is_entity = match self.0 {
                    Some(c) => c == *entity,
                    None => false,
                };
                if !current_is_entity {
                    return ;
                }
                match find_first_focusable(chain) {
                    Some(e) => {
                        self.0 = Some(e);
                    },
                    None => {
                        if *allow_none {
                            self.0 = None;
                        }
                    },
                }
            },
        }
    }
}

/// End-of-frame propagation: when focus moved since the last frame, the
/// old holder is told it was released and the new holder that it gained
/// focus.
pub fn focus_change_events(prev: Option<u64>, next: Option<u64>) -> (r: (
    Option<FocusReleased>,
    Option<Focused>,
))
    ensures
        prev == next ==> r.0 is None && r.1 is None,
        prev != next ==> {
            &&& r.0 == match prev {
                Some(p) => Some(FocusReleased { entity: p }),
                None => None,
            }
            &&& r.1 == match next {
                Some(nx) => Some(Focused { entity: nx }),
                None => None,
            }
        },
{
    let same = match (prev, next) {
        (Some(a), Some(b)) => a == b,
        (None, None) => true,
        _ => false,
    };
    if same {
        (None, None)
    } else {
        let released = match prev {
            Some(p) => Some(FocusReleased { entity: p }),
            None => None,
        };
        let focused = match next {
            Some(nx) => Some(Focused { entity: nx }),
            None => None,
        };
        (released, focused)
    }
}

} // verus!
