//! The unhandled-event protocol.
//!
//! Input events carry a handled flag.  The host first offers an event to
//! its target entity; only an event still unhandled afterwards is wrapped
//! and offered again as an unhandled event.

use vstd::prelude::*;
use crate::PLACEHOLDER_ENTITY;

verus! {

/// An event whose consumers can mark it as dealt with.
pub trait HandledEventExt {
    /// Whether the event has been dealt with.
    spec fn handled_view(&self) -> bool;

    fn is_handled(&self) -> (r: bool)
        ensures
            r == self.handled_view(),
    ;

    fn set_handled(&mut self, handled: bool)
        ensures
            final(self).handled_view() == handled,
    ;
}

/// An event that went through its target without being handled.
pub struct UnhandledInputEvent<T> {
    pub event: T,
}

/// An event is offered to its target only when the target is a real
/// entity.
pub fn should_dispatch_to_target(target: u64) -> (r: bool)
    ensures
        r == (target != PLACEHOLDER_ENTITY),
{
    target != PLACEHOLDER_ENTITY
}

/// An event is re-offered as unhandled exactly when no consumer marked it
/// as dealt with.
pub fn should_wrap_unhandled<T: HandledEventExt>(event: &T) -> (r: bool)
    ensures
        r == !event.handled_view(),
{
    !event.is_handled()
}

} // verus!
