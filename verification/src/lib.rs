//! Verified core of a game client's UI plumbing.
//!
//! The host game engine owns entities, scheduling and rendering; this crate
//! holds the decision logic that the host plugins drive: a page-navigation
//! stack, the input-focus release and fallback protocol, keyboard input
//! mapping, theme style resolution, text-input editing, asset loading groups
//! and unique-child bookkeeping.  Entities are represented by plain `u64`
//! identifiers handed in by the host layer.

pub mod strcoll;
pub mod scene_system;
pub mod ui_navigation;
pub mod focus;
pub mod event_system;
pub mod input_map;
pub mod text_input;
pub mod unique_entity_ref;
pub mod node_style;
pub mod interaction_style;
pub mod theme;
pub mod asset_loading;

use vstd::prelude::*;

verus! {

/// Identifier the host uses for an entity slot that stands for "no entity".
pub const PLACEHOLDER_ENTITY: u64 = u64::MAX;

} // verus!
