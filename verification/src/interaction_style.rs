//! The interaction-style pass.
//!
//! Theme styles attach an `InteractionNodeStyle` to nodes; once a node's
//! interaction or its unique-child table changes, the pass picks the style
//! to show and forwards the text color to the node's unique text child.

use vstd::prelude::*;
use crate::focus::{InputFocus, InputFocusPolicy};
use crate::node_style::PickingInteraction;
use crate::unique_entity_ref::UniqueEntityRefs;

verus! {

/// The interaction subsystem, as a unit the host application installs; it
/// drives the style pass below.
pub struct CustomInteractionPlugin;

/// One visual state of a node, as handles to host style data.
#[derive(Clone, Copy, Debug, PartialEq, Eq, Structural)]
pub struct NodeStyleBundle {
    pub background_color: u64,
    pub outline: u64,
    pub border_radius: u64,
    pub border_color: u64,
    pub text_color: u64,
}

impl NodeStyleBundle {
    pub open spec fn spec_default() -> NodeStyleBundle {
        NodeStyleBundle {
            background_color: 0,
            outline: 0,
            border_radius: 0,
            border_color: 0,
            text_color: 0,
        }
    }
}

impl Default for NodeStyleBundle {
    fn default() -> (r: Self)
        ensures
            r == NodeStyleBundle::spec_default(),
    {
        NodeStyleBundle {
            background_color: 0,
            outline: 0,
            border_radius: 0,
            border_color: 0,
            text_color: 0,
        }
    }
}

/// A node's styles for each interaction state, as a theme attaches them.
#[derive(Clone, Copy, Debug, PartialEq, Eq, Structural)]
pub struct InteractionNodeStyle {
    pub default_style: NodeStyleBundle,
    pub hover_style: Option<NodeStyleBundle>,
    pub pressed_style: Option<NodeStyleBundle>,
    pub disabled_style: Option<NodeStyleBundle>,
    pub focus_style: Option<NodeStyleBundle>,
    pub hover_focus_style: Option<NodeStyleBundle>,
    pub pressed_focus_style: Option<NodeStyleBundle>,
}

pub open spec fn bundle_or(o: Option<NodeStyleBundle>, d: NodeStyleBundle) -> NodeStyleBundle {
    match o {
        Some(s) => s,
        None => d,
    }
}

/// The style to show, picked as `spec_final_style` picks node styles.
pub open spec fn spec_bundle_style(
    entity: u64,
    interaction: PickingInteraction,
    styles: InteractionNodeStyle,
    focus_policy: Option<InputFocusPolicy>,
    input_focus: InputFocus,
) -> NodeStyleBundle {
    if focus_policy == Some(InputFocusPolicy::Disabled) {
        bundle_or(styles.disabled_style, styles.default_style)
    } else {
        let focused = input_focus.0 == Some(entity);
        match interaction {
            PickingInteraction::Idle => if focused {
                bundle_or(styles.focus_style, styles.default_style)
            } else {
                styles.default_style
            },
            PickingInteraction::Hovered => if focused {
                bundle_or(
                    styles.hover_focus_style,
                    bundle_or(styles.hover_style, styles.default_style),
                )
            } else {
                bundle_or(styles.hover_style, styles.default_style)
            },
            PickingInteraction::Pressed => if focused {
                bundle_or(
                    styles.pressed_focus_style,
                    bundle_or(styles.pressed_style, styles.default_style),
                )
            } else {
                bundle_or(styles.pressed_style, styles.default_style)
            },
        }
    }
}

fn bundle_or_exec(o: &Option<NodeStyleBundle>, d: &NodeStyleBundle) -> (r: NodeStyleBundle)
    ensures
        r == bundle_or(*o, *d),
{
    match o {
        Some(s) => *s,
        None => *d,
    }
}

/// What the pass does to one node: the style inserted on the node itself,
/// and the text color forwarded to its unique text child, if it has one.
#[derive(Clone, Copy, Debug)]
pub struct StyleUpdate {
    pub style: NodeStyleBundle,
    /// The unique text child and the color it is given.
    pub text_color_update: Option<(u64, u64)>,
}

/// Core of the interaction-style pass for one changed node.  A node whose
/// unique-child table changed for some other tag than its text child is
/// left alone.
pub fn interaction_style_update(
    entity: u64,
    styles: &InteractionNodeStyle,
    interaction: Option<&PickingInteraction>,
    unique_refs: Option<&UniqueEntityRefs>,
    focus_policy: Option<&InputFocusPolicy>,
    input_focus: &InputFocus,
) -> (r: Option<StyleUpdate>)
    requires
        match unique_refs {
            Some(u) => u.wf(),
            None => true,
        },
    ensures
        ({
            let skipped = match unique_refs {
                Some(u) => !u.changed@.contains("text"@),
                None => false,
            };
            let shown = spec_bundle_style(
                entity,
                match interaction {
                    Some(i) => *i,
                    None => PickingInteraction::Idle,
                },
                *styles,
                match focus_policy {
                    Some(p) => Some(*p),
                    None => None,
                },
                *input_focus,
            );
            match r {
                None => skipped,
                Some(u) => {
                    &&& !skipped
                    &&& u.style == shown
                    &&& u.text_color_update == match unique_refs {
                        Some(ur) => if ur.refs@.contains_key("text"@) {
                            Some((ur.refs@["text"@], shown.text_color))
                        } else {
                            None
                        },
                        None => None,
                    }
                },
            }
        }),
{
    let text_tag: String = "text".to_owned();
    if let Some(u) = unique_refs {
        if !u.has_changed(&text_tag) {
            return None;
        }
    }
    let disabled = match focus_policy {
        Some(p) => *p == InputFocusPolicy::Disabled,
        None => false,
    };
    let style = if disabled {
        bundle_or_exec(&styles.disabled_style, &styles.default_style)
    } else {
        let focused = match input_focus.0 {
            Some(f) => f == entity,
            None => false,
        };
        let inter = match interaction {
            Some(i) => *i,
            None => PickingInteraction::Idle,
        };
        match inter {
            PickingInteraction::Idle => {
                if focused {
                    bundle_or_exec(&styles.focus_style, &styles.default_style)
                } else {
                    styles.default_style
                }
            },
            PickingInteraction::Hovered => {
                if focused {
                    let plain = bundle_or_exec(&styles.hover_style, &styles.default_style);
                    bundle_or_exec(&styles.hover_focus_style, &plain)
                } else {
                    bundle_or_exec(&styles.hover_style, &styles.default_style)
                }
            },
            PickingInteraction::Pressed => {
                if focused {
                    let plain = bundle_or_exec(&styles.pressed_style, &styles.default_style);
                    bundle_or_exec(&styles.pressed_focus_style, &plain)
                } else {
                    bundle_or_exec(&styles.pressed_style, &styles.default_style)
                }
            },
        }
    };
    let text_color_update = match unique_refs {
        Some(u) => match u.get_ref(&text_tag) {
            Some(child) => Some((child, style.text_color)),
            None => None,
        },
        None => None,
    };
    Some(StyleUpdate { style, text_color_update })
}

} // verus!
