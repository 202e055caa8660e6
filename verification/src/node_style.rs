//! Interaction-dependent node styles.
//!
//! A node carries one style per interaction state; the style actually
//! applied is picked from the node's interaction, its focus policy and the
//! current input focus.  Style payloads (colors, borders, layout) are host
//! data, carried here as handles.

use vstd::prelude::*;
use crate::focus::{InputFocus, InputFocusPolicy};

verus! {

/// The layout the host applies to a styled node's text child.
#[derive(Clone, Copy, Debug, PartialEq, Eq, Structural)]
pub struct TextNodeLayout(pub u64);

/// What a mouse pointer is doing to a node.
#[derive(Clone, Copy, Debug, PartialEq, Eq, Structural)]
pub enum PickingInteraction {
    Pressed,
    Hovered,
    Idle,
}

/// One visual state of a node, as handles to host style data.
#[derive(Clone, Copy, Debug, PartialEq, Eq, Structural)]
pub struct MainStyle {
    pub background_color: u64,
    pub outline: u64,
    pub border_radius: u64,
    pub border_color: u64,
    pub text_color: u64,
    pub text_node_style: u64,
}

impl MainStyle {
    pub open spec fn spec_default() -> MainStyle {
        MainStyle {
            background_color: 0,
            outline: 0,
            border_radius: 0,
            border_color: 0,
            text_color: 0,
            text_node_style: 0,
        }
    }
}

impl Default for MainStyle {
    fn default() -> (r: Self)
        ensures
            r == MainStyle::spec_default(),
    {
        MainStyle {
            background_color: 0,
            outline: 0,
            border_radius: 0,
            border_color: 0,
            text_color: 0,
            text_node_style: 0,
        }
    }
}

/// A node's styles for each interaction state; a missing one falls back
/// to the default style (focused variants fall back through the plain
/// variant).
#[derive(Clone, Copy, Debug, PartialEq, Eq, Structural)]
pub struct NodeStyle {
    pub default_style: MainStyle,
    pub hover_style: Option<MainStyle>,
    pub pressed_style: Option<MainStyle>,
    pub disabled_style: Option<MainStyle>,
    pub focus_style: Option<MainStyle>,
    pub hover_focus_style: Option<MainStyle>,
    pub pressed_focus_style: Option<MainStyle>,
}

/// The style to show: a disabled node shows its disabled style; otherwise
/// the interaction picks the variant, focused nodes preferring the focused
/// variant, and any missing variant falls back as documented on
/// `NodeStyle`.
pub open spec fn spec_final_style(
    entity: u64,
    interaction: PickingInteraction,
    styles: NodeStyle,
    focus_policy: Option<InputFocusPolicy>,
    input_focus: InputFocus,
) -> MainStyle {
    if focus_policy == Some(InputFocusPolicy::Disabled) {
        opt_or(styles.disabled_style, styles.default_style)
    } else {
        let focused = input_focus.0 == Some(entity);
        match interaction {
            PickingInteraction::Idle => if focused {
                opt_or(styles.focus_style, styles.default_style)
            } else {
                styles.default_style
            },
            PickingInteraction::Hovered => if focused {
                opt_or(styles.hover_focus_style, opt_or(styles.hover_style, styles.default_style))
            } else {
                opt_or(styles.hover_style, styles.default_style)
            },
            PickingInteraction::Pressed => if focused {
                opt_or(
                    styles.pressed_focus_style,
                    opt_or(styles.pressed_style, styles.default_style),
                )
            } else {
                opt_or(styles.pressed_style, styles.default_style)
            },
        }
    }
}

pub open spec fn opt_or(o: Option<MainStyle>, d: MainStyle) -> MainStyle {
    match o {
        Some(s) => s,
        None => d,
    }
}

fn opt_or_exec(o: &Option<MainStyle>, d: &MainStyle) -> (r: MainStyle)
    ensures
        r == opt_or(*o, *d),
{
    match o {
        Some(s) => *s,
        None => *d,
    }
}

/// Picks the style a node shows.
pub fn determine_final_style(
    entity: u64,
    interaction: &PickingInteraction,
    styles: &NodeStyle,
    focus_policy: Option<&InputFocusPolicy>,
    input_focus: &InputFocus,
) -> (r: MainStyle)
    ensures
        r == spec_final_style(
            entity,
            *interaction,
            *styles,
            match focus_policy {
                Some(p) => Some(*p),
                None => None,
            },
            *input_focus,
        ),
{
    let disabled = match focus_policy {
        Some(p) => *p == InputFocusPolicy::Disabled,
        None => false,
    };
    if disabled {
        opt_or_exec(&styles.disabled_style, &styles.default_style)
    } else {
        let focused = match input_focus.0 {
            Some(f) => f == entity,
            None => false,
        };
        match interaction {
            PickingInteraction::Idle => {
                if focused {
                    opt_or_exec(&styles.focus_style, &styles.default_style)
                } else {
                    styles.default_style
                }
            },
            PickingInteraction::Hovered => {
                if focused {
                    let plain = opt_or_exec(&styles.hover_style, &styles.default_style);
                    opt_or_exec(&styles.hover_focus_style, &plain)
                } else {
                    opt_or_exec(&styles.hover_style, &styles.default_style)
                }
            },
            PickingInteraction::Pressed => {
                if focused {
                    let plain = opt_or_exec(&styles.pressed_style, &styles.default_style);
                    opt_or_exec(&styles.pressed_focus_style, &plain)
                } else {
                    opt_or_exec(&styles.pressed_style, &styles.default_style)
                }
            },
        }
    }
}

} // verus!
