use game_client::asset_loading::LoadingStateGroups;
use game_client::focus::{InputFocus, InputFocusPolicy};
use game_client::interaction_style::{
    interaction_style_update, InteractionNodeStyle, NodeStyleBundle,
};
use game_client::node_style::{determine_final_style, MainStyle, NodeStyle, PickingInteraction};
use game_client::theme::{
    resolve_changed_styles, resolve_class_style, SceneTree, Theme, ThemeElement,
};
use game_client::unique_entity_ref::UniqueEntityRefs;

fn bundle(tag: u64) -> NodeStyleBundle {
    NodeStyleBundle {
        background_color: tag,
        outline: 0,
        border_radius: 0,
        border_color: 0,
        text_color: tag + 100,
    }
}

fn style(tag: u64) -> InteractionNodeStyle {
    InteractionNodeStyle {
        default_style: bundle(tag),
        hover_style: None,
        pressed_style: None,
        disabled_style: None,
        focus_style: None,
        hover_focus_style: None,
        pressed_focus_style: None,
    }
}

fn theme_with(class: &str, tag: u64) -> Theme {
    let mut theme = Theme::new();
    theme.set_class_style(class.to_string(), style(tag));
    theme
}

#[test]
fn class_resolves_against_nearest_ancestor_theme() {
    // 0 is the root, 1 its child, 2 a grandchild carrying the element.
    let tree = SceneTree {
        parent: vec![None, Some(0), Some(1)],
    };
    let themes = vec![Some(theme_with("button", 1)), Some(theme_with("button", 2)), None];
    let default_theme = theme_with("button", 9);
    let got = resolve_class_style(&tree, &themes, &default_theme, 2, &"button".to_string());
    assert_eq!(got, Some(style(2)));
}

#[test]
fn ancestor_without_the_class_is_skipped() {
    let tree = SceneTree {
        parent: vec![None, Some(0), Some(1)],
    };
    let themes = vec![Some(theme_with("button", 1)), Some(theme_with("label", 2)), None];
    let default_theme = theme_with("button", 9);
    let got = resolve_class_style(&tree, &themes, &default_theme, 2, &"button".to_string());
    assert_eq!(got, Some(style(1)));
}

#[test]
fn unknown_class_falls_back_to_default_theme_and_then_nothing() {
    let tree = SceneTree {
        parent: vec![None, Some(0)],
    };
    let themes = vec![None, None];
    let default_theme = theme_with("button", 9);
    assert_eq!(
        resolve_class_style(&tree, &themes, &default_theme, 1, &"button".to_string()),
        Some(style(9))
    );
    assert_eq!(
        resolve_class_style(&tree, &themes, &default_theme, 1, &"label".to_string()),
        None
    );
}

#[test]
fn changed_theme_restyles_its_whole_subtree() {
    // 0 themed root (changed), 1 and 2 elements below it, 3 an element
    // outside the subtree.
    let tree = SceneTree {
        parent: vec![None, Some(0), Some(1), None],
    };
    let themes = vec![Some(theme_with("button", 5)), None, None, None];
    let elements = vec![
        None,
        Some(ThemeElement::from_class("button".to_string())),
        Some(ThemeElement::from_class("button".to_string())),
        Some(ThemeElement::from_class("button".to_string())),
    ];
    let changed_elements = vec![false, false, false, false];
    let changed_themes = vec![true, false, false, false];
    let default_theme = theme_with("button", 9);
    let r = resolve_changed_styles(
        &tree,
        &themes,
        &elements,
        &changed_elements,
        &changed_themes,
        &default_theme,
    );
    let entities: Vec<usize> = r.iter().map(|ins| ins.entity).collect();
    assert_eq!(entities, vec![1, 2]);
    assert_eq!(r[0].style, style(5));
    assert_eq!(r[1].style, style(5));
}

#[test]
fn changed_element_alone_is_restyled() {
    let tree = SceneTree {
        parent: vec![None, Some(0)],
    };
    let themes = vec![None, None];
    let elements = vec![None, Some(ThemeElement::from_class("button".to_string()))];
    let changed_elements = vec![false, true];
    let changed_themes = vec![false, false];
    let default_theme = theme_with("button", 9);
    let r = resolve_changed_styles(
        &tree,
        &themes,
        &elements,
        &changed_elements,
        &changed_themes,
        &default_theme,
    );
    assert_eq!(r.len(), 1);
    assert_eq!(r[0].entity, 1);
    assert_eq!(r[0].style, style(9));
}

#[test]
fn untouched_elements_are_left_alone() {
    let tree = SceneTree {
        parent: vec![None, Some(0)],
    };
    let themes = vec![None, None];
    let elements = vec![None, Some(ThemeElement::from_class("button".to_string()))];
    let changed_elements = vec![false, false];
    let changed_themes = vec![false, false];
    let default_theme = theme_with("button", 9);
    let r = resolve_changed_styles(
        &tree,
        &themes,
        &elements,
        &changed_elements,
        &changed_themes,
        &default_theme,
    );
    assert!(r.is_empty());
}

fn main_styles() -> NodeStyle {
    NodeStyle {
        default_style: MainStyle {
            background_color: 1,
            outline: 0,
            border_radius: 0,
            border_color: 0,
            text_color: 0,
            text_node_style: 0,
        },
        hover_style: Some(MainStyle {
            background_color: 2,
            ..MainStyle::default()
        }),
        pressed_style: None,
        disabled_style: Some(MainStyle {
            background_color: 3,
            ..MainStyle::default()
        }),
        focus_style: Some(MainStyle {
            background_color: 4,
            ..MainStyle::default()
        }),
        hover_focus_style: None,
        pressed_focus_style: None,
    }
}

#[test]
fn disabled_nodes_show_their_disabled_style() {
    let styles = main_styles();
    let got = determine_final_style(
        1,
        &PickingInteraction::Hovered,
        &styles,
        Some(&InputFocusPolicy::Disabled),
        &InputFocus(Some(1)),
    );
    assert_eq!(got.background_color, 3);
}

#[test]
fn focused_idle_nodes_show_their_focus_style() {
    let styles = main_styles();
    let got = determine_final_style(
        1,
        &PickingInteraction::Idle,
        &styles,
        None,
        &InputFocus(Some(1)),
    );
    assert_eq!(got.background_color, 4);
}

#[test]
fn missing_variants_fall_back_to_the_default_style() {
    let styles = main_styles();
    // pressed has no style of its own, and no pressed-focus style either
    let got = determine_final_style(
        1,
        &PickingInteraction::Pressed,
        &styles,
        None,
        &InputFocus(Some(1)),
    );
    assert_eq!(got.background_color, 1);
    // hovered while focused falls back through the plain hover style
    let got = determine_final_style(
        1,
        &PickingInteraction::Hovered,
        &styles,
        None,
        &InputFocus(Some(1)),
    );
    assert_eq!(got.background_color, 2);
}

#[test]
fn style_pass_skips_nodes_whose_text_child_did_not_change() {
    let styles = style(1);
    let mut refs = UniqueEntityRefs::new();
    refs.set_ref("icon".to_string(), 8);
    refs.clear_changed();
    refs.set_ref("icon".to_string(), 9);
    let got = interaction_style_update(1, &styles, None, Some(&refs), None, &InputFocus(None));
    assert!(got.is_none());
}

#[test]
fn style_pass_forwards_text_color_to_the_text_child() {
    let styles = style(1);
    let mut refs = UniqueEntityRefs::new();
    refs.set_ref("text".to_string(), 8);
    let got = interaction_style_update(
        1,
        &styles,
        Some(&PickingInteraction::Idle),
        Some(&refs),
        None,
        &InputFocus(None),
    )
    .expect("text child changed");
    assert_eq!(got.style, bundle(1));
    assert_eq!(got.text_color_update, Some((8, 101)));
}

#[test]
fn unique_refs_track_changes_per_tag() {
    let mut refs = UniqueEntityRefs::new();
    refs.set_ref("text".to_string(), 8);
    assert_eq!(refs.get_ref(&"text".to_string()), Some(8));
    assert!(refs.has_changed(&"text".to_string()));
    refs.clear_changed();
    assert!(!refs.has_changed(&"text".to_string()));
    refs.remove_ref(&"text".to_string());
    assert_eq!(refs.get_ref(&"text".to_string()), None);
    assert!(refs.has_changed(&"text".to_string()));
}

#[test]
fn empty_or_unknown_groups_count_as_loaded() {
    let groups = LoadingStateGroups::new();
    assert!(groups.is_loaded("level".to_string()));
}

#[test]
fn group_is_loaded_once_its_assets_are_gone() {
    let mut groups = LoadingStateGroups::new();
    groups.add_asset("level".to_string(), 1);
    groups.add_asset("level".to_string(), 2);
    groups.add_asset("menu".to_string(), 2);
    assert!(!groups.is_loaded("level".to_string()));
    assert!(!groups.is_loaded("menu".to_string()));
    groups.remove_asset(2);
    assert!(!groups.is_loaded("level".to_string()));
    assert!(groups.is_loaded("menu".to_string()));
    groups.remove_asset(1);
    assert!(groups.is_loaded("level".to_string()));
}

#[test]
fn update_closes_out_every_loaded_asset() {
    let mut groups = LoadingStateGroups::new();
    groups.add_asset("level".to_string(), 1);
    groups.add_asset("level".to_string(), 2);
    groups.update_with_load_states(&vec![1, 2, 7]);
    assert!(groups.is_loaded("level".to_string()));
}

#[test]
fn removing_an_untracked_asset_changes_nothing() {
    let mut groups = LoadingStateGroups::new();
    groups.add_asset("level".to_string(), 1);
    groups.remove_asset(5);
    assert!(!groups.is_loaded("level".to_string()));
}
