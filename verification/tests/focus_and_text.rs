use game_client::event_system::{should_dispatch_to_target, should_wrap_unhandled, HandledEventExt};
use game_client::focus::{
    focus_change_events, FocusReleased, Focused, InputFocus, InputFocusPolicy, ReleaseFocusEvent,
};
use game_client::input_map::{ButtonState, LogicalKey};
use game_client::text_input::{
    apply_text_edit, basic_text_input_step, text_edit_for, TextEdit, TextInputChangeEvent,
};
use game_client::PLACEHOLDER_ENTITY;

#[test]
fn focus_moves_to_existing_entity() {
    let mut focus = InputFocus(None);
    assert_eq!(focus.set_next_input_focus(Some(4), true), Ok(()));
    assert_eq!(focus.0, Some(4));
}

#[test]
fn focus_change_to_missing_entity_fails_and_keeps_focus() {
    let mut focus = InputFocus(Some(4));
    assert_eq!(focus.set_next_input_focus(Some(9), false), Err(()));
    assert_eq!(focus.0, Some(4));
}

#[test]
fn focus_clears_on_none() {
    let mut focus = InputFocus(Some(4));
    assert_eq!(focus.set_next_input_focus(None, true), Ok(()));
    assert_eq!(focus.0, None);
}

#[test]
fn despawn_falls_back_to_nearest_accepting_ancestor() {
    let mut focus = InputFocus(Some(10));
    let ancestors = vec![
        (11, InputFocusPolicy::Ignore),
        (12, InputFocusPolicy::All),
        (13, InputFocusPolicy::All),
    ];
    focus.fallback_after_despawn(10, &ancestors);
    assert_eq!(focus.0, Some(12));
}

#[test]
fn despawn_of_unfocused_entity_changes_nothing() {
    let mut focus = InputFocus(Some(10));
    let ancestors = vec![(12, InputFocusPolicy::All)];
    focus.fallback_after_despawn(99, &ancestors);
    assert_eq!(focus.0, Some(10));
}

#[test]
fn release_to_parent_honours_allow_none() {
    let mut focus = InputFocus(Some(10));
    let chain = vec![(10, InputFocusPolicy::Ignore), (11, InputFocusPolicy::Disabled)];
    focus.apply_release_event(
        &ReleaseFocusEvent::ToParent {
            entity: 10,
            allow_none: true,
        },
        &chain,
    );
    assert_eq!(focus.0, None);
}

#[test]
fn release_to_parent_keeps_focus_without_allow_none() {
    let mut focus = InputFocus(Some(10));
    let chain = vec![(10, InputFocusPolicy::Ignore)];
    focus.apply_release_event(
        &ReleaseFocusEvent::ToParent {
            entity: 10,
            allow_none: false,
        },
        &chain,
    );
    assert_eq!(focus.0, Some(10));
}

#[test]
fn release_all_clears_focus() {
    let mut focus = InputFocus(Some(10));
    focus.apply_release_event(&ReleaseFocusEvent::All, &Vec::new());
    assert_eq!(focus.0, None);
}

#[test]
fn focus_change_emits_release_and_focus_notifications() {
    let (released, focused) = focus_change_events(Some(1), Some(2));
    assert_eq!(released, Some(FocusReleased { entity: 1 }));
    assert_eq!(focused, Some(Focused { entity: 2 }));
    let (released, focused) = focus_change_events(Some(1), Some(1));
    assert_eq!(released, None);
    assert_eq!(focused, None);
    let (released, focused) = focus_change_events(None, Some(3));
    assert_eq!(released, None);
    assert_eq!(focused, Some(Focused { entity: 3 }));
}

#[test]
fn events_are_dispatched_only_to_real_targets() {
    assert!(should_dispatch_to_target(5));
    assert!(!should_dispatch_to_target(PLACEHOLDER_ENTITY));
}

struct Ping {
    done: bool,
}

impl HandledEventExt for Ping {
    fn handled_view(&self) -> bool {
        self.done
    }

    fn is_handled(&self) -> bool {
        self.done
    }

    fn set_handled(&mut self, handled: bool) {
        self.done = handled;
    }
}

#[test]
fn unhandled_events_are_wrapped() {
    let mut ping = Ping { done: false };
    assert!(should_wrap_unhandled(&ping));
    ping.set_handled(true);
    assert!(!should_wrap_unhandled(&ping));
}

#[test]
fn character_keys_append_their_text() {
    let mut text = "ab".to_string();
    apply_text_edit(&mut text, &TextEdit::AppendText("cd".to_string()));
    assert_eq!(text, "abcd");
}

#[test]
fn space_backspace_and_clear_edit_the_text() {
    let mut text = "ab".to_string();
    apply_text_edit(&mut text, &TextEdit::AppendSpace);
    assert_eq!(text, "ab ");
    apply_text_edit(&mut text, &TextEdit::DeleteLast);
    assert_eq!(text, "ab");
    apply_text_edit(&mut text, &TextEdit::Clear);
    assert_eq!(text, "");
    apply_text_edit(&mut text, &TextEdit::DeleteLast);
    assert_eq!(text, "");
}

#[test]
fn key_release_without_repeat_asks_for_no_edit() {
    assert!(text_edit_for(&LogicalKey::Backspace, false, ButtonState::Released).is_none());
    assert!(text_edit_for(&LogicalKey::Backspace, true, ButtonState::Released).is_some());
    assert!(text_edit_for(&LogicalKey::Escape, false, ButtonState::Pressed).is_none());
}

#[test]
fn text_input_step_edits_only_the_focused_entity() {
    let focus = InputFocus(Some(3));
    let mut text = "hi".to_string();
    basic_text_input_step(
        3,
        &focus,
        &LogicalKey::Character("!".to_string()),
        false,
        ButtonState::Pressed,
        &mut text,
    );
    assert_eq!(text, "hi!");
    basic_text_input_step(
        4,
        &focus,
        &LogicalKey::Character("?".to_string()),
        false,
        ButtonState::Pressed,
        &mut text,
    );
    assert_eq!(text, "hi!");
    basic_text_input_step(3, &focus, &LogicalKey::Soft1, false, ButtonState::Pressed, &mut text);
    assert_eq!(text, "");
}

#[test]
fn change_events_accumulate_appends() {
    let mut change = TextInputChangeEvent::Append("a".to_string());
    change.append_str("b");
    assert_eq!(change, TextInputChangeEvent::Append("ab".to_string()));
    let mut change = TextInputChangeEvent::Replace("xyz".to_string());
    change.append_str("b");
    assert_eq!(change, TextInputChangeEvent::Append("b".to_string()));
}
