use game_client::event_system::HandledEventExt;
use game_client::input_map::{
    managed_keyboard_input_step, ButtonState, InputMaps, InputValue, KeyStates, KeyboardInput,
    LogicalKey, KEY_CODE_ENTER, KEY_CODE_ESCAPE,
};
use game_client::PLACEHOLDER_ENTITY;

fn escape_press() -> KeyboardInput {
    KeyboardInput {
        key_code: KEY_CODE_ESCAPE,
        logical_key: LogicalKey::Escape,
        state: ButtonState::Pressed,
        repeat: false,
        window: PLACEHOLDER_ENTITY,
    }
}

fn enter_press() -> KeyboardInput {
    KeyboardInput {
        key_code: KEY_CODE_ENTER,
        logical_key: LogicalKey::Enter,
        state: ButtonState::Pressed,
        repeat: false,
        window: PLACEHOLDER_ENTITY,
    }
}

#[test]
fn key_states_report_unseen_keys_as_released() {
    let states = KeyStates::new();
    assert_eq!(states.get_state(42), ButtonState::Released);
}

#[test]
fn set_state_reports_only_real_changes() {
    let mut states = KeyStates::new();
    assert_eq!(
        states.set_state(42, ButtonState::Pressed),
        Some(ButtonState::Released)
    );
    assert_eq!(states.set_state(42, ButtonState::Pressed), None);
    assert_eq!(
        states.set_state(42, ButtonState::Released),
        Some(ButtonState::Pressed)
    );
    assert_eq!(states.get_state(42), ButtonState::Released);
}

#[test]
fn default_bindings_map_escape_to_cancel_and_focus_release() {
    let maps = InputMaps::default();
    let keys = maps
        .cache_lookup(&InputValue::Keyboard(escape_press()))
        .expect("escape is bound");
    assert!(keys.contains(&"ui_cancel".to_string()));
    assert!(keys.contains(&"ui_focus_release".to_string()));
    assert!(!keys.contains(&"ui_confirm".to_string()));
}

#[test]
fn default_bindings_map_enter_to_confirm() {
    let maps = InputMaps::default();
    let keys = maps
        .cache_lookup(&InputValue::Keyboard(enter_press()))
        .expect("enter is bound");
    assert!(keys.contains(&"ui_confirm".to_string()));
    assert!(!keys.contains(&"ui_cancel".to_string()));
}

#[test]
fn added_binding_reaches_the_cache_after_rebuild() {
    let mut maps = InputMaps::default();
    let mut custom = escape_press();
    custom.key_code = 99;
    custom.logical_key = LogicalKey::Other(99);
    maps.add_input_value("ui_custom".to_string(), InputValue::Keyboard(custom.clone()));
    maps.recompute_cache();
    let keys = maps
        .cache_lookup(&InputValue::Keyboard(custom))
        .expect("custom key is bound");
    assert!(keys.contains(&"ui_custom".to_string()));
}

#[test]
fn matches_keycode_ignores_everything_but_the_key() {
    let mut released = escape_press();
    released.state = ButtonState::Released;
    let a = InputValue::Keyboard(escape_press());
    let b = InputValue::Keyboard(released);
    let c = InputValue::Keyboard(enter_press());
    assert!(a.matches_keycode(&b));
    assert!(!a.matches_keycode(&c));
}

#[test]
fn pressing_escape_emits_mapped_and_managed_events() {
    let maps = InputMaps::default();
    let mut states = KeyStates::new();
    let mut event = escape_press();
    event.window = 7;
    let (mapped, managed) = managed_keyboard_input_step(&mut states, &maps, &event);
    let mapped = mapped.expect("escape is bound");
    assert!(mapped.keys.contains(&"ui_cancel".to_string()));
    assert!(mapped.keys.contains(&"ui_focus_release".to_string()));
    let managed = managed.expect("state changed");
    assert_eq!(managed.0.window, PLACEHOLDER_ENTITY);
    assert_eq!(managed.0.key_code, KEY_CODE_ESCAPE);
}

#[test]
fn repeated_press_without_state_change_is_dropped() {
    let maps = InputMaps::default();
    let mut states = KeyStates::new();
    let event = escape_press();
    let (first, _) = managed_keyboard_input_step(&mut states, &maps, &event);
    assert!(first.is_some());
    let (second, managed) = managed_keyboard_input_step(&mut states, &maps, &event);
    assert!(second.is_none());
    assert!(managed.is_none());
}

#[test]
fn release_is_forwarded_but_not_mapped() {
    let maps = InputMaps::default();
    let mut states = KeyStates::new();
    let press = escape_press();
    managed_keyboard_input_step(&mut states, &maps, &press);
    let mut release = escape_press();
    release.state = ButtonState::Released;
    let (mapped, managed) = managed_keyboard_input_step(&mut states, &maps, &release);
    assert!(mapped.is_none());
    assert!(managed.is_some());
}

#[test]
fn mapped_events_track_their_handled_flag() {
    let maps = InputMaps::default();
    let mut states = KeyStates::new();
    let (mapped, _) = managed_keyboard_input_step(&mut states, &maps, &escape_press());
    let mut mapped = mapped.expect("escape is bound");
    assert!(!mapped.is_handled());
    mapped.set_handled(true);
    assert!(mapped.is_handled());
}
