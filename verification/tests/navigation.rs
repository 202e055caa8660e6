use game_client::scene_system::{GenericScene, InstantSpawnState, SceneMap, SpawnState};
use game_client::ui_navigation::{UiNavigation, UiNavigationEvent};

fn loaded() -> SpawnState {
    SpawnState::Instant(InstantSpawnState::Loaded)
}

fn nav_with_pages() -> UiNavigation {
    let mut nav = UiNavigation::new();
    nav.root_page = Some(GenericScene::UiScene(1, loaded()));
    nav.add_page("loading".to_string(), GenericScene::UiScene(2, loaded()));
    nav.add_page("options".to_string(), GenericScene::UiScene(3, loaded()));
    nav
}

#[test]
fn current_path_of_empty_stack_is_none() {
    let nav = UiNavigation::new();
    assert!(nav.get_current_path().is_none());
}

#[test]
fn append_page_queues_on_top_of_live_stack() {
    let mut nav = nav_with_pages();
    nav.queue_append_page("loading".to_string());
    assert_eq!(nav.next_path, Some(vec!["loading".to_string()]));
    assert_eq!(nav.path, Vec::<String>::new());
}

#[test]
fn append_same_page_twice_queues_it_once() {
    let mut nav = nav_with_pages();
    nav.queue_append_page("loading".to_string());
    nav.queue_append_page("loading".to_string());
    assert_eq!(nav.next_path, Some(vec!["loading".to_string()]));
}

#[test]
fn append_current_page_collapses_queued_stack() {
    let mut nav = nav_with_pages();
    nav.path = vec!["options".to_string()];
    nav.next_path = Some(vec!["loading".to_string()]);
    nav.queue_append_page("options".to_string());
    assert_eq!(nav.path, vec!["loading".to_string(), "options".to_string()]);
    assert!(nav.next_path.is_none());
}

#[test]
fn empty_page_name_clears_the_stack() {
    let mut nav = nav_with_pages();
    nav.path = vec!["loading".to_string(), "options".to_string()];
    nav.queue_append_page(String::new());
    assert_eq!(nav.next_path, Some(Vec::new()));
}

#[test]
fn pop_shortens_queued_stack_first() {
    let mut nav = nav_with_pages();
    nav.path = vec!["loading".to_string()];
    nav.next_path = Some(vec!["loading".to_string(), "options".to_string()]);
    nav.queue_pop_pages(1);
    assert_eq!(nav.next_path, Some(vec!["loading".to_string()]));
    assert_eq!(nav.path, vec!["loading".to_string()]);
}

#[test]
fn pop_without_queue_queues_shortened_live_stack() {
    let mut nav = nav_with_pages();
    nav.path = vec!["loading".to_string(), "options".to_string()];
    nav.queue_pop_pages(5);
    assert_eq!(nav.next_path, Some(Vec::new()));
    assert_eq!(nav.path, vec!["loading".to_string(), "options".to_string()]);
}

#[test]
fn append_path_queues_each_page() {
    let mut nav = nav_with_pages();
    let path = vec!["loading".to_string(), "options".to_string()];
    nav.queue_append_path(&path);
    assert_eq!(
        nav.next_path,
        Some(vec!["loading".to_string(), "options".to_string()])
    );
}

#[test]
fn set_path_with_same_top_takes_effect_at_once() {
    let mut nav = nav_with_pages();
    nav.path = vec!["options".to_string()];
    nav.queue_set_path(vec!["loading".to_string(), "options".to_string()]);
    assert_eq!(nav.path, vec!["loading".to_string(), "options".to_string()]);
    assert!(nav.next_path.is_none());
}

#[test]
fn set_path_with_new_top_is_queued() {
    let mut nav = nav_with_pages();
    nav.path = vec!["options".to_string()];
    nav.queue_set_path(vec!["loading".to_string()]);
    assert_eq!(nav.path, vec!["options".to_string()]);
    assert_eq!(nav.next_path, Some(vec!["loading".to_string()]));
}

#[test]
fn applying_queued_change_spawns_registered_page() {
    let mut nav = nav_with_pages();
    nav.next_path = Some(vec!["loading".to_string()]);
    let change = nav.apply_queued_change().expect("queued change");
    assert!(change.remove_children);
    assert_eq!(change.scene, Some(GenericScene::UiScene(2, loaded())));
    assert_eq!(nav.path, vec!["loading".to_string()]);
    assert!(nav.next_path.is_none());
}

#[test]
fn applying_queued_change_without_queue_does_nothing() {
    let mut nav = nav_with_pages();
    assert!(nav.apply_queued_change().is_none());
}

#[test]
fn unknown_page_resolves_to_no_scene() {
    let mut nav = nav_with_pages();
    nav.next_path = Some(vec!["missing".to_string()]);
    let change = nav.apply_queued_change().expect("queued change");
    assert_eq!(change.scene, None);
}

#[test]
fn empty_queued_stack_falls_back_to_root_page() {
    let mut nav = nav_with_pages();
    nav.path = vec!["loading".to_string()];
    nav.next_path = Some(Vec::new());
    let change = nav.apply_queued_change().expect("queued change");
    assert!(change.remove_children);
    assert_eq!(change.scene, Some(GenericScene::UiScene(1, loaded())));
}

#[test]
fn same_top_keeps_children_on_change() {
    let mut nav = nav_with_pages();
    nav.path = vec!["loading".to_string()];
    nav.next_path = Some(vec!["options".to_string(), "loading".to_string()]);
    let change = nav.apply_queued_change().expect("queued change");
    assert!(!change.remove_children);
    assert_eq!(change.scene, Some(GenericScene::UiScene(2, loaded())));
}

#[test]
fn spawn_promotes_queued_stack_and_picks_page() {
    let mut nav = nav_with_pages();
    nav.next_path = Some(vec!["options".to_string()]);
    let scene = nav.apply_spawn();
    assert_eq!(scene, Some(GenericScene::UiScene(3, loaded())));
    assert_eq!(nav.path, vec!["options".to_string()]);
}

#[test]
fn navigation_events_dispatch_to_queue_operations() {
    let mut nav = nav_with_pages();
    nav.apply_navigation_event(&UiNavigationEvent::AppendPath(vec!["loading".to_string()]));
    assert_eq!(nav.next_path, Some(vec!["loading".to_string()]));
    nav.apply_navigation_event(&UiNavigationEvent::PopPath(1));
    assert_eq!(nav.next_path, Some(Vec::new()));
    nav.apply_navigation_event(&UiNavigationEvent::SetPath(vec!["options".to_string()]));
    assert_eq!(nav.next_path, Some(vec!["options".to_string()]));
}

#[test]
fn scene_registry_rejects_second_binding() {
    let mut map = SceneMap::new();
    assert!(map.register("a".to_string(), GenericScene::Scene(7, loaded())));
    assert!(!map.register("a".to_string(), GenericScene::Scene(8, loaded())));
    let got = map.get(&"a".to_string()).copied();
    assert_eq!(got, Some(GenericScene::Scene(7, loaded())));
    assert!(map.get(&"b".to_string()).is_none());
}

#[test]
fn generic_scene_exposes_handle_state_and_kind() {
    let s = GenericScene::DynamicUiScene(9, loaded());
    assert_eq!(s.handle(), 9);
    assert_eq!(s.state(), loaded());
    assert!(s.is_ui());
    assert!(!GenericScene::Scene(1, loaded()).is_ui());
}
