use timeline_locator::counter::{get_value, increment, SimpleCounter};
use timeline_locator::logout::{LogoutState, LogoutStateMachine};
use timeline_locator::rooms::{
    add_room, clear_all_rooms, get_room, get_room_cache, update_unread_count, RoomCache, RoomData,
    UiContext,
};
use timeline_locator::sealed::{self, UiThreadMarker, UiThreadToken};

#[test]
fn test_ui_context_usage() {
    let mut ui = UiContext::new();

    add_room(
        &mut ui,
        RoomData { id: "test_room".to_string(), name: "Test Room".to_string(), unread_count: 0 },
    );

    let room = get_room(&ui, "test_room");
    assert!(room.is_some());
    assert_eq!(room.unwrap().name, "Test Room");

    update_unread_count(&mut ui, "test_room", 5);
    let room = get_room(&ui, "test_room");
    assert_eq!(room.unwrap().unread_count, 5);

    clear_all_rooms(&mut ui);
    assert!(get_room(&ui, "test_room").is_none());
}

#[test]
fn test_witness_type_approach() {
    let mut ui = UiContext::new();

    add_room(&mut ui, RoomData { id: "test".to_string(), name: "Test".to_string(), unread_count: 0 });

    assert!(get_room(&ui, "test").is_some());
}

#[test]
fn test_sealed_trait_approach() {
    let token = UiThreadToken::new();
    let mut cache = RoomCache::new();

    sealed::add_room(
        &token,
        &mut cache,
        RoomData { id: "test".to_string(), name: "Test".to_string(), unread_count: 0 },
    );

    assert!(sealed::get_room(&token, &cache, "test").is_some());
}

#[test]
fn sealed_marker_reaches_rooms() {
    let mut cache = RoomCache::new();
    sealed::add_room(
        &UiThreadMarker,
        &mut cache,
        RoomData { id: "room1".to_string(), name: "General".to_string(), unread_count: 0 },
    );
    assert_eq!(sealed::get_room(&UiThreadMarker, &cache, "room1").unwrap().name, "General");
    assert!(sealed::get_room(&UiThreadMarker, &cache, "room2").is_none());
}

#[test]
fn add_room_replaces_same_id() {
    let mut ui = UiContext::new();
    add_room(&mut ui, RoomData { id: "r".to_string(), name: "Old".to_string(), unread_count: 1 });
    add_room(&mut ui, RoomData { id: "r".to_string(), name: "New".to_string(), unread_count: 2 });
    add_room(&mut ui, RoomData { id: "s".to_string(), name: "Other".to_string(), unread_count: 0 });
    let room = get_room(&ui, "r").unwrap();
    assert_eq!(room.name, "New");
    assert_eq!(room.unread_count, 2);
    assert_eq!(get_room_cache(&ui).len(), 2);
}

#[test]
fn update_unread_count_of_missing_room_changes_nothing() {
    let mut ui = UiContext::new();
    add_room(&mut ui, RoomData { id: "r".to_string(), name: "R".to_string(), unread_count: 1 });
    update_unread_count(&mut ui, "missing", 9);
    assert!(get_room(&ui, "missing").is_none());
    assert_eq!(get_room(&ui, "r").unwrap().unread_count, 1);
    assert_eq!(get_room_cache(&ui).len(), 1);
}

#[test]
fn test_state_transitions() {
    let mut sm = LogoutStateMachine::new();

    assert!(matches!(sm.state(), LogoutState::Idle));

    sm.transition_to(LogoutState::PreChecking, "Test", 10);
    assert!(matches!(sm.state(), LogoutState::PreChecking));
    assert_eq!(sm.message(), "Test");
    assert_eq!(sm.progress(), 10);
}

#[test]
fn logout_records_failure() {
    let mut sm = LogoutStateMachine::new();
    sm.transition_to(LogoutState::Failed("Cleanup timeout".to_string()), "Failed", 70);
    assert!(matches!(sm.state(), LogoutState::Failed(reason) if reason == "Cleanup timeout"));
}

#[test]
fn test_counter_basic() {
    let mut counter = SimpleCounter::new();
    increment(&mut counter);
    assert_eq!(get_value(&counter), 1);
}

#[test]
fn simple_counter_counts() {
    let mut counter = SimpleCounter::new();
    for _ in 0..6 {
        counter.increment();
    }
    assert_eq!(counter.get(), 6);
}
