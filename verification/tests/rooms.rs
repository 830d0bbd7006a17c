use laundry_api::response::ApiError;
use laundry_api::room::RoomSubmission;
use laundry_api::store::Store;

#[test]
fn get_room_on_empty_store_is_not_found() {
    let store = Store::new();
    let res = store.get_room(1);
    assert_eq!(res, Err(ApiError::NotFound));
    assert_eq!(ApiError::NotFound.status(), 404);
}

#[test]
fn get_unknown_room_id_is_not_found() {
    let mut store = Store::new();
    store
        .add_room(RoomSubmission { name: String::from("Room 1"), description: None })
        .unwrap();
    assert_eq!(store.get_room(2), Err(ApiError::NotFound));
    assert_eq!(store.get_room(-1), Err(ApiError::NotFound));
}

#[test]
fn add_room_generates_sequential_ids() {
    let mut store = Store::new();
    let first = store
        .add_room(RoomSubmission {
            name: String::from("Room 1"),
            description: Some(String::from("Room 1 in Complex A")),
        })
        .unwrap();
    assert_eq!(first.room_id, 1);
    assert_eq!(first.name, "Room 1");
    assert_eq!(first.description.as_deref(), Some("Room 1 in Complex A"));
    let second = store
        .add_room(RoomSubmission { name: String::from("Room 2"), description: None })
        .unwrap();
    assert_eq!(second.room_id, 2);
    assert_eq!(second.description, None);
}

#[test]
fn add_room_does_not_check_name_uniqueness() {
    let mut store = Store::new();
    let first = store
        .add_room(RoomSubmission { name: String::from("Laundry"), description: None })
        .unwrap();
    let second = store
        .add_room(RoomSubmission { name: String::from("Laundry"), description: None })
        .unwrap();
    assert_eq!(first.name, second.name);
    assert_ne!(first.room_id, second.room_id);
    assert_eq!(store.get_all_rooms().len(), 2);
}

#[test]
fn get_room_returns_the_created_row() {
    let mut store = Store::new();
    let created = store
        .add_room(RoomSubmission { name: String::from("Room 1"), description: None })
        .unwrap();
    let fetched = store.get_room(created.room_id).unwrap();
    assert_eq!(fetched, created);
}

#[test]
fn list_rooms_is_in_insertion_order() {
    let mut store = Store::new();
    assert!(store.get_all_rooms().is_empty());
    store
        .add_room(RoomSubmission { name: String::from("A"), description: None })
        .unwrap();
    store
        .add_room(RoomSubmission { name: String::from("B"), description: None })
        .unwrap();
    let rooms = store.get_all_rooms();
    assert_eq!(rooms.len(), 2);
    assert_eq!(rooms[0].name, "A");
    assert_eq!(rooms[1].name, "B");
}

#[test]
fn delete_room_twice_reports_not_found_the_second_time() {
    let mut store = Store::new();
    let created = store
        .add_room(RoomSubmission { name: String::from("Room 1"), description: None })
        .unwrap();
    let deleted = store.delete_room(created.room_id).unwrap();
    assert_eq!(deleted, created);
    assert_eq!(store.delete_room(created.room_id), Err(ApiError::NotFound));
    assert!(store.get_all_rooms().is_empty());
}

#[test]
fn room_listings_require_the_room() {
    let store = Store::new();
    assert_eq!(store.get_room_machines(1), Err(ApiError::NotFound));
    assert_eq!(store.get_room_reports(1), Err(ApiError::NotFound));
    assert_eq!(store.get_room_archived_reports(1), Err(ApiError::NotFound));
}

#[test]
fn room_listings_of_a_fresh_room_are_empty() {
    let mut store = Store::new();
    let room = store
        .add_room(RoomSubmission { name: String::from("Room 1"), description: None })
        .unwrap();
    assert!(store.get_room_machines(room.room_id).unwrap().is_empty());
    assert!(store.get_room_reports(room.room_id).unwrap().is_empty());
    assert!(store.get_room_archived_reports(room.room_id).unwrap().is_empty());
}
