use laundry_api::machine::MachineSubmission;
use laundry_api::models::MachineType;
use laundry_api::response::ApiError;
use laundry_api::room::RoomSubmission;
use laundry_api::store::Store;

fn store_with_room() -> Store {
    let mut store = Store::new();
    store
        .add_room(RoomSubmission { name: String::from("Room 1"), description: None })
        .unwrap();
    store
}

#[test]
fn add_machine_to_unknown_room_is_a_bad_reference() {
    let mut store = Store::new();
    let res = store.add_machine(MachineSubmission {
        room_id: 1,
        machine_id: String::from("A"),
        machine_type: MachineType::Dryer,
    });
    assert_eq!(res, Err(ApiError::InvalidReference));
    assert_eq!(ApiError::InvalidReference.status(), 400);
    assert!(store.get_all_machines().is_empty());
}

#[test]
fn add_machine_with_taken_key_is_a_conflict() {
    let mut store = store_with_room();
    store
        .add_machine(MachineSubmission {
            room_id: 1,
            machine_id: String::from("A"),
            machine_type: MachineType::Dryer,
        })
        .unwrap();
    let res = store.add_machine(MachineSubmission {
        room_id: 1,
        machine_id: String::from("A"),
        machine_type: MachineType::Washer,
    });
    assert_eq!(res, Err(ApiError::Conflict));
    assert_eq!(ApiError::Conflict.status(), 409);
    let kept = store.get_machine(1, &String::from("A")).unwrap();
    assert_eq!(kept.machine_type, MachineType::Dryer);
}

#[test]
fn added_machine_is_retrievable() {
    let mut store = store_with_room();
    let created = store
        .add_machine(MachineSubmission {
            room_id: 1,
            machine_id: String::from("A"),
            machine_type: MachineType::Dryer,
        })
        .unwrap();
    assert_eq!(created.room_id, 1);
    assert_eq!(created.machine_id, "A");
    assert_eq!(created.machine_type, MachineType::Dryer);
    let fetched = store.get_machine(1, &String::from("A")).unwrap();
    assert_eq!(fetched, created);
}

#[test]
fn machine_identity_is_scoped_to_its_room() {
    let mut store = store_with_room();
    store
        .add_room(RoomSubmission { name: String::from("Room 2"), description: None })
        .unwrap();
    store
        .add_machine(MachineSubmission {
            room_id: 1,
            machine_id: String::from("A"),
            machine_type: MachineType::Dryer,
        })
        .unwrap();
    let in_other_room = store.add_machine(MachineSubmission {
        room_id: 2,
        machine_id: String::from("A"),
        machine_type: MachineType::Washer,
    });
    assert!(in_other_room.is_ok());
    assert_eq!(store.get_machine(2, &String::from("A")).unwrap().machine_type, MachineType::Washer);
    assert_eq!(store.get_machine(3, &String::from("A")), Err(ApiError::NotFound));
}

#[test]
fn delete_machine_twice_reports_not_found_the_second_time() {
    let mut store = store_with_room();
    let created = store
        .add_machine(MachineSubmission {
            room_id: 1,
            machine_id: String::from("A"),
            machine_type: MachineType::Dryer,
        })
        .unwrap();
    let deleted = store.delete_machine(1, &String::from("A")).unwrap();
    assert_eq!(deleted, created);
    assert_eq!(store.delete_machine(1, &String::from("A")), Err(ApiError::NotFound));
    assert_eq!(store.get_machine(1, &String::from("A")), Err(ApiError::NotFound));
}

#[test]
fn room_machine_listing_is_filtered_by_room() {
    let mut store = store_with_room();
    store
        .add_room(RoomSubmission { name: String::from("Room 2"), description: None })
        .unwrap();
    store
        .add_machine(MachineSubmission {
            room_id: 1,
            machine_id: String::from("A"),
            machine_type: MachineType::Dryer,
        })
        .unwrap();
    store
        .add_machine(MachineSubmission {
            room_id: 2,
            machine_id: String::from("B"),
            machine_type: MachineType::Washer,
        })
        .unwrap();
    let in_first = store.get_room_machines(1).unwrap();
    assert_eq!(in_first.len(), 1);
    assert_eq!(in_first[0].machine_id, "A");
    assert_eq!(store.get_all_machines().len(), 2);
}

#[test]
fn machine_report_listings_require_the_machine() {
    let store = Store::new();
    assert_eq!(store.get_machine_reports(1, &String::from("A")), Err(ApiError::InvalidReference));
    assert_eq!(
        store.get_machine_archived_reports(1, &String::from("A")),
        Err(ApiError::InvalidReference)
    );
}
