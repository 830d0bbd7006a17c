//! The full life of one fault report, from an empty store to the
//! archived listing.

use laundry_api::machine::MachineSubmission;
use laundry_api::models::MachineType;
use laundry_api::models::ReportType;
use laundry_api::report::ArchiveSubmission;
use laundry_api::report::ReportSubmission;
use laundry_api::response::ApiError;
use laundry_api::room::RoomSubmission;
use laundry_api::store::Store;
use laundry_api::user::UserSubmission;

#[test]
fn a_report_is_filed_and_archived_end_to_end() {
    let mut store = Store::new();

    let room = store
        .add_room(RoomSubmission {
            name: String::from("Room 1"),
            description: Some(String::from("Room 1 in Complex A")),
        })
        .unwrap();
    assert_eq!(room.room_id, 1);

    let machine = store
        .add_machine(MachineSubmission {
            room_id: 1,
            machine_id: String::from("A"),
            machine_type: MachineType::Dryer,
        })
        .unwrap();
    assert_eq!(machine.machine_id, "A");

    let submission = ReportSubmission {
        machine_id: String::from("A"),
        room_id: 1,
        reporter_username: String::from("admin"),
        report_type: ReportType::Broken,
        description: Some(String::from("No heat")),
    };

    // The reporter has no user row yet, so the reference check fails.
    let premature = store.submit_report(
        ReportSubmission {
            machine_id: String::from("A"),
            room_id: 1,
            reporter_username: String::from("admin"),
            report_type: ReportType::Broken,
            description: Some(String::from("No heat")),
        },
        1_672_574_400,
    );
    assert_eq!(premature, Err(ApiError::ConstraintViolation));
    assert_eq!(ApiError::ConstraintViolation.status(), 400);

    store
        .add_user(UserSubmission { username: String::from("admin"), admin: true })
        .unwrap();

    let report = store.submit_report(submission, 1_672_574_400).unwrap();
    assert_eq!(report.report_id, 1);
    assert!(!report.archived);

    let archived = store.archive_report(ArchiveSubmission { report_id: 1 }).unwrap();
    assert!(archived.archived);

    let unarchived_listing = store.get_room_reports(1).unwrap();
    assert!(unarchived_listing.is_empty());

    let archived_listing = store.get_room_archived_reports(1).unwrap();
    assert_eq!(archived_listing.len(), 1);
    assert_eq!(archived_listing[0].report_id, 1);
    assert_eq!(archived_listing[0].description.as_deref(), Some("No heat"));
    assert!(archived_listing[0].archived);
}
