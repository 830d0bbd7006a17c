use laundry_api::machine::MachineSubmission;
use laundry_api::models::MachineType;
use laundry_api::models::ReportType;
use laundry_api::report::ArchiveSubmission;
use laundry_api::report::ReportSubmission;
use laundry_api::response::ApiError;
use laundry_api::room::RoomSubmission;
use laundry_api::store::Store;
use laundry_api::user::UserSubmission;

const NOON: i64 = 1_672_574_400;

fn populated_store() -> Store {
    let mut store = Store::new();
    store
        .add_room(RoomSubmission { name: String::from("Room 1"), description: None })
        .unwrap();
    store
        .add_machine(MachineSubmission {
            room_id: 1,
            machine_id: String::from("A"),
            machine_type: MachineType::Dryer,
        })
        .unwrap();
    store
        .add_user(UserSubmission { username: String::from("admin"), admin: true })
        .unwrap();
    store
}

fn broken_dryer_submission() -> ReportSubmission {
    ReportSubmission {
        machine_id: String::from("A"),
        room_id: 1,
        reporter_username: String::from("admin"),
        report_type: ReportType::Broken,
        description: Some(String::from("No heat")),
    }
}

#[test]
fn submit_report_against_unknown_machine_creates_no_row() {
    let mut store = populated_store();
    let res = store.submit_report(
        ReportSubmission {
            machine_id: String::from("B"),
            room_id: 1,
            reporter_username: String::from("admin"),
            report_type: ReportType::Caution,
            description: None,
        },
        NOON,
    );
    assert_eq!(res, Err(ApiError::InvalidReference));
    assert_eq!(ApiError::InvalidReference.status(), 400);
    assert!(store.get_all_reports().is_empty());
    assert!(store.get_all_archived_reports().is_empty());
    assert!(store.get_room_reports(1).unwrap().is_empty());
}

#[test]
fn submit_report_by_unknown_reporter_is_a_constraint_violation() {
    let mut store = populated_store();
    let res = store.submit_report(
        ReportSubmission {
            machine_id: String::from("A"),
            room_id: 1,
            reporter_username: String::from("ghost"),
            report_type: ReportType::Broken,
            description: None,
        },
        NOON,
    );
    assert_eq!(res, Err(ApiError::ConstraintViolation));
    assert_eq!(ApiError::ConstraintViolation.status(), 400);
    assert!(store.get_all_reports().is_empty());
}

#[test]
fn submitted_report_carries_the_submission_and_the_stamp() {
    let mut store = populated_store();
    let report = store.submit_report(broken_dryer_submission(), NOON).unwrap();
    assert_eq!(report.report_id, 1);
    assert_eq!(report.room_id, 1);
    assert_eq!(report.machine_id, "A");
    assert_eq!(report.reporter_username, "admin");
    assert_eq!(report.report_type, ReportType::Broken);
    assert_eq!(report.time, NOON);
    assert_eq!(report.description.as_deref(), Some("No heat"));
    assert!(!report.archived);
    let fetched = store.get_report(1).unwrap();
    assert_eq!(fetched, report);
}

#[test]
fn submit_report_now_stamps_with_the_clock() {
    let mut store = populated_store();
    let report = store.submit_report_now(broken_dryer_submission()).unwrap();
    // The test suite postdates 2023; a report stamped by the real clock
    // must be later than a stamp from that year.
    assert!(report.time > NOON);
    assert!(!report.archived);
}

#[test]
fn get_unknown_report_is_not_found() {
    let store = Store::new();
    assert_eq!(store.get_report(1), Err(ApiError::NotFound));
}

#[test]
fn archive_moves_a_report_between_the_listings() {
    let mut store = populated_store();
    let report = store.submit_report(broken_dryer_submission(), NOON).unwrap();
    assert_eq!(store.get_all_reports().len(), 1);
    assert!(store.get_all_archived_reports().is_empty());

    let archived = store.archive_report(ArchiveSubmission { report_id: report.report_id }).unwrap();
    assert!(archived.archived);
    assert_eq!(archived.report_id, report.report_id);

    assert!(store.get_all_reports().is_empty());
    let archived_list = store.get_all_archived_reports();
    assert_eq!(archived_list.len(), 1);
    assert_eq!(archived_list[0], archived);

    assert!(store.get_room_reports(1).unwrap().is_empty());
    assert_eq!(store.get_room_archived_reports(1).unwrap(), vec![archived.clone()]);
    assert!(store.get_machine_reports(1, &String::from("A")).unwrap().is_empty());
    assert_eq!(store.get_machine_archived_reports(1, &String::from("A")).unwrap().len(), 1);
    assert!(store.get_user_reports(&String::from("admin")).unwrap().is_empty());
    assert_eq!(store.get_user_archived_reports(&String::from("admin")).unwrap().len(), 1);
}

#[test]
fn archiving_twice_still_succeeds_and_changes_nothing() {
    let mut store = populated_store();
    let report = store.submit_report(broken_dryer_submission(), NOON).unwrap();
    let first = store.archive_report(ArchiveSubmission { report_id: report.report_id }).unwrap();
    let second = store.archive_report(ArchiveSubmission { report_id: report.report_id }).unwrap();
    assert_eq!(first, second);
    assert!(second.archived);
    assert_eq!(store.get_all_archived_reports().len(), 1);
}

#[test]
fn archive_of_an_unknown_report_is_a_bad_request() {
    let mut store = Store::new();
    let res = store.archive_report(ArchiveSubmission { report_id: 1 });
    assert_eq!(res, Err(ApiError::InvalidReference));
    assert_eq!(ApiError::InvalidReference.status(), 400);
}

#[test]
fn delete_report_twice_reports_not_found_the_second_time() {
    let mut store = populated_store();
    let report = store.submit_report(broken_dryer_submission(), NOON).unwrap();
    let deleted = store.delete_report(report.report_id).unwrap();
    assert_eq!(deleted, report);
    assert_eq!(store.delete_report(report.report_id), Err(ApiError::NotFound));
    assert_eq!(store.get_report(report.report_id), Err(ApiError::NotFound));
}

#[test]
fn report_ids_are_sequential_and_survive_deletion() {
    let mut store = populated_store();
    let first = store.submit_report(broken_dryer_submission(), NOON).unwrap();
    assert_eq!(first.report_id, 1);
    store.delete_report(1).unwrap();
    let second = store.submit_report(broken_dryer_submission(), NOON + 60).unwrap();
    assert_eq!(second.report_id, 2);
}

#[test]
fn listings_are_scoped_to_their_parent() {
    let mut store = populated_store();
    store
        .add_room(RoomSubmission { name: String::from("Room 2"), description: None })
        .unwrap();
    store
        .add_machine(MachineSubmission {
            room_id: 2,
            machine_id: String::from("A"),
            machine_type: MachineType::Washer,
        })
        .unwrap();
    store
        .add_user(UserSubmission { username: String::from("resident"), admin: false })
        .unwrap();
    store.submit_report(broken_dryer_submission(), NOON).unwrap();
    store
        .submit_report(
            ReportSubmission {
                machine_id: String::from("A"),
                room_id: 2,
                reporter_username: String::from("resident"),
                report_type: ReportType::Caution,
                description: None,
            },
            NOON + 60,
        )
        .unwrap();

    assert_eq!(store.get_all_reports().len(), 2);
    assert_eq!(store.get_room_reports(1).unwrap().len(), 1);
    assert_eq!(store.get_room_reports(2).unwrap().len(), 1);
    assert_eq!(store.get_machine_reports(1, &String::from("A")).unwrap().len(), 1);
    assert_eq!(store.get_machine_reports(2, &String::from("A")).unwrap().len(), 1);
    assert_eq!(store.get_user_reports(&String::from("admin")).unwrap().len(), 1);
    assert_eq!(store.get_user_reports(&String::from("resident")).unwrap().len(), 1);
    assert_eq!(store.get_room_reports(2).unwrap()[0].report_type, ReportType::Caution);
}

#[test]
fn storage_failure_maps_to_a_server_error() {
    assert_eq!(ApiError::StorageFailure.status(), 500);
    assert_eq!(ApiError::NotFound.status(), 404);
    assert_eq!(ApiError::InvalidReference.status(), 400);
    assert_eq!(ApiError::Conflict.status(), 409);
    assert_eq!(ApiError::ConstraintViolation.status(), 400);
}
