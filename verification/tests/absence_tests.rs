use presenze::absence::{day_of_week, DeleteAbsenceRequest, PatchAbsenceRequest};
use presenze::import::ImportMeta;
use presenze::normalize::RawRecord;
use presenze::store::Store;
use presenze::types::{
    AbsenceStatus, ImportError, ImportMode, IsoDow, TimeOfDay, ValidationFault,
};

const OWNER: i64 = 1;
const STRANGER: i64 = 2;
const A_MONDAY: i64 = 8;

fn lesson_record(teacher: &str, day: &str, hour: u8, minute: u8) -> RawRecord {
    RawRecord {
        duration: Some("1:00".to_string()),
        subject: Some("INFORMATICA".to_string()),
        teachers: vec![teacher.to_string()],
        groups: Vec::new(),
        rooms: vec!["101".to_string()],
        day_code: Some(day.to_string()),
        time: Some(TimeOfDay::new(hour, minute)),
    }
}

fn availability_record(teacher: &str, day: &str, hour: u8, minute: u8) -> RawRecord {
    RawRecord {
        duration: None,
        subject: Some("DISPO".to_string()),
        teachers: vec![teacher.to_string()],
        groups: Vec::new(),
        rooms: vec!["DISPOSIZIONE#1".to_string()],
        day_code: Some(day.to_string()),
        time: Some(TimeOfDay::new(hour, minute)),
    }
}

/// A store with one absence of teacher "A" and one availability of "B".
fn scenario() -> (Store, u64) {
    let mut store = Store::new();
    let records = vec![
        lesson_record("A", "LUN", 8, 0),
        availability_record("B", "LUN", 8, 0),
    ];
    let meta = ImportMeta {
        file_name: "orario.xml".to_string(),
        mode: ImportMode::Write,
        begin_ts: 1,
        end_ts: 30,
    };
    store.apply_import(&meta, &records, OWNER).expect("import");
    let absent_teacher = store.lessons[0].teacher_id.unwrap();
    store
        .add_absence(absent_teacher, A_MONDAY, TimeOfDay::new(8, 0), TimeOfDay::new(8, 0), OWNER)
        .expect("absence");
    let id = store.absences[0].id;
    (store, id)
}

#[test]
fn day_of_week_cycles_from_monday() {
    assert_eq!(day_of_week(1), IsoDow::Mon);
    assert_eq!(day_of_week(2), IsoDow::Tue);
    assert_eq!(day_of_week(7), IsoDow::Sun);
    assert_eq!(day_of_week(8), IsoDow::Mon);
    assert_eq!(day_of_week(13), IsoDow::Sat);
}

#[test]
fn new_absences_start_uncovered() {
    let (store, _) = scenario();
    assert_eq!(store.absences.len(), 1);
    assert_eq!(store.absences[0].status, AbsenceStatus::Uncovered);
    assert_eq!(store.absences[0].substitute_availability_id, None);
    assert_eq!(store.absences[0].date, A_MONDAY);
}

#[test]
fn absence_interval_must_be_ordered() {
    let (mut store, _) = scenario();
    let res = store.add_absence(0, A_MONDAY, TimeOfDay::new(9, 0), TimeOfDay::new(8, 0), OWNER);
    match res {
        Err(ImportError::Validation { fault, .. }) => {
            assert_eq!(fault, ValidationFault::TimeOrder)
        },
        other => panic!("unexpected: {:?}", other),
    }
}

#[test]
fn substitute_found_requires_a_reference() {
    let (mut store, id) = scenario();
    let req = PatchAbsenceRequest {
        id,
        status: AbsenceStatus::SubstituteFound,
        substitute_teacher_availability_id: None,
    };
    match store.set_absence_status(&req, OWNER) {
        Err(ImportError::Validation { fault, .. }) => {
            assert_eq!(fault, ValidationFault::SubstituteBinding)
        },
        other => panic!("unexpected: {:?}", other),
    }
    assert_eq!(store.absences[0].status, AbsenceStatus::Uncovered);
}

#[test]
fn other_statuses_reject_a_reference() {
    let (mut store, id) = scenario();
    for status in [
        AbsenceStatus::Uncovered,
        AbsenceStatus::ClassDelayed,
        AbsenceStatus::ClassCanceled,
    ] {
        let req = PatchAbsenceRequest {
            id,
            status,
            substitute_teacher_availability_id: Some(0),
        };
        match store.set_absence_status(&req, OWNER) {
            Err(ImportError::Validation { fault, .. }) => {
                assert_eq!(fault, ValidationFault::SubstituteBinding)
            },
            other => panic!("unexpected: {:?}", other),
        }
    }
}

#[test]
fn valid_status_changes_are_applied() {
    let (mut store, id) = scenario();
    let req = PatchAbsenceRequest {
        id,
        status: AbsenceStatus::ClassDelayed,
        substitute_teacher_availability_id: None,
    };
    store.set_absence_status(&req, OWNER).expect("delay");
    assert_eq!(store.absences[0].status, AbsenceStatus::ClassDelayed);

    let req = PatchAbsenceRequest {
        id,
        status: AbsenceStatus::SubstituteFound,
        substitute_teacher_availability_id: Some(0),
    };
    store.set_absence_status(&req, OWNER).expect("substitute");
    assert_eq!(store.absences[0].status, AbsenceStatus::SubstituteFound);
    assert_eq!(store.absences[0].substitute_availability_id, Some(0));
}

#[test]
fn status_change_by_another_owner_is_rejected() {
    let (mut store, id) = scenario();
    let req = PatchAbsenceRequest {
        id,
        status: AbsenceStatus::ClassCanceled,
        substitute_teacher_availability_id: None,
    };
    match store.set_absence_status(&req, STRANGER) {
        Err(ImportError::Scope) => {},
        other => panic!("unexpected: {:?}", other),
    }
    assert_eq!(store.absences[0].status, AbsenceStatus::Uncovered);
}

#[test]
fn unknown_substitute_reference_is_rejected() {
    let (mut store, id) = scenario();
    let req = PatchAbsenceRequest {
        id,
        status: AbsenceStatus::SubstituteFound,
        substitute_teacher_availability_id: Some(7),
    };
    match store.set_absence_status(&req, OWNER) {
        Err(ImportError::Constraint { .. }) => {},
        other => panic!("unexpected: {:?}", other),
    }
}

#[test]
fn delete_absence_removes_the_row() {
    let (mut store, id) = scenario();
    store.delete_absence(&DeleteAbsenceRequest { id }, OWNER).expect("delete");
    assert_eq!(store.absences.len(), 0);
}

#[test]
fn delete_by_another_owner_is_rejected() {
    let (mut store, id) = scenario();
    match store.delete_absence(&DeleteAbsenceRequest { id }, STRANGER) {
        Err(ImportError::Scope) => {},
        other => panic!("unexpected: {:?}", other),
    }
    assert_eq!(store.absences.len(), 1);
}

#[test]
fn absence_ids_stay_distinct() {
    let (mut store, id) = scenario();
    store.delete_absence(&DeleteAbsenceRequest { id }, OWNER).unwrap();
    let absent_teacher = store.lessons[0].teacher_id.unwrap();
    store
        .add_absence(absent_teacher, A_MONDAY, TimeOfDay::new(8, 0), TimeOfDay::new(8, 0), OWNER)
        .unwrap();
    assert_ne!(store.absences[0].id, id);
}

#[test]
fn status_defaults_to_uncovered() {
    assert_eq!(AbsenceStatus::default(), AbsenceStatus::Uncovered);
}

#[test]
fn import_mode_defaults_to_write() {
    assert_eq!(ImportMode::default(), ImportMode::Write);
}

#[test]
fn iso_dow_numbers_run_monday_through_sunday() {
    let days = [
        IsoDow::Mon,
        IsoDow::Tue,
        IsoDow::Wed,
        IsoDow::Thu,
        IsoDow::Fri,
        IsoDow::Sat,
        IsoDow::Sun,
    ];
    for (i, d) in days.iter().enumerate() {
        assert_eq!(d.iso_dow(), (i + 1) as i16);
    }
}
