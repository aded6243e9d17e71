use presenze::import::ImportMeta;
use presenze::normalize::RawRecord;
use presenze::store::Store;
use presenze::types::{AvailabilityType, ImportMode, IsoDow, TimeOfDay};

const OWNER: i64 = 1;
const STRANGER: i64 = 2;

// Day 8 on the library's day scale is a Monday (day 1 is a Monday).
const A_MONDAY: i64 = 8;
const A_TUESDAY: i64 = 9;

fn lesson_record(teacher: &str, day: &str, hour: u8, minute: u8, room: &str) -> RawRecord {
    RawRecord {
        duration: Some("1:00".to_string()),
        subject: Some("INFORMATICA".to_string()),
        teachers: vec![teacher.to_string()],
        groups: Vec::new(),
        rooms: vec![room.to_string()],
        day_code: Some(day.to_string()),
        time: Some(TimeOfDay::new(hour, minute)),
    }
}

fn availability_record(teacher: &str, day: &str, hour: u8, minute: u8) -> RawRecord {
    RawRecord {
        duration: None,
        subject: Some("DISPO".to_string()),
        teachers: vec![teacher.to_string()],
        groups: Vec::new(),
        rooms: vec!["DISPOSIZIONE#1".to_string()],
        day_code: Some(day.to_string()),
        time: Some(TimeOfDay::new(hour, minute)),
    }
}

fn meta() -> ImportMeta {
    ImportMeta {
        file_name: "orario.xml".to_string(),
        mode: ImportMode::Write,
        begin_ts: 1,
        end_ts: 30,
    }
}

/// Imports one lesson for teacher "A" (Monday 08:00, room "101") and one
/// availability record, declares "A" absent on a Monday inside the
/// window, and returns the store and the absence id.
fn scenario(availability_day: &str) -> (Store, u64) {
    let mut store = Store::new();
    let records = vec![
        lesson_record("A", "LUN", 8, 0, "101"),
        availability_record("B", availability_day, 8, 0),
    ];
    store.apply_import(&meta(), &records, OWNER).expect("import");
    let absent_teacher = store.lessons[0].teacher_id.expect("lesson teacher");
    let added = store
        .add_absence(absent_teacher, A_MONDAY, TimeOfDay::new(8, 0), TimeOfDay::new(8, 0), OWNER)
        .expect("absence");
    assert_eq!(added, 1);
    let absence_id = store.absences[0].id;
    (store, absence_id)
}

#[test]
fn matching_availability_yields_the_substitute() {
    let (store, absence_id) = scenario("LUN");
    let candidates = store.find_candidates(absence_id, OWNER);
    assert_eq!(candidates.len(), 1);
    assert_eq!(candidates[0].full_name, "B");
    assert_eq!(candidates[0].availability_type, AvailabilityType::Availability);
    assert_eq!(store.teachers[candidates[0].id].full_name, "B");
}

#[test]
fn availability_on_another_day_yields_nothing() {
    let (store, absence_id) = scenario("MAR");
    let candidates = store.find_candidates(absence_id, OWNER);
    assert_eq!(candidates.len(), 0);
}

#[test]
fn availability_at_another_time_yields_nothing() {
    let mut store = Store::new();
    let records = vec![
        lesson_record("A", "LUN", 8, 0, "101"),
        availability_record("B", "LUN", 9, 0),
    ];
    store.apply_import(&meta(), &records, OWNER).expect("import");
    let absent_teacher = store.lessons[0].teacher_id.unwrap();
    store
        .add_absence(absent_teacher, A_MONDAY, TimeOfDay::new(8, 0), TimeOfDay::new(8, 0), OWNER)
        .unwrap();
    let candidates = store.find_candidates(store.absences[0].id, OWNER);
    assert_eq!(candidates.len(), 0);
}

#[test]
fn another_owner_sees_no_candidates() {
    let (store, absence_id) = scenario("LUN");
    let candidates = store.find_candidates(absence_id, STRANGER);
    assert_eq!(candidates.len(), 0);
}

#[test]
fn unknown_absence_yields_nothing() {
    let (store, absence_id) = scenario("LUN");
    let candidates = store.find_candidates(absence_id + 1, OWNER);
    assert_eq!(candidates.len(), 0);
}

#[test]
fn absence_date_outside_the_window_yields_nothing() {
    let mut store = Store::new();
    let records = vec![
        lesson_record("A", "LUN", 8, 0, "101"),
        availability_record("B", "LUN", 8, 0),
    ];
    store.apply_import(&meta(), &records, OWNER).expect("import");
    let absent_teacher = store.lessons[0].teacher_id.unwrap();
    // Day 36 is a Monday too, but past the window's end.
    store
        .add_absence(absent_teacher, 36, TimeOfDay::new(8, 0), TimeOfDay::new(8, 0), OWNER)
        .unwrap();
    let candidates = store.find_candidates(store.absences[0].id, OWNER);
    assert_eq!(candidates.len(), 0);
}

#[test]
fn each_teacher_and_kind_appears_at_most_once() {
    let mut store = Store::new();
    let records = vec![
        lesson_record("A", "LUN", 8, 0, "101"),
        availability_record("B", "LUN", 8, 0),
        availability_record("B", "LUN", 8, 0),
    ];
    store.apply_import(&meta(), &records, OWNER).expect("import");
    let absent_teacher = store.lessons[0].teacher_id.unwrap();
    store
        .add_absence(absent_teacher, A_MONDAY, TimeOfDay::new(8, 0), TimeOfDay::new(8, 0), OWNER)
        .unwrap();
    let candidates = store.find_candidates(store.absences[0].id, OWNER);
    assert_eq!(candidates.len(), 1);
}

#[test]
fn recovery_hours_count_as_coverage() {
    let mut store = Store::new();
    let mut avail = availability_record("B", "LUN", 8, 0);
    avail.subject = Some("RECUPERO_ORARIO".to_string());
    let records = vec![lesson_record("A", "LUN", 8, 0, "101"), avail];
    store.apply_import(&meta(), &records, OWNER).expect("import");
    let absent_teacher = store.lessons[0].teacher_id.unwrap();
    store
        .add_absence(absent_teacher, A_MONDAY, TimeOfDay::new(8, 0), TimeOfDay::new(8, 0), OWNER)
        .unwrap();
    let candidates = store.find_candidates(store.absences[0].id, OWNER);
    assert_eq!(candidates.len(), 1);
    assert_eq!(candidates[0].availability_type, AvailabilityType::RecoveryHours);
}

#[test]
fn can_be_absent_lists_teachers_with_lessons_on_the_day() {
    let mut store = Store::new();
    let records = vec![
        lesson_record("A", "LUN", 8, 0, "101"),
        lesson_record("A", "LUN", 9, 0, "101"),
        lesson_record("B", "MAR", 8, 0, "102"),
        availability_record("C", "LUN", 8, 0),
    ];
    store.apply_import(&meta(), &records, OWNER).expect("import");
    let monday = store.can_be_absent(OWNER, IsoDow::Mon);
    assert_eq!(monday.len(), 1);
    assert_eq!(monday[0].full_name, "A");
    let tuesday = store.can_be_absent(OWNER, IsoDow::Tue);
    assert_eq!(tuesday.len(), 1);
    assert_eq!(tuesday[0].full_name, "B");
    let sunday = store.can_be_absent(OWNER, IsoDow::Sun);
    assert_eq!(sunday.len(), 0);
    let stranger = store.can_be_absent(STRANGER, IsoDow::Mon);
    assert_eq!(stranger.len(), 0);
}

#[test]
fn absence_on_tuesday_matches_no_monday_lesson() {
    let mut store = Store::new();
    let records = vec![lesson_record("A", "LUN", 8, 0, "101")];
    store.apply_import(&meta(), &records, OWNER).expect("import");
    let absent_teacher = store.lessons[0].teacher_id.unwrap();
    let added = store
        .add_absence(absent_teacher, A_TUESDAY, TimeOfDay::new(8, 0), TimeOfDay::new(8, 0), OWNER)
        .unwrap();
    assert_eq!(added, 0);
    assert_eq!(store.absences.len(), 0);
}
