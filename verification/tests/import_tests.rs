use presenze::import::ImportMeta;
use presenze::normalize::RawRecord;
use presenze::store::Store;
use presenze::types::{AvailabilityType, ImportError, ImportMode, IsoDow, TimeOfDay};

const OWNER: i64 = 1;

fn lesson_record(teacher: &str, day: &str, hour: u8, minute: u8, room: &str) -> RawRecord {
    RawRecord {
        duration: Some("1:00".to_string()),
        subject: Some("INFORMATICA".to_string()),
        teachers: vec![teacher.to_string()],
        groups: vec!["5A".to_string()],
        rooms: vec![room.to_string()],
        day_code: Some(day.to_string()),
        time: Some(TimeOfDay::new(hour, minute)),
    }
}

fn availability_record(teacher: &str, day: &str, hour: u8, minute: u8) -> RawRecord {
    RawRecord {
        duration: None,
        subject: Some("DISPO".to_string()),
        teachers: vec![teacher.to_string()],
        groups: Vec::new(),
        rooms: vec!["DISPOSIZIONE#1".to_string()],
        day_code: Some(day.to_string()),
        time: Some(TimeOfDay::new(hour, minute)),
    }
}

fn meta(mode: ImportMode) -> ImportMeta {
    ImportMeta { file_name: "orario.xml".to_string(), mode, begin_ts: 1, end_ts: 30 }
}

#[test]
fn write_mode_persists_the_whole_batch() {
    let mut store = Store::new();
    let records = vec![
        lesson_record("A", "LUN", 8, 0, "101"),
        availability_record("B", "LUN", 8, 0),
    ];
    store.apply_import(&meta(ImportMode::Write), &records, OWNER).expect("import");
    assert_eq!(store.imports.len(), 1);
    assert_eq!(store.imports[0].user_id, OWNER);
    assert_eq!(store.imports[0].file_name, "orario.xml");
    // Rooms include the reserved one; groups only the lesson's.
    assert_eq!(store.rooms.len(), 2);
    assert_eq!(store.groups.len(), 1);
    assert_eq!(store.teachers.len(), 2);
    assert_eq!(store.lessons.len(), 1);
    assert_eq!(store.availabilities.len(), 1);
    // The availability's teacher resolves by name within the import.
    let av = &store.availabilities[0];
    assert_eq!(store.teachers[av.teacher_id].full_name, "B");
    assert_eq!(av.day, IsoDow::Mon);
    assert_eq!(av.time, TimeOfDay::new(8, 0));
    assert_eq!(av.kind, AvailabilityType::Availability);
    // The lesson's entities resolve by name as well.
    let l = &store.lessons[0];
    assert_eq!(store.teachers[l.teacher_id.unwrap()].full_name, "A");
    assert_eq!(store.rooms[l.room_id.unwrap()].name, "101");
    assert_eq!(store.groups[l.group_id.unwrap()].name, "5A");
    assert_eq!(l.day, IsoDow::Mon);
    assert_eq!(l.duration_minutes, Some(60));
}

#[test]
fn dry_run_leaves_no_rows_behind() {
    let mut store = Store::new();
    let records = vec![
        lesson_record("A", "LUN", 8, 0, "101"),
        availability_record("B", "LUN", 8, 0),
    ];
    store.apply_import(&meta(ImportMode::DryRun), &records, OWNER).expect("dry run");
    assert_eq!(store.imports.len(), 0);
    assert_eq!(store.rooms.len(), 0);
    assert_eq!(store.groups.len(), 0);
    assert_eq!(store.teachers.len(), 0);
    assert_eq!(store.lessons.len(), 0);
    assert_eq!(store.availabilities.len(), 0);
}

#[test]
fn dry_run_rejects_the_same_batches_write_would() {
    let mut store = Store::new();
    let mut bad = lesson_record("A", "LUN", 8, 0, "101");
    bad.day_code = Some("XYZ".to_string());
    let records = vec![bad];
    let err = store.apply_import(&meta(ImportMode::DryRun), &records, OWNER);
    assert!(err.is_err());
}

#[test]
fn one_malformed_record_aborts_the_whole_import() {
    let mut store = Store::new();
    let records = vec![
        lesson_record("A", "LUN", 8, 0, "101"),
        availability_record("B", "LUN", 8, 0),
        lesson_record("C", "XYZ", 9, 0, "102"),
    ];
    let res = store.apply_import(&meta(ImportMode::Write), &records, OWNER);
    match res {
        Err(ImportError::Parse { index, token, .. }) => {
            assert_eq!(index, 2);
            assert_eq!(token, "XYZ");
        },
        other => panic!("unexpected: {:?}", other),
    }
    // All-or-nothing: no row of the batch is visible.
    assert_eq!(store.imports.len(), 0);
    assert_eq!(store.rooms.len(), 0);
    assert_eq!(store.groups.len(), 0);
    assert_eq!(store.teachers.len(), 0);
    assert_eq!(store.lessons.len(), 0);
    assert_eq!(store.availabilities.len(), 0);
}

#[test]
fn reimport_creates_an_independent_batch() {
    let mut store = Store::new();
    let records = vec![lesson_record("A", "LUN", 8, 0, "101")];
    store.apply_import(&meta(ImportMode::Write), &records, OWNER).unwrap();
    store.apply_import(&meta(ImportMode::Write), &records, OWNER).unwrap();
    assert_eq!(store.imports.len(), 2);
    assert_eq!(store.teachers.len(), 2);
    assert_eq!(store.rooms.len(), 2);
    assert_eq!(store.lessons.len(), 2);
    // Each teacher row is scoped to its own import.
    assert_eq!(store.teachers[0].import_id, 0);
    assert_eq!(store.teachers[1].import_id, 1);
    // Each lesson references its own import's teacher.
    assert_eq!(store.lessons[0].teacher_id, Some(0));
    assert_eq!(store.lessons[1].teacher_id, Some(1));
}

#[test]
fn names_deduplicate_within_one_import() {
    let mut store = Store::new();
    let records = vec![
        lesson_record("A", "LUN", 8, 0, "101"),
        lesson_record("A", "MAR", 9, 0, "101"),
        lesson_record("B", "MER", 10, 0, "101"),
    ];
    store.apply_import(&meta(ImportMode::Write), &records, OWNER).unwrap();
    assert_eq!(store.teachers.len(), 2);
    assert_eq!(store.rooms.len(), 1);
    assert_eq!(store.lessons.len(), 3);
    // Both lessons of teacher A resolve to the same row.
    assert_eq!(store.lessons[0].teacher_id, store.lessons[1].teacher_id);
}
