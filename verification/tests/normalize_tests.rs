use presenze::normalize::{
    day_of_code, is_availability_record, normalize_record, parse_duration_minutes,
    NormalizedRecord, RawRecord, RecordError,
};
use presenze::types::{AvailabilityType, IsoDow, ParseFault, TimeOfDay, ValidationFault};

fn record() -> RawRecord {
    RawRecord {
        duration: None,
        subject: None,
        teachers: Vec::new(),
        groups: Vec::new(),
        rooms: Vec::new(),
        day_code: None,
        time: None,
    }
}

#[test]
fn day_codes_map_to_iso_days() {
    let cases = [
        ("LUN", 1),
        ("MAR", 2),
        ("MER", 3),
        ("GIO", 4),
        ("VEN", 5),
        ("SAB", 6),
        ("DOM", 7),
    ];
    for (code, iso) in cases {
        let day = day_of_code(code).expect(code);
        assert_eq!(day.iso_dow(), iso);
    }
}

#[test]
fn unknown_day_codes_fail() {
    assert!(day_of_code("MON").is_none());
    assert!(day_of_code("lun").is_none());
    assert!(day_of_code("").is_none());
    assert!(day_of_code("LUNEDI").is_none());
}

#[test]
fn day_codes_are_distinct() {
    let codes = ["LUN", "MAR", "MER", "GIO", "VEN", "SAB", "DOM"];
    for i in 0..codes.len() {
        for j in 0..codes.len() {
            if i != j {
                assert_ne!(
                    day_of_code(codes[i]).unwrap().iso_dow(),
                    day_of_code(codes[j]).unwrap().iso_dow()
                );
            }
        }
    }
}

#[test]
fn durations_parse_to_total_minutes() {
    assert_eq!(parse_duration_minutes("1:00"), Some(60));
    assert_eq!(parse_duration_minutes("2:30"), Some(150));
    assert_eq!(parse_duration_minutes("0:05"), Some(5));
    assert_eq!(parse_duration_minutes("10:45"), Some(645));
    assert_eq!(parse_duration_minutes("0:0"), Some(0));
}

#[test]
fn malformed_durations_fail() {
    assert_eq!(parse_duration_minutes(""), None);
    assert_eq!(parse_duration_minutes("1"), None);
    assert_eq!(parse_duration_minutes("1:2:3"), None);
    assert_eq!(parse_duration_minutes(":30"), None);
    assert_eq!(parse_duration_minutes("1:"), None);
    assert_eq!(parse_duration_minutes("a:10"), None);
    assert_eq!(parse_duration_minutes("1:0a"), None);
    assert_eq!(parse_duration_minutes("+1:30"), None);
    assert_eq!(parse_duration_minutes("-1:30"), None);
    assert_eq!(parse_duration_minutes(" 1:30"), None);
    assert_eq!(parse_duration_minutes("99999999999:00"), None);
}

#[test]
fn subject_sentinels_classify_as_availability() {
    let mut r = record();
    r.subject = Some("DISPO".to_string());
    assert!(is_availability_record(&r));
    r.subject = Some("RECUPERO_ORARIO".to_string());
    assert!(is_availability_record(&r));
    r.subject = Some("INFORMATICA".to_string());
    assert!(!is_availability_record(&r));
    r.subject = None;
    assert!(!is_availability_record(&r));
}

#[test]
fn reserved_room_prefix_classifies_as_availability() {
    let mut r = record();
    r.rooms = vec!["DISPOSIZIONE#1".to_string()];
    assert!(is_availability_record(&r));
    r.rooms = vec!["07-TW".to_string(), "DISPOSIZIONE#A".to_string()];
    assert!(is_availability_record(&r));
    r.rooms = vec!["07-TW".to_string()];
    assert!(!is_availability_record(&r));
    // The prefix must be a prefix, not a substring.
    r.rooms = vec!["X DISPOSIZIONE#".to_string()];
    assert!(!is_availability_record(&r));
}

fn availability_record(teachers: Vec<String>) -> RawRecord {
    let mut r = record();
    r.subject = Some("DISPO".to_string());
    r.teachers = teachers;
    r.day_code = Some("LUN".to_string());
    r.time = Some(TimeOfDay::new(8, 0));
    r
}

#[test]
fn availability_with_one_teacher_succeeds() {
    let r = availability_record(vec!["ROSSI MARIA".to_string()]);
    match normalize_record(&r).expect("one teacher") {
        NormalizedRecord::Availability(a) => {
            assert_eq!(a.teacher, "ROSSI MARIA");
            assert_eq!(a.day, IsoDow::Mon);
            assert_eq!(a.time, TimeOfDay::new(8, 0));
            assert_eq!(a.kind, AvailabilityType::Availability);
        },
        NormalizedRecord::Lesson(_) => panic!("classified as lesson"),
    }
}

#[test]
fn availability_with_zero_teachers_fails() {
    let r = availability_record(Vec::new());
    match normalize_record(&r) {
        Err(RecordError::Validation { fault }) => {
            assert_eq!(fault, ValidationFault::TeacherCount)
        },
        other => panic!("unexpected: {:?}", other),
    }
}

#[test]
fn availability_with_two_teachers_fails() {
    let r = availability_record(vec!["A".to_string(), "B".to_string()]);
    match normalize_record(&r) {
        Err(RecordError::Validation { fault }) => {
            assert_eq!(fault, ValidationFault::TeacherCount)
        },
        other => panic!("unexpected: {:?}", other),
    }
}

#[test]
fn availability_kind_follows_the_sentinel() {
    let mut r = availability_record(vec!["A".to_string()]);
    r.subject = Some("RECUPERO_ORARIO".to_string());
    match normalize_record(&r).unwrap() {
        NormalizedRecord::Availability(a) => assert_eq!(a.kind, AvailabilityType::RecoveryHours),
        NormalizedRecord::Lesson(_) => panic!("classified as lesson"),
    }
}

#[test]
fn availability_without_time_fails() {
    let mut r = availability_record(vec!["A".to_string()]);
    r.time = None;
    match normalize_record(&r) {
        Err(RecordError::Validation { fault }) => assert_eq!(fault, ValidationFault::MissingTime),
        other => panic!("unexpected: {:?}", other),
    }
}

#[test]
fn reserved_room_without_kind_fails() {
    let mut r = record();
    r.rooms = vec!["DISPOSIZIONE#2".to_string()];
    r.teachers = vec!["A".to_string()];
    r.day_code = Some("LUN".to_string());
    r.time = Some(TimeOfDay::new(8, 0));
    match normalize_record(&r) {
        Err(RecordError::Validation { fault }) => assert_eq!(fault, ValidationFault::MissingKind),
        other => panic!("unexpected: {:?}", other),
    }
}

#[test]
fn reserved_room_with_foreign_subject_fails_as_parse_error() {
    let mut r = record();
    r.rooms = vec!["DISPOSIZIONE#2".to_string()];
    r.teachers = vec!["A".to_string()];
    r.subject = Some("INFORMATICA".to_string());
    r.day_code = Some("LUN".to_string());
    r.time = Some(TimeOfDay::new(8, 0));
    match normalize_record(&r) {
        Err(RecordError::Parse { fault, token }) => {
            assert_eq!(fault, ParseFault::AvailabilityKind);
            assert_eq!(token, "INFORMATICA");
        },
        other => panic!("unexpected: {:?}", other),
    }
}

#[test]
fn lesson_without_day_fails() {
    let mut r = record();
    r.teachers = vec!["A".to_string()];
    match normalize_record(&r) {
        Err(RecordError::Validation { fault }) => assert_eq!(fault, ValidationFault::MissingDay),
        other => panic!("unexpected: {:?}", other),
    }
}

#[test]
fn lesson_with_unknown_day_code_fails() {
    let mut r = record();
    r.day_code = Some("XYZ".to_string());
    match normalize_record(&r) {
        Err(RecordError::Parse { fault, token }) => {
            assert_eq!(fault, ParseFault::DayCode);
            assert_eq!(token, "XYZ");
        },
        other => panic!("unexpected: {:?}", other),
    }
}

#[test]
fn lesson_with_bad_duration_fails() {
    let mut r = record();
    r.day_code = Some("LUN".to_string());
    r.duration = Some("90m".to_string());
    match normalize_record(&r) {
        Err(RecordError::Parse { fault, token }) => {
            assert_eq!(fault, ParseFault::Duration);
            assert_eq!(token, "90m");
        },
        other => panic!("unexpected: {:?}", other),
    }
}

#[test]
fn lesson_reduces_name_lists_to_first_elements() {
    let mut r = record();
    r.duration = Some("1:00".to_string());
    r.subject = Some("INFORMATICA".to_string());
    r.teachers = vec!["SCIALPI MARIO".to_string(), "SECONDO".to_string()];
    r.groups = vec!["5^A-IA".to_string()];
    r.rooms = vec!["07-TW".to_string(), "LAB".to_string()];
    r.day_code = Some("LUN".to_string());
    r.time = Some(TimeOfDay::new(8, 0));
    match normalize_record(&r).unwrap() {
        NormalizedRecord::Lesson(l) => {
            assert_eq!(l.teacher.as_deref(), Some("SCIALPI MARIO"));
            assert_eq!(l.day, IsoDow::Mon);
            assert_eq!(l.time, Some(TimeOfDay::new(8, 0)));
            assert_eq!(l.room.as_deref(), Some("07-TW"));
            assert_eq!(l.group.as_deref(), Some("5^A-IA"));
            assert_eq!(l.duration_minutes, Some(60));
        },
        NormalizedRecord::Availability(_) => panic!("classified as availability"),
    }
}
