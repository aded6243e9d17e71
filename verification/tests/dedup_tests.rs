use presenze::dedup::{collect_names, dedup_names, distinct_names, NameField};
use presenze::normalize::RawRecord;

fn record_with(teachers: &[&str], groups: &[&str], rooms: &[&str]) -> RawRecord {
    RawRecord {
        duration: None,
        subject: None,
        teachers: teachers.iter().map(|s| s.to_string()).collect(),
        groups: groups.iter().map(|s| s.to_string()).collect(),
        rooms: rooms.iter().map(|s| s.to_string()).collect(),
        day_code: None,
        time: None,
    }
}

fn as_sorted(mut v: Vec<String>) -> Vec<String> {
    v.sort();
    v
}

#[test]
fn distinct_names_keeps_each_name_once() {
    let batch = vec![
        record_with(&["A", "B"], &["5A"], &["101", "102"]),
        record_with(&["B"], &["5A", "5B"], &["101"]),
        record_with(&["C"], &[], &[]),
    ];
    assert_eq!(distinct_names(&batch, NameField::Teachers), vec!["A", "B", "C"]);
    assert_eq!(distinct_names(&batch, NameField::Groups), vec!["5A", "5B"]);
    assert_eq!(distinct_names(&batch, NameField::Rooms), vec!["101", "102"]);
}

#[test]
fn dedup_is_exact_match_only() {
    let batch = vec![record_with(&["A", "a", "A ", "A"], &[], &[])];
    assert_eq!(distinct_names(&batch, NameField::Teachers), vec!["A", "a", "A "]);
}

#[test]
fn dedup_is_order_independent_as_a_set() {
    let batch = vec![
        record_with(&["A", "B"], &[], &[]),
        record_with(&["C", "A"], &[], &[]),
    ];
    let shuffled = vec![
        record_with(&["C"], &[], &[]),
        record_with(&["A"], &[], &[]),
        record_with(&["B", "A"], &[], &[]),
    ];
    assert_eq!(
        as_sorted(distinct_names(&batch, NameField::Teachers)),
        as_sorted(distinct_names(&shuffled, NameField::Teachers))
    );
}

#[test]
fn dedup_is_idempotent() {
    let batch = vec![record_with(&[], &[], &["R1", "R2", "R1", "R3", "R2"])];
    let once = distinct_names(&batch, NameField::Rooms);
    let twice = dedup_names(&once);
    assert_eq!(once, twice);
}

#[test]
fn collect_names_keeps_duplicates_and_order() {
    let batch = vec![
        record_with(&[], &[], &["R1", "R2"]),
        record_with(&[], &[], &["R1"]),
    ];
    assert_eq!(collect_names(&batch, NameField::Rooms), vec!["R1", "R2", "R1"]);
}
