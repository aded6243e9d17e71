//! The record normalizer: parses one raw timetable record into a typed
//! lesson or availability.
//!
//! A raw record carries optional free-text fields. Normalization maps the
//! locale day code to an ISO day of week, parses the `H:MM` duration,
//! classifies the record as a lesson or an availability (a record is an
//! availability when either its subject is one of two fixed sentinels or
//! one of its room names carries the reserved free-slot prefix), and
//! reduces multi-valued name lists. A batch normalizes as a whole or not
//! at all: the first malformed record aborts the pass.

use vstd::prelude::*;
use crate::text::{
    all_digits, digits_val, has_prefix, parse_decimal_range, starts_with_str, str_eq,
};
use crate::types::{
    AvailabilityType, ImportError, ImportErrorV, IsoDow, ParseFault, TimeOfDay, ValidationFault,
};
use vstd::string::StrSliceExecFns;

verus! {

// ---------------------------------------------------------------------------
// Duration strings
// ---------------------------------------------------------------------------

/// Position `k` splits `s` into a well-shaped duration: a non-empty digit
/// string, a colon, and a non-empty digit string.
pub open spec fn duration_shape_at(s: Seq<char>, k: int) -> bool {
    &&& 1 <= k
    &&& k + 2 <= s.len()
    &&& s[k] == ':'
    &&& all_digits(s.subrange(0, k))
    &&& all_digits(s.subrange(k + 1, s.len() as int))
}

/// As `duration_shape_at`, with both numbers small enough to parse.
pub open spec fn duration_ok_at(s: Seq<char>, k: int) -> bool {
    &&& duration_shape_at(s, k)
    &&& digits_val(s.subrange(0, k)) <= u32::MAX
    &&& digits_val(s.subrange(k + 1, s.len() as int)) <= u32::MAX
}

/// `s` is a parseable `H:MM` duration.
pub open spec fn duration_ok(s: Seq<char>) -> bool {
    exists|k: int| duration_ok_at(s, k)
}

/// Total minutes of a parseable duration: hours times sixty plus minutes.
pub open spec fn duration_minutes(s: Seq<char>) -> int {
    let k = choose|k: int| duration_ok_at(s, k);
    digits_val(s.subrange(0, k)) * 60 + digits_val(s.subrange(k + 1, s.len() as int))
}

/// A duration string splits at exactly one position: the colon is unique,
/// because every other character of a well-shaped duration is a digit.
pub proof fn lemma_duration_split_unique(s: Seq<char>, k1: int, k2: int)
    requires
        duration_shape_at(s, k1),
        duration_shape_at(s, k2),
    ensures
        k1 == k2,
{
    if k1 < k2 {
        assert(s.subrange(k1 + 1, s.len() as int)[k2 - k1 - 1] == s[k2]);
        assert(':' as u32 == 58);
    } else if k2 < k1 {
        assert(s.subrange(k2 + 1, s.len() as int)[k1 - k2 - 1] == s[k1]);
        assert(':' as u32 == 58);
    }
}

/// Parses a duration string of shape `H:MM` (two colon-separated unsigned
/// integers) into total minutes. Returns `None` exactly on every other
/// shape, including numbers beyond `u32::MAX`.
pub fn parse_duration_minutes(s: &str) -> (r: Option<u64>)
    ensures
        match r {
            Some(v) => duration_ok(s@) && v == duration_minutes(s@),
            None => !duration_ok(s@),
        },
{
    let n = s.unicode_len();
    let mut i: usize = 0;
    let mut first: usize = n;
    let mut count: usize = 0;
    while i < n
        invariant
            i <= n,
            n == s@.len(),
            count == 0 ==> first == n && forall|j: int| 0 <= j < i ==> s@[j] != ':',
            count == 1 ==> first < i && s@[first as int] == ':' && forall|j: int|
                0 <= j < i && j != first ==> s@[j] != ':',
            count >= 2 ==> exists|j1: int, j2: int|
                0 <= j1 < j2 < i && s@[j1] == ':' && s@[j2] == ':',
        decreases n - i,
    {
        let c = s.get_char(i);
        if c == ':' {
            if count == 0 {
                first = i;
                count = 1;
            } else if count == 1 {
                proof {
                    assert(0 <= first < i + 1 && i < i + 1 && s@[first as int] == ':'
                        && s@[i as int] == ':');
                }
                count = 2;
            }
        }
        i += 1;
    }
    if count == 0 {
        proof {
            if duration_ok(s@) {
                let k = choose|k: int| duration_ok_at(s@, k);
                assert(s@[k] == ':');
            }
        }
        return None;
    }
    if count >= 2 {
        proof {
            let (j1, j2) = choose|j1: int, j2: int|
                0 <= j1 < j2 < n && s@[j1] == ':' && s@[j2] == ':';
            if duration_ok(s@) {
                let k = choose|k: int| duration_ok_at(s@, k);
                // Both colons cannot be the split point; the other one
                // would have to be a digit.
                if j1 != k {
                    if j1 < k {
                        assert(s@.subrange(0, k)[j1] == s@[j1]);
                    } else {
                        assert(s@.subrange(k + 1, s@.len() as int)[j1 - k - 1] == s@[j1]);
                    }
                    assert(':' as u32 == 58);
                } else {
                    if j2 < k {
                        assert(s@.subrange(0, k)[j2] == s@[j2]);
                    } else {
                        assert(s@.subrange(k + 1, s@.len() as int)[j2 - k - 1] == s@[j2]);
                    }
                    assert(':' as u32 == 58);
                }
            }
        }
        return None;
    }
    // Exactly one colon, at `first`. Any well-shaped split uses it.
    proof {
        if duration_ok(s@) {
            let k = choose|k: int| duration_ok_at(s@, k);
            assert(s@[k] == ':');
            assert(k == first as int);
        }
    }
    if first == 0 || first > n - 2 {
        return None;
    }
    let hours = match parse_decimal_range(s, 0, first) {
        Some(h) => h,
        None => {
            return None;
        },
    };
    let minutes = match parse_decimal_range(s, first + 1, n) {
        Some(m) => m,
        None => {
            return None;
        },
    };
    proof {
        assert(duration_ok_at(s@, first as int));
        let k = choose|k: int| duration_ok_at(s@, k);
        lemma_duration_split_unique(s@, k, first as int);
    }
    Some(hours as u64 * 60 + minutes as u64)
}

/// The duration grammar round-trips: any two non-empty digit strings
/// whose values fit, joined by a colon, form a parseable duration whose
/// total minutes are hours times sixty plus minutes.
pub proof fn lemma_duration_round_trip(h: Seq<char>, m: Seq<char>)
    requires
        h.len() > 0,
        m.len() > 0,
        all_digits(h),
        all_digits(m),
        digits_val(h) <= u32::MAX,
        digits_val(m) <= u32::MAX,
    ensures
        duration_ok(h + seq![':'] + m),
        duration_minutes(h + seq![':'] + m) == digits_val(h) * 60 + digits_val(m),
{
    let s = h + seq![':'] + m;
    let k = h.len() as int;
    assert(s[k] == ':');
    assert(s.subrange(0, k) =~= h);
    assert(s.subrange(k + 1, s.len() as int) =~= m);
    assert(duration_ok_at(s, k));
    let k2 = choose|k2: int| duration_ok_at(s, k2);
    lemma_duration_split_unique(s, k2, k);
}

// ---------------------------------------------------------------------------
// Day codes and subject sentinels
// ---------------------------------------------------------------------------

/// The locale day codes, Monday through Sunday, mapped to ISO days.
/// Any other token is unrecognized.
pub open spec fn spec_day_of_code(s: Seq<char>) -> Option<IsoDow> {
    if s == "LUN"@ {
        Some(IsoDow::Mon)
    } else if s == "MAR"@ {
        Some(IsoDow::Tue)
    } else if s == "MER"@ {
        Some(IsoDow::Wed)
    } else if s == "GIO"@ {
        Some(IsoDow::Thu)
    } else if s == "VEN"@ {
        Some(IsoDow::Fri)
    } else if s == "SAB"@ {
        Some(IsoDow::Sat)
    } else if s == "DOM"@ {
        Some(IsoDow::Sun)
    } else {
        None
    }
}

/// Maps a locale day code to its ISO day of week; `None` on any
/// unrecognized token.
pub fn day_of_code(code: &str) -> (r: Option<IsoDow>)
    ensures
        r == spec_day_of_code(code@),
{
    if str_eq(code, "LUN") {
        Some(IsoDow::Mon)
    } else if str_eq(code, "MAR") {
        Some(IsoDow::Tue)
    } else if str_eq(code, "MER") {
        Some(IsoDow::Wed)
    } else if str_eq(code, "GIO") {
        Some(IsoDow::Thu)
    } else if str_eq(code, "VEN") {
        Some(IsoDow::Fri)
    } else if str_eq(code, "SAB") {
        Some(IsoDow::Sat)
    } else if str_eq(code, "DOM") {
        Some(IsoDow::Sun)
    } else {
        None
    }
}

/// Valid day codes map to days injectively: two valid codes with the same
/// ISO day are the same token.
pub proof fn lemma_day_code_unique(a: Seq<char>, b: Seq<char>)
    requires
        spec_day_of_code(a) is Some,
        spec_day_of_code(a) == spec_day_of_code(b),
    ensures
        a == b,
{
}

/// The subject sentinels marking an availability record, each carrying its
/// availability kind.
pub open spec fn spec_kind_of_subject(s: Seq<char>) -> Option<AvailabilityType> {
    if s == "DISPO"@ {
        Some(AvailabilityType::Availability)
    } else if s == "RECUPERO_ORARIO"@ {
        Some(AvailabilityType::RecoveryHours)
    } else {
        None
    }
}

/// Maps a subject code to the availability kind it names, if any.
pub fn kind_of_subject(subject: &str) -> (r: Option<AvailabilityType>)
    ensures
        r == spec_kind_of_subject(subject@),
{
    if str_eq(subject, "DISPO") {
        Some(AvailabilityType::Availability)
    } else if str_eq(subject, "RECUPERO_ORARIO") {
        Some(AvailabilityType::RecoveryHours)
    } else {
        None
    }
}

/// A room name carrying the reserved prefix marks a free-slot record.
pub open spec fn spec_is_reserved_room(s: Seq<char>) -> bool {
    has_prefix(s, "DISPOSIZIONE#"@)
}

/// Tests a room name for the reserved free-slot prefix.
pub fn is_reserved_room(name: &str) -> (r: bool)
    ensures
        r == spec_is_reserved_room(name@),
{
    starts_with_str(name, "DISPOSIZIONE#")
}

// ---------------------------------------------------------------------------
// Raw and normalized records
// ---------------------------------------------------------------------------

/// One raw record of a timetable export, after the surrounding document
/// syntax has been stripped away: every field optional, names multi-valued.
#[derive(Debug)]
pub struct RawRecord {
    /// Free-text duration, `H:MM`.
    pub duration: Option<String>,
    /// Subject code; two fixed sentinels mark availability records.
    pub subject: Option<String>,
    /// Teacher names.
    pub teachers: Vec<String>,
    /// Group names.
    pub groups: Vec<String>,
    /// Room names; the reserved prefix marks free-slot rooms.
    pub rooms: Vec<String>,
    /// Locale day code.
    pub day_code: Option<String>,
    /// Time of day of the slot.
    pub time: Option<TimeOfDay>,
}

/// Mathematical model of a raw record.
#[verifier::ext_equal]
pub ghost struct RawRecordV {
    pub duration: Option<Seq<char>>,
    pub subject: Option<Seq<char>>,
    pub teachers: Seq<Seq<char>>,
    pub groups: Seq<Seq<char>>,
    pub rooms: Seq<Seq<char>>,
    pub day_code: Option<Seq<char>>,
    pub time: Option<TimeOfDay>,
}

/// The view of an optional string.
pub open spec fn opt_view(o: Option<String>) -> Option<Seq<char>> {
    match o {
        Option::Some(s) => Option::Some(s@),
        Option::None => Option::None,
    }
}

/// The views of a sequence of strings.
pub open spec fn names_view(s: Seq<String>) -> Seq<Seq<char>> {
    s.map_values(|n: String| n@)
}

impl View for RawRecord {
    type V = RawRecordV;

    open spec fn view(&self) -> RawRecordV {
        RawRecordV {
            duration: opt_view(self.duration),
            subject: opt_view(self.subject),
            teachers: names_view(self.teachers@),
            groups: names_view(self.groups@),
            rooms: names_view(self.rooms@),
            day_code: opt_view(self.day_code),
            time: self.time,
        }
    }
}

/// A normalized lesson record: one scheduled teaching slot. Multi-valued
/// name lists have been reduced to their first element.
#[derive(Debug)]
pub struct LessonRecord {
    pub teacher: Option<String>,
    pub day: IsoDow,
    pub time: Option<TimeOfDay>,
    pub room: Option<String>,
    pub group: Option<String>,
    pub duration_minutes: Option<u64>,
}

/// Mathematical model of a normalized lesson record.
#[verifier::ext_equal]
pub ghost struct LessonRecordV {
    pub teacher: Option<Seq<char>>,
    pub day: IsoDow,
    pub time: Option<TimeOfDay>,
    pub room: Option<Seq<char>>,
    pub group: Option<Seq<char>>,
    pub duration_minutes: Option<int>,
}

impl View for LessonRecord {
    type V = LessonRecordV;

    open spec fn view(&self) -> LessonRecordV {
        LessonRecordV {
            teacher: opt_view(self.teacher),
            day: self.day,
            time: self.time,
            room: opt_view(self.room),
            group: opt_view(self.group),
            duration_minutes: match self.duration_minutes {
                Option::Some(d) => Option::Some(d as int),
                Option::None => Option::None,
            },
        }
    }
}

/// A normalized availability record: one teacher's declared free or
/// make-up slot, with day, time, and kind all present.
#[derive(Debug)]
pub struct AvailabilityRecord {
    pub teacher: String,
    pub day: IsoDow,
    pub time: TimeOfDay,
    pub kind: AvailabilityType,
}

/// Mathematical model of a normalized availability record.
#[verifier::ext_equal]
pub ghost struct AvailabilityRecordV {
    pub teacher: Seq<char>,
    pub day: IsoDow,
    pub time: TimeOfDay,
    pub kind: AvailabilityType,
}

impl View for AvailabilityRecord {
    type V = AvailabilityRecordV;

    open spec fn view(&self) -> AvailabilityRecordV {
        AvailabilityRecordV {
            teacher: self.teacher@,
            day: self.day,
            time: self.time,
            kind: self.kind,
        }
    }
}

/// A raw record past normalization, classified as a lesson or an
/// availability.
#[derive(Debug)]
pub enum NormalizedRecord {
    Lesson(LessonRecord),
    Availability(AvailabilityRecord),
}

/// Mathematical model of a normalized record.
#[verifier::ext_equal]
pub ghost enum NormalizedRecordV {
    Lesson(LessonRecordV),
    Availability(AvailabilityRecordV),
}

impl View for NormalizedRecord {
    type V = NormalizedRecordV;

    open spec fn view(&self) -> NormalizedRecordV {
        match self {
            NormalizedRecord::Lesson(l) => NormalizedRecordV::Lesson(l@),
            NormalizedRecord::Availability(a) => NormalizedRecordV::Availability(a@),
        }
    }
}

/// Why one record failed to normalize.
#[derive(Debug)]
#[allow(inconsistent_fields)]
pub enum RecordError {
    Parse { fault: ParseFault, token: String },
    Validation { fault: ValidationFault },
}

/// Mathematical model of a record error.
#[verifier::ext_equal]
#[allow(inconsistent_fields)]
pub ghost enum RecordErrorV {
    Parse { fault: ParseFault, token: Seq<char> },
    Validation { fault: ValidationFault },
}

impl View for RecordError {
    type V = RecordErrorV;

    open spec fn view(&self) -> RecordErrorV {
        match self {
            RecordError::Parse { fault, token } => RecordErrorV::Parse {
                fault: *fault,
                token: token@,
            },
            RecordError::Validation { fault } => RecordErrorV::Validation { fault: *fault },
        }
    }
}

// ---------------------------------------------------------------------------
// Classification
// ---------------------------------------------------------------------------

/// The dual-signal classifier: a record is an availability record when
/// either its subject is a recognized sentinel or one of its room names
/// carries the reserved free-slot prefix.
pub open spec fn spec_is_availability(r: RawRecordV) -> bool {
    ||| (r.subject matches Option::Some(s) && spec_kind_of_subject(s) is Some)
    ||| exists|i: int| 0 <= i < r.rooms.len() && spec_is_reserved_room(#[trigger] r.rooms[i])
}

/// Classifies a raw record: availability when either signal fires, lesson
/// otherwise.
pub fn is_availability_record(r: &RawRecord) -> (b: bool)
    ensures
        b == spec_is_availability(r@),
{
    let by_subject = match &r.subject {
        Option::Some(s) => kind_of_subject(s.as_str()).is_some(),
        Option::None => false,
    };
    if by_subject {
        return true;
    }
    let n = r.rooms.len();
    let mut i: usize = 0;
    while i < n
        invariant
            i <= n,
            n == r.rooms@.len(),
            forall|j: int| 0 <= j < i ==> !spec_is_reserved_room(#[trigger] r@.rooms[j]),
        decreases n - i,
    {
        if is_reserved_room(r.rooms[i].as_str()) {
            assert(spec_is_reserved_room(r@.rooms[i as int]));
            return true;
        }
        i += 1;
    }
    false
}

// ---------------------------------------------------------------------------
// Normalizing one record
// ---------------------------------------------------------------------------

/// Converts an availability-classified record. Checks, in this order: the
/// kind (subject present and a recognized sentinel), the day (code present
/// and recognized), the time (present), and the teacher list (exactly one
/// name).
pub open spec fn spec_to_availability(r: RawRecordV) -> Result<AvailabilityRecordV, RecordErrorV> {
    match r.subject {
        Option::None => Err(RecordErrorV::Validation { fault: ValidationFault::MissingKind }),
        Option::Some(s) => match spec_kind_of_subject(s) {
            Option::None => Err(
                RecordErrorV::Parse { fault: ParseFault::AvailabilityKind, token: s },
            ),
            Option::Some(kind) => match r.day_code {
                Option::None => Err(
                    RecordErrorV::Validation { fault: ValidationFault::MissingDay },
                ),
                Option::Some(c) => match spec_day_of_code(c) {
                    Option::None => Err(
                        RecordErrorV::Parse { fault: ParseFault::DayCode, token: c },
                    ),
                    Option::Some(day) => match r.time {
                        Option::None => Err(
                            RecordErrorV::Validation { fault: ValidationFault::MissingTime },
                        ),
                        Option::Some(time) => if r.teachers.len() != 1 {
                            Err(RecordErrorV::Validation { fault: ValidationFault::TeacherCount })
                        } else {
                            Ok(AvailabilityRecordV { teacher: r.teachers[0], day, time, kind })
                        },
                    },
                },
            },
        },
    }
}

/// Converts a lesson-classified record. Checks, in this order: the
/// duration (well-shaped if present), then the day (code present and
/// recognized). Name lists reduce to their first element.
pub open spec fn spec_to_lesson(r: RawRecordV) -> Result<LessonRecordV, RecordErrorV> {
    let duration_ok_or_err: Result<Option<int>, RecordErrorV> = match r.duration {
        Option::None => Ok(Option::None),
        Option::Some(d) => if duration_ok(d) {
            Ok(Option::Some(duration_minutes(d)))
        } else {
            Err(RecordErrorV::Parse { fault: ParseFault::Duration, token: d })
        },
    };
    match duration_ok_or_err {
        Err(e) => Err(e),
        Ok(dur) => match r.day_code {
            Option::None => Err(RecordErrorV::Validation { fault: ValidationFault::MissingDay }),
            Option::Some(c) => match spec_day_of_code(c) {
                Option::None => Err(RecordErrorV::Parse { fault: ParseFault::DayCode, token: c }),
                Option::Some(day) => Ok(
                    LessonRecordV {
                        teacher: if r.teachers.len() > 0 {
                            Option::Some(r.teachers[0])
                        } else {
                            Option::None
                        },
                        day,
                        time: r.time,
                        room: if r.rooms.len() > 0 {
                            Option::Some(r.rooms[0])
                        } else {
                            Option::None
                        },
                        group: if r.groups.len() > 0 {
                            Option::Some(r.groups[0])
                        } else {
                            Option::None
                        },
                        duration_minutes: dur,
                    },
                ),
            },
        },
    }
}

/// Normalizes one record: classifies it, then converts it.
pub open spec fn spec_normalize_record(r: RawRecordV) -> Result<NormalizedRecordV, RecordErrorV> {
    if spec_is_availability(r) {
        match spec_to_availability(r) {
            Ok(a) => Ok(NormalizedRecordV::Availability(a)),
            Err(e) => Err(e),
        }
    } else {
        match spec_to_lesson(r) {
            Ok(l) => Ok(NormalizedRecordV::Lesson(l)),
            Err(e) => Err(e),
        }
    }
}

/// An availability-classified record with well-formed kind, day, and time
/// normalizes successfully exactly when it names exactly one teacher.
pub proof fn lemma_availability_teacher_count(r: RawRecordV)
    requires
        spec_is_availability(r),
        r.subject matches Option::Some(s) && spec_kind_of_subject(s) is Some,
        r.day_code matches Option::Some(c) && spec_day_of_code(c) is Some,
        r.time is Some,
    ensures
        spec_normalize_record(r) is Ok <==> r.teachers.len() == 1,
{
}

/// Normalizes one raw record into a typed lesson or availability,
/// following `spec_normalize_record` exactly.
pub fn normalize_record(r: &RawRecord) -> (res: Result<NormalizedRecord, RecordError>)
    ensures
        match res {
            Ok(n) => spec_normalize_record(r@) == Ok::<NormalizedRecordV, RecordErrorV>(n@),
            Err(e) => spec_normalize_record(r@) == Err::<NormalizedRecordV, RecordErrorV>(e@),
        },
{
    if is_availability_record(r) {
        let kind = match &r.subject {
            Option::None => {
                return Err(RecordError::Validation { fault: ValidationFault::MissingKind });
            },
            Option::Some(s) => match kind_of_subject(s.as_str()) {
                Option::None => {
                    return Err(
                        RecordError::Parse { fault: ParseFault::AvailabilityKind, token: s.clone() },
                    );
                },
                Option::Some(k) => k,
            },
        };
        let day = match &r.day_code {
            Option::None => {
                return Err(RecordError::Validation { fault: ValidationFault::MissingDay });
            },
            Option::Some(c) => match day_of_code(c.as_str()) {
                Option::None => {
                    return Err(RecordError::Parse { fault: ParseFault::DayCode, token: c.clone() });
                },
                Option::Some(d) => d,
            },
        };
        let time = match r.time {
            Option::None => {
                return Err(RecordError::Validation { fault: ValidationFault::MissingTime });
            },
            Option::Some(t) => t,
        };
        if r.teachers.len() != 1 {
            return Err(RecordError::Validation { fault: ValidationFault::TeacherCount });
        }
        let teacher = r.teachers[0].clone();
        Ok(NormalizedRecord::Availability(AvailabilityRecord { teacher, day, time, kind }))
    } else {
        let duration_minutes = match &r.duration {
            Option::None => Option::None,
            Option::Some(d) => match parse_duration_minutes(d.as_str()) {
                Option::None => {
                    return Err(
                        RecordError::Parse { fault: ParseFault::Duration, token: d.clone() },
                    );
                },
                Option::Some(v) => Option::Some(v),
            },
        };
        let day = match &r.day_code {
            Option::None => {
                return Err(RecordError::Validation { fault: ValidationFault::MissingDay });
            },
            Option::Some(c) => match day_of_code(c.as_str()) {
                Option::None => {
                    return Err(RecordError::Parse { fault: ParseFault::DayCode, token: c.clone() });
                },
                Option::Some(d) => d,
            },
        };
        let teacher = if r.teachers.len() > 0 {
            Option::Some(r.teachers[0].clone())
        } else {
            Option::None
        };
        let room = if r.rooms.len() > 0 {
            Option::Some(r.rooms[0].clone())
        } else {
            Option::None
        };
        let group = if r.groups.len() > 0 {
            Option::Some(r.groups[0].clone())
        } else {
            Option::None
        };
        Ok(
            NormalizedRecord::Lesson(
                LessonRecord { teacher, day, time: r.time, room, group, duration_minutes },
            ),
        )
    }
}

// ---------------------------------------------------------------------------
// Normalizing a batch
// ---------------------------------------------------------------------------

/// The views of a sequence of raw records.
pub open spec fn batch_view(rs: Seq<RawRecord>) -> Seq<RawRecordV> {
    rs.map_values(|r: RawRecord| r@)
}

/// The views of a sequence of normalized records.
pub open spec fn normalized_view(ns: Seq<NormalizedRecord>) -> Seq<NormalizedRecordV> {
    ns.map_values(|n: NormalizedRecord| n@)
}

/// Normalizes a whole batch, or fails on the first malformed record with
/// its index. No partial result survives a failure.
pub open spec fn spec_normalize_batch(b: Seq<RawRecordV>) -> Result<
    Seq<NormalizedRecordV>,
    (int, RecordErrorV),
>
    decreases b.len(),
{
    if b.len() == 0 {
        Ok(Seq::empty())
    } else {
        match spec_normalize_batch(b.drop_last()) {
            Err(e) => Err(e),
            Ok(s) => match spec_normalize_record(b.last()) {
                Ok(n) => Ok(s.push(n)),
                Err(e) => Err(((b.len() - 1) as int, e)),
            },
        }
    }
}

/// If every record before `i` normalizes and record `i` fails, the whole
/// batch fails with record `i`'s error.
pub proof fn lemma_batch_first_error(b: Seq<RawRecordV>, i: int, e: RecordErrorV)
    requires
        0 <= i < b.len(),
        spec_normalize_batch(b.subrange(0, i)) is Ok,
        spec_normalize_record(b[i]) == Err::<NormalizedRecordV, RecordErrorV>(e),
    ensures
        spec_normalize_batch(b) == Err::<Seq<NormalizedRecordV>, (int, RecordErrorV)>((i, e)),
    decreases b.len(),
{
    if b.len() == i + 1 {
        assert(b.drop_last() =~= b.subrange(0, i));
        assert(b.last() == b[i]);
    } else {
        assert(b.drop_last().subrange(0, i) =~= b.subrange(0, i));
        assert(b.drop_last()[i] == b[i]);
        lemma_batch_first_error(b.drop_last(), i, e);
    }
}

/// The engine error corresponding to a record error at batch index `i`.
pub open spec fn spec_batch_error(i: int, e: RecordErrorV) -> ImportErrorV {
    match e {
        RecordErrorV::Parse { fault, token } => ImportErrorV::Parse { index: i, fault, token },
        RecordErrorV::Validation { fault } => ImportErrorV::Validation { index: i, fault },
    }
}

/// Normalizes every record of a batch, in order, or returns the first
/// record's error together with its index. Fails fast: a batch containing
/// even one malformed record yields no partial result.
pub fn normalize_batch(records: &Vec<RawRecord>) -> (res: Result<Vec<NormalizedRecord>, ImportError>)
    ensures
        match res {
            Ok(ns) => spec_normalize_batch(batch_view(records@)) == Ok::<
                Seq<NormalizedRecordV>,
                (int, RecordErrorV),
            >(normalized_view(ns@)),
            Err(e) => spec_normalize_batch(batch_view(records@)) matches Err((i, re))
                && e@ == spec_batch_error(i, re),
        },
        res is Ok <==> spec_normalize_batch(batch_view(records@)) is Ok,
{
    let ghost b = batch_view(records@);
    let n = records.len();
    let mut out: Vec<NormalizedRecord> = Vec::new();
    let mut i: usize = 0;
    proof {
        assert(b.subrange(0, 0) =~= Seq::<RawRecordV>::empty());
        assert(normalized_view(out@) =~= Seq::<NormalizedRecordV>::empty());
    }
    while i < n
        invariant
            i <= n,
            n == records@.len(),
            b == batch_view(records@),
            spec_normalize_batch(b.subrange(0, i as int)) == Ok::<
                Seq<NormalizedRecordV>,
                (int, RecordErrorV),
            >(normalized_view(out@)),
        decreases n - i,
    {
        match normalize_record(&records[i]) {
            Ok(nr) => {
                let ghost prev = normalized_view(out@);
                let ghost nrv = nr@;
                out.push(nr);
                proof {
                    let t = b.subrange(0, i + 1);
                    assert(t.drop_last() =~= b.subrange(0, i as int));
                    assert(t.last() == b[i as int]);
                    assert(b[i as int] == records@[i as int]@);
                    assert(normalized_view(out@) =~= prev.push(nrv));
                }
            },
            Err(e) => {
                proof {
                    assert(b[i as int] == records@[i as int]@);
                    lemma_batch_first_error(b, i as int, e@);
                }
                match e {
                    RecordError::Parse { fault, token } => {
                        return Err(ImportError::Parse { index: i, fault, token });
                    },
                    RecordError::Validation { fault } => {
                        return Err(ImportError::Validation { index: i, fault });
                    },
                }
            },
        }
        i += 1;
    }
    proof {
        assert(b.subrange(0, n as int) =~= b);
    }
    Ok(out)
}

} // verus!
