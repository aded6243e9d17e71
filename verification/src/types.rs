//! Scalar types shared by the whole engine: days of the week, times of day,
//! availability kinds, absence statuses, import modes, and the error taxonomy.

use vstd::prelude::*;

verus! {

/// ISO day of the week, Monday through Sunday (ISO numbers 1 through 7).
#[derive(Clone, Copy, Debug, PartialEq, Eq, Structural)]
pub enum IsoDow {
    Mon,
    Tue,
    Wed,
    Thu,
    Fri,
    Sat,
    Sun,
}

impl IsoDow {
    /// The ISO number of this day: Monday is 1, Sunday is 7.
    pub open spec fn spec_iso_dow(self) -> int {
        match self {
            IsoDow::Mon => 1,
            IsoDow::Tue => 2,
            IsoDow::Wed => 3,
            IsoDow::Thu => 4,
            IsoDow::Fri => 5,
            IsoDow::Sat => 6,
            IsoDow::Sun => 7,
        }
    }

    /// The ISO day-of-week number, 1 (Monday) through 7 (Sunday).
    pub fn iso_dow(&self) -> (d: i16)
        ensures
            d == self.spec_iso_dow(),
            1 <= d <= 7,
    {
        match self {
            IsoDow::Mon => 1,
            IsoDow::Tue => 2,
            IsoDow::Wed => 3,
            IsoDow::Thu => 4,
            IsoDow::Fri => 5,
            IsoDow::Sat => 6,
            IsoDow::Sun => 7,
        }
    }
}

/// A time of day with minute precision.
#[derive(Clone, Copy, Debug, PartialEq, Eq, Structural)]
pub struct TimeOfDay {
    pub hour: u8,
    pub minute: u8,
}

impl TimeOfDay {
    /// A time of day is valid when it names a real wall-clock minute.
    pub open spec fn is_valid(self) -> bool {
        self.hour < 24 && self.minute < 60
    }

    /// Minutes since midnight; orders times of day chronologically.
    pub open spec fn spec_minutes(self) -> int {
        self.hour * 60 + self.minute
    }

    pub fn new(hour: u8, minute: u8) -> (t: TimeOfDay)
        requires
            hour < 24,
            minute < 60,
        ensures
            t == (TimeOfDay { hour, minute }),
            t.is_valid(),
    {
        TimeOfDay { hour, minute }
    }

    /// Chronological comparison: true when `self` is no later than `other`.
    pub fn le(&self, other: &TimeOfDay) -> (r: bool)
        ensures
            r == (self.spec_minutes() <= other.spec_minutes()),
    {
        let a: u32 = self.hour as u32 * 60 + self.minute as u32;
        let b: u32 = other.hour as u32 * 60 + other.minute as u32;
        a <= b
    }
}

/// The kind of a declared free slot: ordinary availability, or owed
/// recovery hours. Both are valid substitute-coverage signals.
#[derive(Clone, Copy, Debug, PartialEq, Eq, Structural)]
pub enum AvailabilityType {
    Availability,
    RecoveryHours,
}

/// Resolution status of a declared absence.
#[derive(Clone, Copy, Debug, PartialEq, Eq, Structural)]
pub enum AbsenceStatus {
    Uncovered,
    ClassDelayed,
    ClassCanceled,
    SubstituteFound,
}

impl Default for AbsenceStatus {
    /// A freshly declared absence starts uncovered.
    fn default() -> (r: Self)
        ensures
            r == AbsenceStatus::Uncovered,
    {
        AbsenceStatus::Uncovered
    }
}

/// Import mode: `DryRun` performs and validates every step of an import but
/// keeps nothing; `Write` commits the batch.
#[derive(Clone, Copy, Debug, PartialEq, Eq, Structural)]
pub enum ImportMode {
    DryRun,
    Write,
}

impl Default for ImportMode {
    fn default() -> (r: Self)
        ensures
            r == ImportMode::Write,
    {
        ImportMode::Write
    }
}

/// What a malformed field failed as, for `ImportError::Parse`.
#[derive(Clone, Copy, Debug, PartialEq, Eq, Structural)]
pub enum ParseFault {
    /// The day code is not one of the seven recognized tokens.
    DayCode,
    /// The duration is not two colon-separated unsigned integers in range.
    Duration,
    /// The subject of an availability record is not a recognized sentinel.
    AvailabilityKind,
}

/// Which semantic rule a structurally parseable record broke, for
/// `ImportError::Validation`.
#[derive(Clone, Copy, Debug, PartialEq, Eq, Structural)]
pub enum ValidationFault {
    /// A record has no day of week.
    MissingDay,
    /// An availability record has no time of day.
    MissingTime,
    /// An availability record carries no availability kind.
    MissingKind,
    /// An availability record does not have exactly one teacher.
    TeacherCount,
    /// An absence status and its substitute reference disagree: the
    /// reference must be present exactly when the status is
    /// `SubstituteFound`.
    SubstituteBinding,
    /// An absence interval ends before it begins.
    TimeOrder,
}

/// The error taxonomy of the engine. Every error carries the index of the
/// offending record within its batch (0 for operations outside a batch) and,
/// for parse errors, the offending token.
#[derive(Debug)]
#[allow(inconsistent_fields)]
pub enum ImportError {
    /// A field of the record at `index` is malformed.
    Parse { index: usize, fault: ParseFault, token: String },
    /// The record at `index` is structurally fine but semantically invalid.
    Validation { index: usize, fault: ValidationFault },
    /// The store rejected a write: a referenced entity does not exist
    /// within the caller's scope.
    Constraint { index: usize },
    /// The referenced entity is not owned by the caller; surfaced exactly
    /// like a missing entity so that existence is not leaked.
    Scope,
}

/// Mathematical model of an engine error.
#[verifier::ext_equal]
#[allow(inconsistent_fields)]
pub ghost enum ImportErrorV {
    Parse { index: int, fault: ParseFault, token: Seq<char> },
    Validation { index: int, fault: ValidationFault },
    Constraint { index: int },
    Scope,
}

impl View for ImportError {
    type V = ImportErrorV;

    open spec fn view(&self) -> ImportErrorV {
        match self {
            ImportError::Parse { index, fault, token } => ImportErrorV::Parse {
                index: *index as int,
                fault: *fault,
                token: token@,
            },
            ImportError::Validation { index, fault } => ImportErrorV::Validation {
                index: *index as int,
                fault: *fault,
            },
            ImportError::Constraint { index } => ImportErrorV::Constraint { index: *index as int },
            ImportError::Scope => ImportErrorV::Scope,
        }
    }
}

} // verus!
