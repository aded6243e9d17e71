//! The scheduling store: the persisted entities, scoped by import.
//!
//! Entities are held in append-only tables; a row's id is its index in its
//! table (absences, which can be deleted, carry explicit ids instead).
//! Every lesson, availability, room, group, and teacher belongs to exactly
//! one import, and cross-import references are never created; an absence's
//! substitute reference is present exactly when its status is
//! `SubstituteFound`. These invariants make up `StoreV::wf`, which every
//! operation preserves.

use vstd::prelude::*;
use crate::types::{AbsenceStatus, AvailabilityType, IsoDow, TimeOfDay};

verus! {

/// One import batch: one timetable upload by one user, valid over
/// `[begin_ts, end_ts]` (whole days).
#[derive(Debug)]
pub struct ImportRow {
    pub user_id: i64,
    pub file_name: String,
    pub begin_ts: i64,
    pub end_ts: i64,
}

/// Mathematical model of an import row.
#[verifier::ext_equal]
pub ghost struct ImportRowV {
    pub user_id: int,
    pub file_name: Seq<char>,
    pub begin_ts: int,
    pub end_ts: int,
}

impl View for ImportRow {
    type V = ImportRowV;

    open spec fn view(&self) -> ImportRowV {
        ImportRowV {
            user_id: self.user_id as int,
            file_name: self.file_name@,
            begin_ts: self.begin_ts as int,
            end_ts: self.end_ts as int,
        }
    }
}

/// A room, scoped to one import.
#[derive(Debug)]
pub struct RoomRow {
    pub name: String,
    pub import_id: usize,
}

/// Mathematical model of a room row.
#[verifier::ext_equal]
pub ghost struct RoomRowV {
    pub name: Seq<char>,
    pub import_id: int,
}

impl View for RoomRow {
    type V = RoomRowV;

    open spec fn view(&self) -> RoomRowV {
        RoomRowV { name: self.name@, import_id: self.import_id as int }
    }
}

/// A group, scoped to one import.
#[derive(Debug)]
pub struct GroupRow {
    pub name: String,
    pub import_id: usize,
}

/// Mathematical model of a group row.
#[verifier::ext_equal]
pub ghost struct GroupRowV {
    pub name: Seq<char>,
    pub import_id: int,
}

impl View for GroupRow {
    type V = GroupRowV;

    open spec fn view(&self) -> GroupRowV {
        GroupRowV { name: self.name@, import_id: self.import_id as int }
    }
}

/// A teacher, scoped to one import.
#[derive(Debug)]
pub struct TeacherRow {
    pub full_name: String,
    pub import_id: usize,
}

/// Mathematical model of a teacher row.
#[verifier::ext_equal]
pub ghost struct TeacherRowV {
    pub full_name: Seq<char>,
    pub import_id: int,
}

impl View for TeacherRow {
    type V = TeacherRowV;

    open spec fn view(&self) -> TeacherRowV {
        TeacherRowV { full_name: self.full_name@, import_id: self.import_id as int }
    }
}

/// One scheduled teaching slot.
#[derive(Debug)]
pub struct LessonRow {
    pub day: IsoDow,
    pub time: Option<TimeOfDay>,
    pub duration_minutes: Option<u64>,
    pub room_id: Option<usize>,
    pub group_id: Option<usize>,
    pub teacher_id: Option<usize>,
}

/// Mathematical model of a lesson row.
#[verifier::ext_equal]
pub ghost struct LessonRowV {
    pub day: IsoDow,
    pub time: Option<TimeOfDay>,
    pub duration_minutes: Option<int>,
    pub room_id: Option<int>,
    pub group_id: Option<int>,
    pub teacher_id: Option<int>,
}

/// The view of an optional index.
pub open spec fn opt_id_view(o: Option<usize>) -> Option<int> {
    match o {
        Option::Some(i) => Option::Some(i as int),
        Option::None => Option::None,
    }
}

impl View for LessonRow {
    type V = LessonRowV;

    open spec fn view(&self) -> LessonRowV {
        LessonRowV {
            day: self.day,
            time: self.time,
            duration_minutes: match self.duration_minutes {
                Option::Some(d) => Option::Some(d as int),
                Option::None => Option::None,
            },
            room_id: opt_id_view(self.room_id),
            group_id: opt_id_view(self.group_id),
            teacher_id: opt_id_view(self.teacher_id),
        }
    }
}

/// One teacher's declared free or make-up slot.
#[derive(Debug)]
pub struct AvailabilityRow {
    pub day: IsoDow,
    pub time: TimeOfDay,
    pub kind: AvailabilityType,
    pub teacher_id: usize,
}

/// Mathematical model of an availability row.
#[verifier::ext_equal]
pub ghost struct AvailabilityRowV {
    pub day: IsoDow,
    pub time: TimeOfDay,
    pub kind: AvailabilityType,
    pub teacher_id: int,
}

impl View for AvailabilityRow {
    type V = AvailabilityRowV;

    open spec fn view(&self) -> AvailabilityRowV {
        AvailabilityRowV {
            day: self.day,
            time: self.time,
            kind: self.kind,
            teacher_id: self.teacher_id as int,
        }
    }
}

/// A declared absence of a teacher for one lesson on one date.
#[derive(Debug)]
pub struct AbsenceRow {
    pub id: u64,
    pub lesson_id: usize,
    pub date: i64,
    pub status: AbsenceStatus,
    pub substitute_availability_id: Option<usize>,
}

/// Mathematical model of an absence row.
#[verifier::ext_equal]
pub ghost struct AbsenceRowV {
    pub id: int,
    pub lesson_id: int,
    pub date: int,
    pub status: AbsenceStatus,
    pub substitute_availability_id: Option<int>,
}

impl View for AbsenceRow {
    type V = AbsenceRowV;

    open spec fn view(&self) -> AbsenceRowV {
        AbsenceRowV {
            id: self.id as int,
            lesson_id: self.lesson_id as int,
            date: self.date as int,
            status: self.status,
            substitute_availability_id: opt_id_view(self.substitute_availability_id),
        }
    }
}

/// The scheduling store.
#[derive(Debug)]
pub struct Store {
    pub imports: Vec<ImportRow>,
    pub rooms: Vec<RoomRow>,
    pub groups: Vec<GroupRow>,
    pub teachers: Vec<TeacherRow>,
    pub lessons: Vec<LessonRow>,
    pub availabilities: Vec<AvailabilityRow>,
    pub absences: Vec<AbsenceRow>,
    pub next_absence_id: u64,
}

/// Mathematical model of the store.
#[verifier::ext_equal]
pub ghost struct StoreV {
    pub imports: Seq<ImportRowV>,
    pub rooms: Seq<RoomRowV>,
    pub groups: Seq<GroupRowV>,
    pub teachers: Seq<TeacherRowV>,
    pub lessons: Seq<LessonRowV>,
    pub availabilities: Seq<AvailabilityRowV>,
    pub absences: Seq<AbsenceRowV>,
    pub next_absence_id: int,
}

impl View for Store {
    type V = StoreV;

    open spec fn view(&self) -> StoreV {
        StoreV {
            imports: self.imports@.map_values(|r: ImportRow| r@),
            rooms: self.rooms@.map_values(|r: RoomRow| r@),
            groups: self.groups@.map_values(|r: GroupRow| r@),
            teachers: self.teachers@.map_values(|r: TeacherRow| r@),
            lessons: self.lessons@.map_values(|r: LessonRow| r@),
            availabilities: self.availabilities@.map_values(|r: AvailabilityRow| r@),
            absences: self.absences@.map_values(|r: AbsenceRow| r@),
            next_absence_id: self.next_absence_id as int,
        }
    }
}

impl StoreV {
    /// A lesson's references are in range and all point into the same
    /// import: cross-import references are never created.
    pub open spec fn lesson_ok(self, l: LessonRowV) -> bool {
        &&& (l.room_id matches Option::Some(r) ==> 0 <= r < self.rooms.len())
        &&& (l.group_id matches Option::Some(g) ==> 0 <= g < self.groups.len())
        &&& (l.teacher_id matches Option::Some(t) ==> 0 <= t < self.teachers.len())
        &&& (l.room_id matches Option::Some(r) ==> (l.teacher_id matches Option::Some(t)
            ==> self.rooms[r].import_id == self.teachers[t].import_id))
        &&& (l.group_id matches Option::Some(g) ==> (l.teacher_id matches Option::Some(t)
            ==> self.groups[g].import_id == self.teachers[t].import_id))
        &&& (l.room_id matches Option::Some(r) ==> (l.group_id matches Option::Some(g)
            ==> self.rooms[r].import_id == self.groups[g].import_id))
    }

    /// An absence references a real lesson, carries an unexhausted id, and
    /// holds a substitute reference exactly when its status is
    /// `SubstituteFound`.
    pub open spec fn absence_ok(self, a: AbsenceRowV) -> bool {
        &&& 0 <= a.lesson_id < self.lessons.len()
        &&& 0 <= a.id < self.next_absence_id
        &&& (a.substitute_availability_id matches Option::Some(s)
            ==> 0 <= s < self.availabilities.len())
        &&& (a.substitute_availability_id is Some <==> a.status == AbsenceStatus::SubstituteFound)
    }

    /// Well-formedness of the whole store: every reference is in range,
    /// scoping is consistent, and absence ids are unique.
    pub open spec fn wf(self) -> bool {
        &&& forall|i: int| 0 <= i < self.rooms.len()
            ==> 0 <= (#[trigger] self.rooms[i]).import_id < self.imports.len()
        &&& forall|i: int| 0 <= i < self.groups.len()
            ==> 0 <= (#[trigger] self.groups[i]).import_id < self.imports.len()
        &&& forall|i: int| 0 <= i < self.teachers.len()
            ==> 0 <= (#[trigger] self.teachers[i]).import_id < self.imports.len()
        &&& forall|i: int| 0 <= i < self.lessons.len() ==> self.lesson_ok(
            #[trigger] self.lessons[i],
        )
        &&& forall|i: int| 0 <= i < self.availabilities.len()
            ==> 0 <= (#[trigger] self.availabilities[i]).teacher_id < self.teachers.len()
        &&& forall|i: int| 0 <= i < self.absences.len() ==> self.absence_ok(
            #[trigger] self.absences[i],
        )
        &&& forall|i: int, j: int| 0 <= i < j < self.absences.len()
            ==> (#[trigger] self.absences[i]).id != (#[trigger] self.absences[j]).id
        &&& 0 <= self.next_absence_id <= u64::MAX
    }
}

impl Store {
    /// An empty store.
    pub fn new() -> (s: Store)
        ensures
            s@.wf(),
            s@.imports =~= Seq::<ImportRowV>::empty(),
            s@.rooms =~= Seq::<RoomRowV>::empty(),
            s@.groups =~= Seq::<GroupRowV>::empty(),
            s@.teachers =~= Seq::<TeacherRowV>::empty(),
            s@.lessons =~= Seq::<LessonRowV>::empty(),
            s@.availabilities =~= Seq::<AvailabilityRowV>::empty(),
            s@.absences =~= Seq::<AbsenceRowV>::empty(),
            s@.next_absence_id == 0,
    {
        Store {
            imports: Vec::new(),
            rooms: Vec::new(),
            groups: Vec::new(),
            teachers: Vec::new(),
            lessons: Vec::new(),
            availabilities: Vec::new(),
            absences: Vec::new(),
            next_absence_id: 0,
        }
    }
}

/// Discards every element of `v` past the first `n`, restoring the prefix
/// it held before rows were staged.
pub fn truncate_rows<T>(v: &mut Vec<T>, n: usize)
    requires
        n <= old(v)@.len(),
    ensures
        final(v)@ == old(v)@.subrange(0, n as int),
{
    while v.len() > n
        invariant
            n <= v@.len() <= old(v)@.len(),
            v@ == old(v)@.subrange(0, v@.len() as int),
        decreases v@.len(),
    {
        let ghost before = v@;
        v.pop();
        proof {
            assert(v@ =~= old(v)@.subrange(0, v@.len() as int));
        }
    }
    proof {
        assert(v@ =~= old(v)@.subrange(0, n as int));
    }
}

} // verus!
