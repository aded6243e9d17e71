//! The transactional importer.
//!
//! One call ingests one batch: it normalizes every record, inserts the
//! import row, the deduplicated rooms, groups, and teachers, then every
//! availability and lesson, resolving entities by name within the new
//! import's scope. The whole sequence is one unit of work: any failure
//! leaves the store exactly as it was, and a dry run performs and
//! validates every step and then rolls everything back.

use vstd::prelude::*;
use crate::dedup::{batch_names, dedup_seq, distinct_names, record_names, NameField};
use crate::normalize::{
    batch_view, names_view, normalize_batch, normalized_view, spec_batch_error,
    spec_normalize_batch, spec_normalize_record, AvailabilityRecordV, LessonRecordV,
    NormalizedRecord, NormalizedRecordV, RawRecord, RawRecordV,
};
use crate::store::{
    truncate_rows, AvailabilityRow, AvailabilityRowV, GroupRow, GroupRowV, ImportRow, ImportRowV,
    LessonRow, LessonRowV, RoomRow, RoomRowV, Store, StoreV, TeacherRow, TeacherRowV,
};
use crate::types::{ImportError, ImportMode};

verus! {

/// Metadata of one import call: file name, validity window (whole days),
/// and mode.
#[derive(Debug)]
pub struct ImportMeta {
    pub file_name: String,
    pub mode: ImportMode,
    pub begin_ts: i64,
    pub end_ts: i64,
}

/// Mathematical model of import metadata.
#[verifier::ext_equal]
pub ghost struct ImportMetaV {
    pub file_name: Seq<char>,
    pub mode: ImportMode,
    pub begin_ts: int,
    pub end_ts: int,
}

impl View for ImportMeta {
    type V = ImportMetaV;

    open spec fn view(&self) -> ImportMetaV {
        ImportMetaV {
            file_name: self.file_name@,
            mode: self.mode,
            begin_ts: self.begin_ts as int,
            end_ts: self.end_ts as int,
        }
    }
}

/// The first index of `x` in `s`; `s.len()` when absent.
pub open spec fn seq_index_of(s: Seq<Seq<char>>, x: Seq<char>) -> int
    decreases s.len(),
{
    if s.len() == 0 {
        0
    } else if s[0] == x {
        0
    } else {
        1 + seq_index_of(s.drop_first(), x)
    }
}

/// When `s` contains `x`, `seq_index_of` is the first index holding it.
pub proof fn lemma_index_of(s: Seq<Seq<char>>, x: Seq<char>)
    requires
        s.contains(x),
    ensures
        0 <= seq_index_of(s, x) < s.len(),
        s[seq_index_of(s, x)] == x,
        forall|j: int| 0 <= j < seq_index_of(s, x) ==> s[j] != x,
    decreases s.len(),
{
    if s[0] == x {
    } else {
        let i = choose|i: int| 0 <= i < s.len() && s[i] == x;
        assert(s.drop_first()[i - 1] == x);
        assert(s.drop_first().contains(x));
        lemma_index_of(s.drop_first(), x);
        assert forall|j: int| 0 <= j < seq_index_of(s, x) implies s[j] != x by {
            if j > 0 {
                assert(s.drop_first()[j - 1] == s[j]);
            }
        }
    }
}

/// The room rows of a new import, one per distinct name, in order.
pub open spec fn room_rows_of(names: Seq<Seq<char>>, import_id: int) -> Seq<RoomRowV> {
    names.map_values(|n: Seq<char>| RoomRowV { name: n, import_id })
}

/// The group rows of a new import.
pub open spec fn group_rows_of(names: Seq<Seq<char>>, import_id: int) -> Seq<GroupRowV> {
    names.map_values(|n: Seq<char>| GroupRowV { name: n, import_id })
}

/// The teacher rows of a new import.
pub open spec fn teacher_rows_of(names: Seq<Seq<char>>, import_id: int) -> Seq<TeacherRowV> {
    names.map_values(|n: Seq<char>| TeacherRowV { full_name: n, import_id })
}

/// The availability row of one normalized availability record: the
/// teacher is resolved by name within the new import's teacher rows.
pub open spec fn avail_row_of(
    a: AvailabilityRecordV,
    teacher_base: int,
    tnames: Seq<Seq<char>>,
) -> AvailabilityRowV {
    AvailabilityRowV {
        day: a.day,
        time: a.time,
        kind: a.kind,
        teacher_id: teacher_base + seq_index_of(tnames, a.teacher),
    }
}

/// The availability rows of a normalized batch, in record order.
pub open spec fn avail_rows_of(
    ns: Seq<NormalizedRecordV>,
    teacher_base: int,
    tnames: Seq<Seq<char>>,
) -> Seq<AvailabilityRowV>
    decreases ns.len(),
{
    if ns.len() == 0 {
        Seq::empty()
    } else {
        let rest = avail_rows_of(ns.drop_last(), teacher_base, tnames);
        match ns.last() {
            NormalizedRecordV::Availability(a) => rest.push(
                avail_row_of(a, teacher_base, tnames),
            ),
            NormalizedRecordV::Lesson(_) => rest,
        }
    }
}

/// Resolves an optional entity name to its id within a new import's rows.
pub open spec fn opt_resolve(name: Option<Seq<char>>, base: int, names: Seq<Seq<char>>) -> Option<
    int,
> {
    match name {
        Option::Some(n) => Option::Some(base + seq_index_of(names, n)),
        Option::None => Option::None,
    }
}

/// The lesson row of one normalized lesson record, entities resolved by
/// name within the new import's rows.
pub open spec fn lesson_row_of(
    l: LessonRecordV,
    room_base: int,
    rnames: Seq<Seq<char>>,
    group_base: int,
    gnames: Seq<Seq<char>>,
    teacher_base: int,
    tnames: Seq<Seq<char>>,
) -> LessonRowV {
    LessonRowV {
        day: l.day,
        time: l.time,
        duration_minutes: l.duration_minutes,
        room_id: opt_resolve(l.room, room_base, rnames),
        group_id: opt_resolve(l.group, group_base, gnames),
        teacher_id: opt_resolve(l.teacher, teacher_base, tnames),
    }
}

/// The lesson rows of a normalized batch, in record order.
pub open spec fn lesson_rows_of(
    ns: Seq<NormalizedRecordV>,
    room_base: int,
    rnames: Seq<Seq<char>>,
    group_base: int,
    gnames: Seq<Seq<char>>,
    teacher_base: int,
    tnames: Seq<Seq<char>>,
) -> Seq<LessonRowV>
    decreases ns.len(),
{
    if ns.len() == 0 {
        Seq::empty()
    } else {
        let rest = lesson_rows_of(
            ns.drop_last(),
            room_base,
            rnames,
            group_base,
            gnames,
            teacher_base,
            tnames,
        );
        match ns.last() {
            NormalizedRecordV::Lesson(l) => rest.push(
                lesson_row_of(l, room_base, rnames, group_base, gnames, teacher_base, tnames),
            ),
            NormalizedRecordV::Availability(_) => rest,
        }
    }
}

/// The store after a committed import of batch `b`: the import row, the
/// deduplicated entity rows, and the availability and lesson rows, all
/// appended in order. Meaningful when the batch normalizes.
pub open spec fn spec_import_result(
    st: StoreV,
    meta: ImportMetaV,
    user_id: int,
    b: Seq<RawRecordV>,
) -> StoreV
    recommends
        spec_normalize_batch(b) is Ok,
{
    let import_id = st.imports.len() as int;
    let rn = dedup_seq(batch_names(b, NameField::Rooms));
    let gn = dedup_seq(batch_names(b, NameField::Groups));
    let tn = dedup_seq(batch_names(b, NameField::Teachers));
    let ns = spec_normalize_batch(b)->Ok_0;
    StoreV {
        imports: st.imports.push(
            ImportRowV {
                user_id,
                file_name: meta.file_name,
                begin_ts: meta.begin_ts,
                end_ts: meta.end_ts,
            },
        ),
        rooms: st.rooms + room_rows_of(rn, import_id),
        groups: st.groups + group_rows_of(gn, import_id),
        teachers: st.teachers + teacher_rows_of(tn, import_id),
        availabilities: st.availabilities + avail_rows_of(ns, st.teachers.len() as int, tn),
        lessons: st.lessons + lesson_rows_of(
            ns,
            st.rooms.len() as int,
            rn,
            st.groups.len() as int,
            gn,
            st.teachers.len() as int,
            tn,
        ),
        absences: st.absences,
        next_absence_id: st.next_absence_id,
    }
}

/// A batch that normalizes does so record by record.
pub proof fn lemma_batch_ok_elements(b: Seq<RawRecordV>)
    requires
        spec_normalize_batch(b) is Ok,
    ensures
        spec_normalize_batch(b)->Ok_0.len() == b.len(),
        forall|i: int| 0 <= i < b.len() ==> spec_normalize_record(b[i]) == Ok::<
            NormalizedRecordV,
            crate::normalize::RecordErrorV,
        >(spec_normalize_batch(b)->Ok_0[i]),
    decreases b.len(),
{
    if b.len() > 0 {
        lemma_batch_ok_elements(b.drop_last());
        assert forall|i: int| 0 <= i < b.len() implies spec_normalize_record(b[i]) == Ok::<
            NormalizedRecordV,
            crate::normalize::RecordErrorV,
        >(spec_normalize_batch(b)->Ok_0[i]) by {
            if i < b.len() - 1 {
                assert(b.drop_last()[i] == b[i]);
            }
        }
    }
}

/// A name occurring in one record's list occurs in the batch's list.
pub proof fn lemma_record_names_in_batch(b: Seq<RawRecordV>, i: int, f: NameField, x: Seq<char>)
    requires
        0 <= i < b.len(),
        record_names(b[i], f).contains(x),
    ensures
        batch_names(b, f).contains(x),
    decreases b.len(),
{
    if i == b.len() - 1 {
        let rest = batch_names(b.drop_last(), f);
        let k = choose|k: int| 0 <= k < record_names(b[i], f).len() && record_names(b[i], f)[k]
            == x;
        assert(batch_names(b, f)[rest.len() + k] == x);
    } else {
        assert(b.drop_last()[i] == b[i]);
        lemma_record_names_in_batch(b.drop_last(), i, f, x);
        let k = choose|k: int| 0 <= k < batch_names(b.drop_last(), f).len() && batch_names(
            b.drop_last(),
            f,
        )[k] == x;
        assert(batch_names(b, f)[k] == x);
    }
}

/// Per-element name facts of a normalized batch: every availability's
/// teacher and every lesson's present room, group, and teacher occur in
/// the corresponding deduplicated name list.
pub open spec fn names_resolved(
    n: NormalizedRecordV,
    rn: Seq<Seq<char>>,
    gn: Seq<Seq<char>>,
    tn: Seq<Seq<char>>,
) -> bool {
    match n {
        NormalizedRecordV::Availability(a) => tn.contains(a.teacher),
        NormalizedRecordV::Lesson(l) => {
            &&& (l.room matches Option::Some(r) ==> rn.contains(r))
            &&& (l.group matches Option::Some(g) ==> gn.contains(g))
            &&& (l.teacher matches Option::Some(t) ==> tn.contains(t))
        },
    }
}

/// Every element of a normalized batch resolves within the batch's
/// deduplicated name lists.
pub proof fn lemma_batch_names_resolved(b: Seq<RawRecordV>)
    requires
        spec_normalize_batch(b) is Ok,
    ensures
        forall|i: int| 0 <= i < spec_normalize_batch(b)->Ok_0.len() ==> names_resolved(
            #[trigger] spec_normalize_batch(b)->Ok_0[i],
            dedup_seq(batch_names(b, NameField::Rooms)),
            dedup_seq(batch_names(b, NameField::Groups)),
            dedup_seq(batch_names(b, NameField::Teachers)),
        ),
{
    lemma_batch_ok_elements(b);
    let ns = spec_normalize_batch(b)->Ok_0;
    let rn = dedup_seq(batch_names(b, NameField::Rooms));
    let gn = dedup_seq(batch_names(b, NameField::Groups));
    let tn = dedup_seq(batch_names(b, NameField::Teachers));
    assert forall|i: int| 0 <= i < ns.len() implies names_resolved(
        #[trigger] ns[i],
        rn,
        gn,
        tn,
    ) by {
        let r = b[i];
        match ns[i] {
            NormalizedRecordV::Availability(a) => {
                assert(record_names(r, NameField::Teachers)[0] == a.teacher);
                assert(record_names(r, NameField::Teachers).contains(a.teacher));
                lemma_record_names_in_batch(b, i, NameField::Teachers, a.teacher);
                crate::dedup::lemma_dedup_contains(batch_names(b, NameField::Teachers), a.teacher);
            },
            NormalizedRecordV::Lesson(l) => {
                if l.room is Some {
                    assert(record_names(r, NameField::Rooms)[0] == l.room->0);
                    assert(record_names(r, NameField::Rooms).contains(l.room->0));
                    lemma_record_names_in_batch(b, i, NameField::Rooms, l.room->0);
                    crate::dedup::lemma_dedup_contains(
                        batch_names(b, NameField::Rooms),
                        l.room->0,
                    );
                }
                if l.group is Some {
                    assert(record_names(r, NameField::Groups)[0] == l.group->0);
                    assert(record_names(r, NameField::Groups).contains(l.group->0));
                    lemma_record_names_in_batch(b, i, NameField::Groups, l.group->0);
                    crate::dedup::lemma_dedup_contains(
                        batch_names(b, NameField::Groups),
                        l.group->0,
                    );
                }
                if l.teacher is Some {
                    assert(record_names(r, NameField::Teachers)[0] == l.teacher->0);
                    assert(record_names(r, NameField::Teachers).contains(l.teacher->0));
                    lemma_record_names_in_batch(b, i, NameField::Teachers, l.teacher->0);
                    crate::dedup::lemma_dedup_contains(
                        batch_names(b, NameField::Teachers),
                        l.teacher->0,
                    );
                }
            },
        }
    }
}

/// Every availability row of a resolved batch references a teacher within
/// the new import's teacher range.
pub proof fn lemma_avail_rows_in_range(
    ns: Seq<NormalizedRecordV>,
    teacher_base: int,
    tn: Seq<Seq<char>>,
    rn: Seq<Seq<char>>,
    gn: Seq<Seq<char>>,
)
    requires
        forall|i: int| 0 <= i < ns.len() ==> names_resolved(#[trigger] ns[i], rn, gn, tn),
    ensures
        avail_rows_of(ns, teacher_base, tn).len() <= ns.len(),
        forall|k: int| 0 <= k < avail_rows_of(ns, teacher_base, tn).len() ==> teacher_base <= (
        #[trigger] avail_rows_of(ns, teacher_base, tn)[k]).teacher_id < teacher_base + tn.len(),
    decreases ns.len(),
{
    if ns.len() > 0 {
        assert(forall|i: int| 0 <= i < ns.drop_last().len() ==> names_resolved(
            #[trigger] ns.drop_last()[i],
            rn,
            gn,
            tn,
        ));
        lemma_avail_rows_in_range(ns.drop_last(), teacher_base, tn, rn, gn);
        match ns.last() {
            NormalizedRecordV::Availability(a) => {
                assert(names_resolved(ns[ns.len() - 1], rn, gn, tn));
                lemma_index_of(tn, a.teacher);
            },
            NormalizedRecordV::Lesson(_) => {},
        }
    }
}

/// Every lesson row of a resolved batch references entities within the
/// new import's ranges, all scoped to the new import.
pub proof fn lemma_lesson_rows_in_range(
    ns: Seq<NormalizedRecordV>,
    room_base: int,
    rn: Seq<Seq<char>>,
    group_base: int,
    gn: Seq<Seq<char>>,
    teacher_base: int,
    tn: Seq<Seq<char>>,
)
    requires
        forall|i: int| 0 <= i < ns.len() ==> names_resolved(#[trigger] ns[i], rn, gn, tn),
    ensures
        lesson_rows_of(ns, room_base, rn, group_base, gn, teacher_base, tn).len() <= ns.len(),
        forall|k: int|
            0 <= k < lesson_rows_of(ns, room_base, rn, group_base, gn, teacher_base, tn).len()
                ==> {
                let l = #[trigger] lesson_rows_of(
                    ns,
                    room_base,
                    rn,
                    group_base,
                    gn,
                    teacher_base,
                    tn,
                )[k];
                &&& (l.room_id matches Option::Some(r) ==> room_base <= r < room_base + rn.len())
                &&& (l.group_id matches Option::Some(g) ==> group_base <= g < group_base
                    + gn.len())
                &&& (l.teacher_id matches Option::Some(t) ==> teacher_base <= t < teacher_base
                    + tn.len())
            },
    decreases ns.len(),
{
    if ns.len() > 0 {
        assert(forall|i: int| 0 <= i < ns.drop_last().len() ==> names_resolved(
            #[trigger] ns.drop_last()[i],
            rn,
            gn,
            tn,
        ));
        lemma_lesson_rows_in_range(ns.drop_last(), room_base, rn, group_base, gn, teacher_base, tn);
        match ns.last() {
            NormalizedRecordV::Lesson(l) => {
                assert(names_resolved(ns[ns.len() - 1], rn, gn, tn));
                if l.room is Some {
                    lemma_index_of(rn, l.room->0);
                }
                if l.group is Some {
                    lemma_index_of(gn, l.group->0);
                }
                if l.teacher is Some {
                    lemma_index_of(tn, l.teacher->0);
                }
            },
            NormalizedRecordV::Availability(_) => {},
        }
    }
}

/// A committed import preserves store well-formedness.
pub proof fn lemma_import_result_wf(st: StoreV, meta: ImportMetaV, user_id: int, b: Seq<RawRecordV>)
    requires
        st.wf(),
        spec_normalize_batch(b) is Ok,
    ensures
        spec_import_result(st, meta, user_id, b).wf(),
{
    let res = spec_import_result(st, meta, user_id, b);
    let import_id = st.imports.len() as int;
    let rn = dedup_seq(batch_names(b, NameField::Rooms));
    let gn = dedup_seq(batch_names(b, NameField::Groups));
    let tn = dedup_seq(batch_names(b, NameField::Teachers));
    let ns = spec_normalize_batch(b)->Ok_0;
    lemma_batch_names_resolved(b);
    lemma_avail_rows_in_range(ns, st.teachers.len() as int, tn, rn, gn);
    lemma_lesson_rows_in_range(
        ns,
        st.rooms.len() as int,
        rn,
        st.groups.len() as int,
        gn,
        st.teachers.len() as int,
        tn,
    );
    let room_base = st.rooms.len() as int;
    let group_base = st.groups.len() as int;
    let teacher_base = st.teachers.len() as int;
    // Rows of the new import all carry the new import id.
    assert(forall|k: int| 0 <= k < rn.len() ==> (#[trigger] room_rows_of(rn, import_id)[k])
        == (RoomRowV { name: rn[k], import_id }));
    assert(forall|k: int| 0 <= k < gn.len() ==> (#[trigger] group_rows_of(gn, import_id)[k])
        == (GroupRowV { name: gn[k], import_id }));
    assert(forall|k: int| 0 <= k < tn.len() ==> (#[trigger] teacher_rows_of(tn, import_id)[k])
        == (TeacherRowV { full_name: tn[k], import_id }));
    assert forall|i: int| 0 <= i < res.lessons.len() implies res.lesson_ok(
        #[trigger] res.lessons[i],
    ) by {
        if i < st.lessons.len() {
            assert(st.lesson_ok(st.lessons[i]));
            assert(res.lessons[i] == st.lessons[i]);
            let l = res.lessons[i];
            if l.room_id is Some {
                assert(res.rooms[l.room_id->0] == st.rooms[l.room_id->0]);
            }
            if l.group_id is Some {
                assert(res.groups[l.group_id->0] == st.groups[l.group_id->0]);
            }
            if l.teacher_id is Some {
                assert(res.teachers[l.teacher_id->0] == st.teachers[l.teacher_id->0]);
            }
        } else {
            let nl = lesson_rows_of(ns, room_base, rn, group_base, gn, teacher_base, tn);
            let k = i - st.lessons.len();
            assert(0 <= k < nl.len());
            assert(res.lessons[i] == nl[k]);
            let l = nl[k];
            if l.room_id is Some {
                assert(res.rooms[l.room_id->0] == room_rows_of(rn, import_id)[l.room_id->0
                    - room_base]);
                assert(res.rooms[l.room_id->0].import_id == import_id);
            }
            if l.group_id is Some {
                assert(res.groups[l.group_id->0] == group_rows_of(gn, import_id)[l.group_id->0
                    - group_base]);
                assert(res.groups[l.group_id->0].import_id == import_id);
            }
            if l.teacher_id is Some {
                assert(res.teachers[l.teacher_id->0] == teacher_rows_of(tn, import_id)[
                    l.teacher_id->0 - teacher_base]);
                assert(res.teachers[l.teacher_id->0].import_id == import_id);
            }
        }
    }
    assert forall|i: int| 0 <= i < res.availabilities.len() implies 0 <= (
    #[trigger] res.availabilities[i]).teacher_id < res.teachers.len() by {
        if i < st.availabilities.len() {
            assert(res.availabilities[i] == st.availabilities[i]);
        } else {
            assert(res.availabilities[i] == avail_rows_of(ns, teacher_base, tn)[i
                - st.availabilities.len()]);
        }
    }
    assert forall|i: int| 0 <= i < res.absences.len() implies res.absence_ok(
        #[trigger] res.absences[i],
    ) by {
        assert(res.absences[i] == st.absences[i]);
        assert(st.absence_ok(st.absences[i]));
    }
}

// ---------------------------------------------------------------------------
// Staging the rows of a new import
// ---------------------------------------------------------------------------

/// Appends one room row per name, all tagged with the new import id.
fn push_room_rows(rooms: &mut Vec<RoomRow>, names: &Vec<String>, import_id: usize)
    ensures
        final(rooms)@.map_values(|r: RoomRow| r@) == old(rooms)@.map_values(|r: RoomRow| r@)
            + room_rows_of(names_view(names@), import_id as int),
{
    let ghost base = rooms@.map_values(|r: RoomRow| r@);
    let n = names.len();
    let mut k: usize = 0;
    proof {
        assert(rooms@.map_values(|r: RoomRow| r@) =~= base + room_rows_of(
            names_view(names@).subrange(0, 0),
            import_id as int,
        ));
    }
    while k < n
        invariant
            k <= n,
            n == names@.len(),
            rooms@.map_values(|r: RoomRow| r@) == base + room_rows_of(
                names_view(names@).subrange(0, k as int),
                import_id as int,
            ),
        decreases n - k,
    {
        let ghost prev = rooms@.map_values(|r: RoomRow| r@);
        let ghost rowv = (RoomRowV { name: names@[k as int]@, import_id: import_id as int });
        rooms.push(RoomRow { name: names[k].clone(), import_id });
        proof {
            assert(rooms@.map_values(|r: RoomRow| r@) =~= prev.push(rowv));
            assert(room_rows_of(names_view(names@).subrange(0, k + 1), import_id as int)
                =~= room_rows_of(names_view(names@).subrange(0, k as int), import_id as int).push(
                rowv,
            ));
            assert(rooms@.map_values(|r: RoomRow| r@) =~= base + room_rows_of(
                names_view(names@).subrange(0, k + 1),
                import_id as int,
            ));
        }
        k += 1;
    }
    proof {
        assert(names_view(names@).subrange(0, n as int) =~= names_view(names@));
    }
}

/// Appends one group row per name, all tagged with the new import id.
fn push_group_rows(groups: &mut Vec<GroupRow>, names: &Vec<String>, import_id: usize)
    ensures
        final(groups)@.map_values(|r: GroupRow| r@) == old(groups)@.map_values(|r: GroupRow| r@)
            + group_rows_of(names_view(names@), import_id as int),
{
    let ghost base = groups@.map_values(|r: GroupRow| r@);
    let n = names.len();
    let mut k: usize = 0;
    proof {
        assert(groups@.map_values(|r: GroupRow| r@) =~= base + group_rows_of(
            names_view(names@).subrange(0, 0),
            import_id as int,
        ));
    }
    while k < n
        invariant
            k <= n,
            n == names@.len(),
            groups@.map_values(|r: GroupRow| r@) == base + group_rows_of(
                names_view(names@).subrange(0, k as int),
                import_id as int,
            ),
        decreases n - k,
    {
        let ghost prev = groups@.map_values(|r: GroupRow| r@);
        let ghost rowv = (GroupRowV { name: names@[k as int]@, import_id: import_id as int });
        groups.push(GroupRow { name: names[k].clone(), import_id });
        proof {
            assert(groups@.map_values(|r: GroupRow| r@) =~= prev.push(rowv));
            assert(group_rows_of(names_view(names@).subrange(0, k + 1), import_id as int)
                =~= group_rows_of(names_view(names@).subrange(0, k as int), import_id as int).push(
                rowv,
            ));
            assert(groups@.map_values(|r: GroupRow| r@) =~= base + group_rows_of(
                names_view(names@).subrange(0, k + 1),
                import_id as int,
            ));
        }
        k += 1;
    }
    proof {
        assert(names_view(names@).subrange(0, n as int) =~= names_view(names@));
    }
}

/// Appends one teacher row per name, all tagged with the new import id.
fn push_teacher_rows(teachers: &mut Vec<TeacherRow>, names: &Vec<String>, import_id: usize)
    ensures
        final(teachers)@.map_values(|r: TeacherRow| r@) == old(teachers)@.map_values(
            |r: TeacherRow| r@,
        ) + teacher_rows_of(names_view(names@), import_id as int),
{
    let ghost base = teachers@.map_values(|r: TeacherRow| r@);
    let n = names.len();
    let mut k: usize = 0;
    proof {
        assert(teachers@.map_values(|r: TeacherRow| r@) =~= base + teacher_rows_of(
            names_view(names@).subrange(0, 0),
            import_id as int,
        ));
    }
    while k < n
        invariant
            k <= n,
            n == names@.len(),
            teachers@.map_values(|r: TeacherRow| r@) == base + teacher_rows_of(
                names_view(names@).subrange(0, k as int),
                import_id as int,
            ),
        decreases n - k,
    {
        let ghost prev = teachers@.map_values(|r: TeacherRow| r@);
        let ghost rowv = (TeacherRowV { full_name: names@[k as int]@, import_id: import_id as int });
        teachers.push(TeacherRow { full_name: names[k].clone(), import_id });
        proof {
            assert(teachers@.map_values(|r: TeacherRow| r@) =~= prev.push(rowv));
            assert(teacher_rows_of(names_view(names@).subrange(0, k + 1), import_id as int)
                =~= teacher_rows_of(names_view(names@).subrange(0, k as int), import_id as int).push(
                rowv,
            ));
            assert(teachers@.map_values(|r: TeacherRow| r@) =~= base + teacher_rows_of(
                names_view(names@).subrange(0, k + 1),
                import_id as int,
            ));
        }
        k += 1;
    }
    proof {
        assert(names_view(names@).subrange(0, n as int) =~= names_view(names@));
    }
}

/// Finds the first teacher at or past `from` with the given name.
fn find_teacher_from(teachers: &Vec<TeacherRow>, from: usize, name: &str) -> (r: Option<usize>)
    requires
        from <= teachers@.len(),
    ensures
        match r {
            Some(k) => from <= k < teachers@.len() && teachers@[k as int].full_name@ == name@
                && forall|j: int| from <= j < k ==> teachers@[j].full_name@ != name@,
            None => forall|j: int| from <= j < teachers@.len() ==> teachers@[j].full_name@
                != name@,
        },
{
    let n = teachers.len();
    let mut k = from;
    while k < n
        invariant
            from <= k <= n,
            n == teachers@.len(),
            forall|j: int| from <= j < k ==> teachers@[j].full_name@ != name@,
        decreases n - k,
    {
        if crate::text::str_eq(teachers[k].full_name.as_str(), name) {
            return Some(k);
        }
        k += 1;
    }
    None
}

/// Finds the first room at or past `from` with the given name.
fn find_room_from(rooms: &Vec<RoomRow>, from: usize, name: &str) -> (r: Option<usize>)
    requires
        from <= rooms@.len(),
    ensures
        match r {
            Some(k) => from <= k < rooms@.len() && rooms@[k as int].name@ == name@ && forall|
                j: int,
            | from <= j < k ==> rooms@[j].name@ != name@,
            None => forall|j: int| from <= j < rooms@.len() ==> rooms@[j].name@ != name@,
        },
{
    let n = rooms.len();
    let mut k = from;
    while k < n
        invariant
            from <= k <= n,
            n == rooms@.len(),
            forall|j: int| from <= j < k ==> rooms@[j].name@ != name@,
        decreases n - k,
    {
        if crate::text::str_eq(rooms[k].name.as_str(), name) {
            return Some(k);
        }
        k += 1;
    }
    None
}

/// Finds the first group at or past `from` with the given name.
fn find_group_from(groups: &Vec<GroupRow>, from: usize, name: &str) -> (r: Option<usize>)
    requires
        from <= groups@.len(),
    ensures
        match r {
            Some(k) => from <= k < groups@.len() && groups@[k as int].name@ == name@ && forall|
                j: int,
            | from <= j < k ==> groups@[j].name@ != name@,
            None => forall|j: int| from <= j < groups@.len() ==> groups@[j].name@ != name@,
        },
{
    let n = groups.len();
    let mut k = from;
    while k < n
        invariant
            from <= k <= n,
            n == groups@.len(),
            forall|j: int| from <= j < k ==> groups@[j].name@ != name@,
        decreases n - k,
    {
        if crate::text::str_eq(groups[k].name.as_str(), name) {
            return Some(k);
        }
        k += 1;
    }
    None
}

/// Builds the availability rows of a normalized batch: each teacher
/// resolved by name among the new import's teacher rows, which start at
/// `teacher_base` and carry the deduplicated names `tn` in order.
fn build_avail_rows(
    teachers: &Vec<TeacherRow>,
    normalized: &Vec<NormalizedRecord>,
    teacher_base: usize,
    Ghost(rn): Ghost<Seq<Seq<char>>>,
    Ghost(gn): Ghost<Seq<Seq<char>>>,
    Ghost(tn): Ghost<Seq<Seq<char>>>,
) -> (out: Vec<AvailabilityRow>)
    requires
        teacher_base + tn.len() == teachers@.len(),
        forall|j: int| 0 <= j < tn.len() ==> (#[trigger] teachers@[teacher_base + j].full_name)@
            == tn[j],
        forall|ii: int| 0 <= ii < normalized@.len() ==> names_resolved(
            #[trigger] normalized_view(normalized@)[ii],
            rn,
            gn,
            tn,
        ),
    ensures
        out@.map_values(|r: AvailabilityRow| r@) == avail_rows_of(
            normalized_view(normalized@),
            teacher_base as int,
            tn,
        ),
{
    let ghost nsv = normalized_view(normalized@);
    let n = normalized.len();
    let mut out: Vec<AvailabilityRow> = Vec::new();
    let mut i: usize = 0;
    proof {
        assert(nsv.subrange(0, 0) =~= Seq::<NormalizedRecordV>::empty());
        assert(out@.map_values(|r: AvailabilityRow| r@) =~= avail_rows_of(
            nsv.subrange(0, 0),
            teacher_base as int,
            tn,
        ));
    }
    while i < n
        invariant
            i <= n,
            n == normalized@.len(),
            nsv == normalized_view(normalized@),
            teacher_base + tn.len() == teachers@.len(),
            forall|j: int| 0 <= j < tn.len() ==> (#[trigger] teachers@[teacher_base
                + j].full_name)@ == tn[j],
            forall|ii: int| 0 <= ii < normalized@.len() ==> names_resolved(
                #[trigger] normalized_view(normalized@)[ii],
                rn,
                gn,
                tn,
            ),
            out@.map_values(|r: AvailabilityRow| r@) == avail_rows_of(
                nsv.subrange(0, i as int),
                teacher_base as int,
                tn,
            ),
        decreases n - i,
    {
        let ghost prev = out@.map_values(|r: AvailabilityRow| r@);
        match &normalized[i] {
            NormalizedRecord::Availability(a) => {
                proof {
                    assert(nsv[i as int] == normalized@[i as int]@);
                    assert(names_resolved(nsv[i as int], rn, gn, tn));
                    assert(tn.contains(a@.teacher));
                    lemma_index_of(tn, a@.teacher);
                }
                let tid = match find_teacher_from(teachers, teacher_base, a.teacher.as_str()) {
                    Some(k) => k,
                    None => {
                        proof {
                            let idx = seq_index_of(tn, a@.teacher);
                            assert(teachers@[teacher_base + idx].full_name@ == a@.teacher);
                        }
                        assert(false);
                        vstd::pervasive::unreached()
                    },
                };
                proof {
                    let idx = seq_index_of(tn, a@.teacher);
                    if tid - teacher_base < idx {
                        assert(teachers@[teacher_base + (tid - teacher_base)].full_name@ == tn[
                            tid - teacher_base]);
                    }
                    if idx < tid - teacher_base {
                        assert(teachers@[teacher_base + idx].full_name@ == tn[idx]);
                    }
                    assert(tid as int == teacher_base + idx);
                }
                out.push(
                    AvailabilityRow { day: a.day, time: a.time, kind: a.kind, teacher_id: tid },
                );
                proof {
                    assert(out@.map_values(|r: AvailabilityRow| r@) =~= prev.push(
                        avail_row_of(a@, teacher_base as int, tn),
                    ));
                }
            },
            NormalizedRecord::Lesson(_) => {
                proof {
                    assert(nsv[i as int] == normalized@[i as int]@);
                }
            },
        }
        proof {
            let t = nsv.subrange(0, i + 1);
            assert(t.drop_last() =~= nsv.subrange(0, i as int));
            assert(t.last() == nsv[i as int]);
        }
        i += 1;
    }
    proof {
        assert(nsv.subrange(0, n as int) =~= nsv);
    }
    out
}

/// Builds the lesson rows of a normalized batch: room, group, and teacher
/// each resolved by name, when present, among the new import's rows.
fn build_lesson_rows(
    rooms: &Vec<RoomRow>,
    groups: &Vec<GroupRow>,
    teachers: &Vec<TeacherRow>,
    normalized: &Vec<NormalizedRecord>,
    room_base: usize,
    group_base: usize,
    teacher_base: usize,
    Ghost(rn): Ghost<Seq<Seq<char>>>,
    Ghost(gn): Ghost<Seq<Seq<char>>>,
    Ghost(tn): Ghost<Seq<Seq<char>>>,
) -> (out: Vec<LessonRow>)
    requires
        room_base + rn.len() == rooms@.len(),
        group_base + gn.len() == groups@.len(),
        teacher_base + tn.len() == teachers@.len(),
        forall|j: int| 0 <= j < rn.len() ==> (#[trigger] rooms@[room_base + j].name)@ == rn[j],
        forall|j: int| 0 <= j < gn.len() ==> (#[trigger] groups@[group_base + j].name)@ == gn[j],
        forall|j: int| 0 <= j < tn.len() ==> (#[trigger] teachers@[teacher_base + j].full_name)@
            == tn[j],
        forall|ii: int| 0 <= ii < normalized@.len() ==> names_resolved(
            #[trigger] normalized_view(normalized@)[ii],
            rn,
            gn,
            tn,
        ),
    ensures
        out@.map_values(|r: LessonRow| r@) == lesson_rows_of(
            normalized_view(normalized@),
            room_base as int,
            rn,
            group_base as int,
            gn,
            teacher_base as int,
            tn,
        ),
{
    let ghost nsv = normalized_view(normalized@);
    let n = normalized.len();
    let mut out: Vec<LessonRow> = Vec::new();
    let mut i: usize = 0;
    proof {
        assert(nsv.subrange(0, 0) =~= Seq::<NormalizedRecordV>::empty());
        assert(out@.map_values(|r: LessonRow| r@) =~= lesson_rows_of(
            nsv.subrange(0, 0),
            room_base as int,
            rn,
            group_base as int,
            gn,
            teacher_base as int,
            tn,
        ));
    }
    while i < n
        invariant
            i <= n,
            n == normalized@.len(),
            nsv == normalized_view(normalized@),
            room_base + rn.len() == rooms@.len(),
            group_base + gn.len() == groups@.len(),
            teacher_base + tn.len() == teachers@.len(),
            forall|j: int| 0 <= j < rn.len() ==> (#[trigger] rooms@[room_base + j].name)@ == rn[j],
            forall|j: int| 0 <= j < gn.len() ==> (#[trigger] groups@[group_base + j].name)@
                == gn[j],
            forall|j: int| 0 <= j < tn.len() ==> (#[trigger] teachers@[teacher_base
                + j].full_name)@ == tn[j],
            forall|ii: int| 0 <= ii < normalized@.len() ==> names_resolved(
                #[trigger] normalized_view(normalized@)[ii],
                rn,
                gn,
                tn,
            ),
            out@.map_values(|r: LessonRow| r@) == lesson_rows_of(
                nsv.subrange(0, i as int),
                room_base as int,
                rn,
                group_base as int,
                gn,
                teacher_base as int,
                tn,
            ),
        decreases n - i,
    {
        let ghost prev = out@.map_values(|r: LessonRow| r@);
        match &normalized[i] {
            NormalizedRecord::Lesson(l) => {
                proof {
                    assert(nsv[i as int] == normalized@[i as int]@);
                    assert(names_resolved(nsv[i as int], rn, gn, tn));
                }
                let room_id = match &l.room {
                    Option::Some(nm) => {
                        proof {
                            assert(rn.contains(nm@));
                            lemma_index_of(rn, nm@);
                        }
                        let rid = match find_room_from(rooms, room_base, nm.as_str()) {
                            Some(k) => k,
                            None => {
                                proof {
                                    let idx = seq_index_of(rn, nm@);
                                    assert(rooms@[room_base + idx].name@ == nm@);
                                }
                                assert(false);
                                vstd::pervasive::unreached()
                            },
                        };
                        proof {
                            let idx = seq_index_of(rn, nm@);
                            if rid - room_base < idx {
                                assert(rooms@[room_base + (rid - room_base)].name@ == rn[rid
                                    - room_base]);
                            }
                            if idx < rid - room_base {
                                assert(rooms@[room_base + idx].name@ == rn[idx]);
                            }
                            assert(rid as int == room_base + idx);
                        }
                        Option::Some(rid)
                    },
                    Option::None => Option::None,
                };
                let group_id = match &l.group {
                    Option::Some(nm) => {
                        proof {
                            assert(gn.contains(nm@));
                            lemma_index_of(gn, nm@);
                        }
                        let gid = match find_group_from(groups, group_base, nm.as_str()) {
                            Some(k) => k,
                            None => {
                                proof {
                                    let idx = seq_index_of(gn, nm@);
                                    assert(groups@[group_base + idx].name@ == nm@);
                                }
                                assert(false);
                                vstd::pervasive::unreached()
                            },
                        };
                        proof {
                            let idx = seq_index_of(gn, nm@);
                            if gid - group_base < idx {
                                assert(groups@[group_base + (gid - group_base)].name@ == gn[gid
                                    - group_base]);
                            }
                            if idx < gid - group_base {
                                assert(groups@[group_base + idx].name@ == gn[idx]);
                            }
                            assert(gid as int == group_base + idx);
                        }
                        Option::Some(gid)
                    },
                    Option::None => Option::None,
                };
                let teacher_id = match &l.teacher {
                    Option::Some(nm) => {
                        proof {
                            assert(tn.contains(nm@));
                            lemma_index_of(tn, nm@);
                        }
                        let tid = match find_teacher_from(teachers, teacher_base, nm.as_str()) {
                            Some(k) => k,
                            None => {
                                proof {
                                    let idx = seq_index_of(tn, nm@);
                                    assert(teachers@[teacher_base + idx].full_name@ == nm@);
                                }
                                assert(false);
                                vstd::pervasive::unreached()
                            },
                        };
                        proof {
                            let idx = seq_index_of(tn, nm@);
                            if tid - teacher_base < idx {
                                assert(teachers@[teacher_base + (tid - teacher_base)].full_name@
                                    == tn[tid - teacher_base]);
                            }
                            if idx < tid - teacher_base {
                                assert(teachers@[teacher_base + idx].full_name@ == tn[idx]);
                            }
                            assert(tid as int == teacher_base + idx);
                        }
                        Option::Some(tid)
                    },
                    Option::None => Option::None,
                };
                out.push(
                    LessonRow {
                        day: l.day,
                        time: l.time,
                        duration_minutes: l.duration_minutes,
                        room_id,
                        group_id,
                        teacher_id,
                    },
                );
                proof {
                    assert(out@.map_values(|r: LessonRow| r@) =~= prev.push(
                        lesson_row_of(
                            l@,
                            room_base as int,
                            rn,
                            group_base as int,
                            gn,
                            teacher_base as int,
                            tn,
                        ),
                    ));
                }
            },
            NormalizedRecord::Availability(_) => {
                proof {
                    assert(nsv[i as int] == normalized@[i as int]@);
                }
            },
        }
        proof {
            let t = nsv.subrange(0, i + 1);
            assert(t.drop_last() =~= nsv.subrange(0, i as int));
            assert(t.last() == nsv[i as int]);
        }
        i += 1;
    }
    proof {
        assert(nsv.subrange(0, n as int) =~= nsv);
    }
    out
}

impl Store {
    /// Ingests one batch as one atomic import.
    ///
    /// Every step runs and is validated in both modes: normalization of
    /// every record, insertion of the import row, the deduplicated rooms,
    /// groups, and teachers, then every availability and lesson with
    /// entities resolved by name within the new import's scope. A failure
    /// leaves the store exactly as it was; `DryRun` always rolls back;
    /// `Write` always commits. Success is owed exactly when the whole
    /// batch normalizes, and the error is the first failing record's,
    /// with its index.
    pub fn apply_import(
        &mut self,
        meta: &ImportMeta,
        records: &Vec<RawRecord>,
        user_id: i64,
    ) -> (res: Result<(), ImportError>)
        requires
            old(self)@.wf(),
        ensures
            final(self)@.wf(),
            res is Err ==> final(self)@ == old(self)@,
            meta.mode == ImportMode::DryRun ==> final(self)@ == old(self)@,
            res is Ok <==> spec_normalize_batch(batch_view(records@)) is Ok,
            res matches Err(e) ==> (spec_normalize_batch(batch_view(records@)) matches Err((i, re))
                && e@ == spec_batch_error(i, re)),
            (res is Ok && meta.mode == ImportMode::Write) ==> final(self)@ == spec_import_result(
                old(self)@,
                meta@,
                user_id as int,
                batch_view(records@),
            ),
    {
        let ghost st0 = self@;
        let ghost b = batch_view(records@);
        let normalized = match normalize_batch(records) {
            Ok(v) => v,
            Err(e) => {
                return Err(e);
            },
        };
        let ghost nsv = normalized_view(normalized@);
        proof {
            lemma_batch_ok_elements(b);
            lemma_batch_names_resolved(b);
        }
        let room_names = distinct_names(records, NameField::Rooms);
        let group_names = distinct_names(records, NameField::Groups);
        let teacher_names = distinct_names(records, NameField::Teachers);
        let ghost rn = dedup_seq(batch_names(b, NameField::Rooms));
        let ghost gn = dedup_seq(batch_names(b, NameField::Groups));
        let ghost tn = dedup_seq(batch_names(b, NameField::Teachers));
        let import_id = self.imports.len();
        let room_base = self.rooms.len();
        let group_base = self.groups.len();
        let teacher_base = self.teachers.len();
        let avail_base = self.availabilities.len();
        let lesson_base = self.lessons.len();

        // Step 1: the import row.
        self.imports.push(
            ImportRow {
                user_id,
                file_name: meta.file_name.clone(),
                begin_ts: meta.begin_ts,
                end_ts: meta.end_ts,
            },
        );
        proof {
            assert(self@.imports =~= st0.imports.push(
                ImportRowV {
                    user_id: user_id as int,
                    file_name: meta@.file_name,
                    begin_ts: meta@.begin_ts,
                    end_ts: meta@.end_ts,
                },
            ));
        }
        // Step 2: deduplicated entity rows, rooms then groups then
        // teachers.
        push_room_rows(&mut self.rooms, &room_names, import_id);
        push_group_rows(&mut self.groups, &group_names, import_id);
        push_teacher_rows(&mut self.teachers, &teacher_names, import_id);
        proof {
            assert(self@.rooms == st0.rooms + room_rows_of(rn, import_id as int));
            assert(self@.groups == st0.groups + group_rows_of(gn, import_id as int));
            assert(self@.teachers == st0.teachers + teacher_rows_of(tn, import_id as int));
            assert forall|j: int| 0 <= j < rn.len() implies (#[trigger] self.rooms@[room_base
                + j].name)@ == rn[j] by {
                assert(self@.rooms[room_base + j] == room_rows_of(rn, import_id as int)[j]);
                assert(self@.rooms[room_base + j] == self.rooms@[room_base + j]@);
            }
            assert forall|j: int| 0 <= j < gn.len() implies (#[trigger] self.groups@[group_base
                + j].name)@ == gn[j] by {
                assert(self@.groups[group_base + j] == group_rows_of(gn, import_id as int)[j]);
                assert(self@.groups[group_base + j] == self.groups@[group_base + j]@);
            }
            assert forall|j: int| 0 <= j < tn.len() implies (#[trigger] self.teachers@[
            teacher_base + j].full_name)@ == tn[j] by {
                assert(self@.teachers[teacher_base + j] == teacher_rows_of(
                    tn,
                    import_id as int,
                )[j]);
                assert(self@.teachers[teacher_base + j] == self.teachers@[teacher_base + j]@);
            }
        }
        // Steps 3 and 4: availabilities, then lessons, resolved by name
        // within the new import.
        let mut new_avails = build_avail_rows(
            &self.teachers,
            &normalized,
            teacher_base,
            Ghost(rn),
            Ghost(gn),
            Ghost(tn),
        );
        let mut new_lessons = build_lesson_rows(
            &self.rooms,
            &self.groups,
            &self.teachers,
            &normalized,
            room_base,
            group_base,
            teacher_base,
            Ghost(rn),
            Ghost(gn),
            Ghost(tn),
        );
        self.availabilities.append(&mut new_avails);
        self.lessons.append(&mut new_lessons);
        proof {
            assert(self@.availabilities =~= st0.availabilities + avail_rows_of(
                nsv,
                teacher_base as int,
                tn,
            ));
            assert(self@.lessons =~= st0.lessons + lesson_rows_of(
                nsv,
                room_base as int,
                rn,
                group_base as int,
                gn,
                teacher_base as int,
                tn,
            ));
        }
        // The single commit-or-rollback decision point.
        match meta.mode {
            ImportMode::Write => {
                proof {
                    assert(self@ =~= spec_import_result(st0, meta@, user_id as int, b));
                    lemma_import_result_wf(st0, meta@, user_id as int, b);
                }
                Ok(())
            },
            ImportMode::DryRun => {
                let ghost committed = self@;
                let ghost pre_imports = self.imports@;
                let ghost pre_rooms = self.rooms@;
                let ghost pre_groups = self.groups@;
                let ghost pre_teachers = self.teachers@;
                let ghost pre_avails = self.availabilities@;
                let ghost pre_lessons = self.lessons@;
                truncate_rows(&mut self.imports, import_id);
                truncate_rows(&mut self.rooms, room_base);
                truncate_rows(&mut self.groups, group_base);
                truncate_rows(&mut self.teachers, teacher_base);
                truncate_rows(&mut self.availabilities, avail_base);
                truncate_rows(&mut self.lessons, lesson_base);
                proof {
                    assert forall|i: int| 0 <= i < import_id implies #[trigger] self@.imports[i]
                        == st0.imports[i] by {
                        assert(self.imports@[i] == pre_imports[i]);
                        assert(pre_imports[i]@ == committed.imports[i]);
                    }
                    assert(self@.imports =~= st0.imports);
                    assert forall|i: int| 0 <= i < room_base implies #[trigger] self@.rooms[i]
                        == st0.rooms[i] by {
                        assert(self.rooms@[i] == pre_rooms[i]);
                        assert(pre_rooms[i]@ == committed.rooms[i]);
                    }
                    assert(self@.rooms =~= st0.rooms);
                    assert forall|i: int| 0 <= i < group_base implies #[trigger] self@.groups[i]
                        == st0.groups[i] by {
                        assert(self.groups@[i] == pre_groups[i]);
                        assert(pre_groups[i]@ == committed.groups[i]);
                    }
                    assert(self@.groups =~= st0.groups);
                    assert forall|i: int| 0 <= i < teacher_base implies
                        #[trigger] self@.teachers[i] == st0.teachers[i] by {
                        assert(self.teachers@[i] == pre_teachers[i]);
                        assert(pre_teachers[i]@ == committed.teachers[i]);
                    }
                    assert(self@.teachers =~= st0.teachers);
                    assert forall|i: int| 0 <= i < avail_base implies
                        #[trigger] self@.availabilities[i] == st0.availabilities[i] by {
                        assert(self.availabilities@[i] == pre_avails[i]);
                        assert(pre_avails[i]@ == committed.availabilities[i]);
                    }
                    assert(self@.availabilities =~= st0.availabilities);
                    assert forall|i: int| 0 <= i < lesson_base implies #[trigger] self@.lessons[i]
                        == st0.lessons[i] by {
                        assert(self.lessons@[i] == pre_lessons[i]);
                        assert(pre_lessons[i]@ == committed.lessons[i]);
                    }
                    assert(self@.lessons =~= st0.lessons);
                    assert(self@ =~= st0);
                }
                Ok(())
            },
        }
    }
}

} // verus!
