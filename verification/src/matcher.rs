//! The substitute matcher: a read-only query that answers "which teachers
//! can cover this absence".
//!
//! The absence resolves to its lesson and, through the lesson's teacher,
//! to the owning import. That import must belong to the calling user and
//! its validity window must contain the absence date; otherwise the
//! result is empty, exactly as for a missing absence, so that existence
//! is not leaked. Within that import, every teacher with an availability
//! whose day and time equal the absent lesson's slot is a candidate, each
//! (teacher, kind) pair reported at most once, in no promised order.

use vstd::prelude::*;
use crate::store::{Store, StoreV};
use crate::types::AvailabilityType;

verus! {

/// One substitute candidate: a teacher free at the absent lesson's slot,
/// with the kind of the availability that makes the teacher free.
#[derive(Debug)]
pub struct AvailableTeacher {
    pub id: usize,
    pub full_name: String,
    pub availability_type: AvailabilityType,
}

/// Mathematical model of a candidate.
#[verifier::ext_equal]
pub ghost struct AvailableTeacherV {
    pub id: int,
    pub full_name: Seq<char>,
    pub availability_type: AvailabilityType,
}

impl View for AvailableTeacher {
    type V = AvailableTeacherV;

    open spec fn view(&self) -> AvailableTeacherV {
        AvailableTeacherV {
            id: self.id as int,
            full_name: self.full_name@,
            availability_type: self.availability_type,
        }
    }
}

/// The store holds an absence with this id.
pub open spec fn has_absence(st: StoreV, absence_id: int) -> bool {
    exists|k: int| 0 <= k < st.absences.len() && (#[trigger] st.absences[k]).id == absence_id
}

/// The index of the absence with this id (unique in a well-formed store).
pub open spec fn absence_index(st: StoreV, absence_id: int) -> int {
    choose|k: int| 0 <= k < st.absences.len() && (#[trigger] st.absences[k]).id == absence_id
}

/// The matcher's scope resolves: the absence exists, its lesson has a
/// teacher, that teacher's import belongs to the caller, and the import's
/// validity window contains the absence date.
pub open spec fn matcher_scope_ok(st: StoreV, absence_id: int, user_id: int) -> bool {
    &&& has_absence(st, absence_id)
    &&& {
        let ab = st.absences[absence_index(st, absence_id)];
        let lesson = st.lessons[ab.lesson_id];
        &&& lesson.teacher_id is Some
        &&& {
            let imp = st.teachers[lesson.teacher_id->0].import_id;
            &&& st.imports[imp].user_id == user_id
            &&& st.imports[imp].begin_ts <= ab.date <= st.imports[imp].end_ts
        }
    }
}

/// Availability row `a` makes `(teacher_id, kind)` a candidate for the
/// absent lesson: same import scope, same day, same time.
pub open spec fn slot_match(
    st: StoreV,
    import_id: int,
    lesson: crate::store::LessonRowV,
    a: int,
    teacher_id: int,
    kind: AvailabilityType,
) -> bool {
    &&& 0 <= a < st.availabilities.len()
    &&& st.availabilities[a].teacher_id == teacher_id
    &&& st.availabilities[a].kind == kind
    &&& st.teachers[teacher_id].import_id == import_id
    &&& st.availabilities[a].day == lesson.day
    &&& lesson.time == Some(st.availabilities[a].time)
}

/// `(teacher_id, kind)` has a witnessing availability with index below
/// `bound`.
pub open spec fn candidate_below(
    st: StoreV,
    absence_id: int,
    user_id: int,
    teacher_id: int,
    kind: AvailabilityType,
    bound: int,
) -> bool {
    &&& matcher_scope_ok(st, absence_id, user_id)
    &&& {
        let ab = st.absences[absence_index(st, absence_id)];
        let lesson = st.lessons[ab.lesson_id];
        let imp = st.teachers[lesson.teacher_id->0].import_id;
        exists|a: int| a < bound && #[trigger] slot_match(st, imp, lesson, a, teacher_id, kind)
    }
}

/// `(teacher_id, kind)` is a substitute candidate for the absence: the
/// scope resolves to the caller's active import, and some availability of
/// that teacher, in that import, equals the absent lesson's day and time.
pub open spec fn spec_is_candidate(
    st: StoreV,
    absence_id: int,
    user_id: int,
    teacher_id: int,
    kind: AvailabilityType,
) -> bool {
    candidate_below(st, absence_id, user_id, teacher_id, kind, st.availabilities.len() as int)
}

/// A candidate teacher always belongs to the caller's own import: the
/// matcher can never name a teacher from another owner's scope.
pub proof fn lemma_candidate_owned(
    st: StoreV,
    absence_id: int,
    user_id: int,
    teacher_id: int,
    kind: AvailabilityType,
)
    requires
        st.wf(),
        spec_is_candidate(st, absence_id, user_id, teacher_id, kind),
    ensures
        0 <= teacher_id < st.teachers.len(),
        st.imports[st.teachers[teacher_id].import_id].user_id == user_id,
{
    let ab = st.absences[absence_index(st, absence_id)];
    let lesson = st.lessons[ab.lesson_id];
    let imp = st.teachers[lesson.teacher_id->0].import_id;
    let a = choose|a: int| a < st.availabilities.len() && #[trigger] slot_match(
        st,
        imp,
        lesson,
        a,
        teacher_id,
        kind,
    );
    assert(st.absence_ok(st.absences[absence_index(st, absence_id)]));
    assert(0 <= st.availabilities[a].teacher_id < st.teachers.len());
}

/// Finds the index of the absence with the given id, scanning in order.
pub(crate) fn find_absence_index(absences: &Vec<crate::store::AbsenceRow>, id: u64) -> (r: Option<usize>)
    ensures
        match r {
            Some(k) => k < absences@.len() && absences@[k as int].id == id,
            None => forall|j: int| 0 <= j < absences@.len() ==> (#[trigger] absences@[j]).id != id,
        },
{
    let n = absences.len();
    let mut k: usize = 0;
    while k < n
        invariant
            k <= n,
            n == absences@.len(),
            forall|j: int| 0 <= j < k ==> (#[trigger] absences@[j]).id != id,
        decreases n - k,
    {
        if absences[k].id == id {
            return Some(k);
        }
        k += 1;
    }
    None
}

impl Store {
    /// Returns every substitute candidate for the absence: exactly the
    /// teachers of the caller's active import holding an availability
    /// whose day and time equal the absent lesson's slot, each
    /// (teacher, kind) pair at most once, with the teacher's name. An
    /// unknown absence, an absence of another owner, or a window that
    /// does not contain the absence date all yield the empty list.
    #[verifier::loop_isolation(false)]
    pub fn find_candidates(&self, absence_id: u64, user_id: i64) -> (out: Vec<AvailableTeacher>)
        requires
            self@.wf(),
        ensures
            forall|i: int| 0 <= i < out@.len() ==> spec_is_candidate(
                self@,
                absence_id as int,
                user_id as int,
                (#[trigger] out@[i])@.id,
                out@[i]@.availability_type,
            ) && out@[i]@.full_name == self@.teachers[out@[i]@.id].full_name,
            forall|t: int, k: AvailabilityType| #[trigger] spec_is_candidate(
                self@,
                absence_id as int,
                user_id as int,
                t,
                k,
            ) ==> exists|i: int| 0 <= i < out@.len() && (#[trigger] out@[i])@.id == t
                && out@[i]@.availability_type == k,
            forall|i: int, j: int| 0 <= i < j < out@.len() ==> !((#[trigger] out@[i])@.id == (
            #[trigger] out@[j])@.id && out@[i]@.availability_type == out@[j]@.availability_type),
    {
        let ghost st = self@;
        let out: Vec<AvailableTeacher> = Vec::new();
        // Resolve the absence.
        let k = match find_absence_index(&self.absences, absence_id) {
            Option::Some(k) => k,
            Option::None => {
                proof {
                    assert forall|j: int| 0 <= j < st.absences.len() implies (
                    #[trigger] st.absences[j]).id != absence_id as int by {
                        assert(st.absences[j] == self.absences@[j]@);
                    }
                    assert(!has_absence(st, absence_id as int));
                }
                return out;
            },
        };
        proof {
            assert(st.absences[k as int] == self.absences@[k as int]@);
            assert(st.absences[k as int].id == absence_id as int);
            assert(has_absence(st, absence_id as int));
            // Absence ids are unique, so the found index is the index.
            let ki = absence_index(st, absence_id as int);
            if ki < k as int {
                assert(st.absences[ki].id == st.absences[k as int].id);
            }
            if (k as int) < ki {
                assert(st.absences[k as int].id == st.absences[ki].id);
            }
            assert(absence_index(st, absence_id as int) == k as int);
            assert(st.absence_ok(st.absences[k as int]));
        }
        let ab_lesson_id = self.absences[k].lesson_id;
        let ab_date = self.absences[k].date;
        let lesson = &self.lessons[ab_lesson_id];
        let ghost lessonv = st.lessons[ab_lesson_id as int];
        let absent_tid = match lesson.teacher_id {
            Option::Some(t) => t,
            Option::None => {
                proof {
                    assert(!matcher_scope_ok(st, absence_id as int, user_id as int));
                }
                return out;
            },
        };
        proof {
            assert(st.lesson_ok(lessonv));
        }
        let import_id = self.teachers[absent_tid].import_id;
        proof {
            assert(st.teachers[absent_tid as int] == self.teachers@[absent_tid as int]@);
            assert(0 <= st.teachers[absent_tid as int].import_id < st.imports.len());
        }
        let imp = &self.imports[import_id];
        if !(imp.user_id == user_id && imp.begin_ts <= ab_date && ab_date <= imp.end_ts) {
            proof {
                assert(!matcher_scope_ok(st, absence_id as int, user_id as int));
            }
            return out;
        }
        proof {
            assert(matcher_scope_ok(st, absence_id as int, user_id as int));
        }
        // Scan the availabilities for matching slots.
        let mut out = out;
        let n_av = self.availabilities.len();
        let mut a: usize = 0;
        proof {
            assert forall|t: int, kd: AvailabilityType| !candidate_below(
                st,
                absence_id as int,
                user_id as int,
                t,
                kd,
                0,
            ) by {}
        }
        while a < n_av
            invariant
                a <= n_av,
                n_av == self.availabilities@.len(),
                st == self@,
                st.wf(),
                matcher_scope_ok(st, absence_id as int, user_id as int),
                absence_index(st, absence_id as int) == k as int,
                k < st.absences.len(),
                ab_lesson_id as int == st.absences[k as int].lesson_id,
                lessonv == st.lessons[ab_lesson_id as int],
                lessonv.teacher_id == Some(absent_tid as int),
                absent_tid < st.teachers.len(),
                import_id as int == st.teachers[absent_tid as int].import_id,
                forall|i: int| 0 <= i < out@.len() ==> spec_is_candidate(
                    st,
                    absence_id as int,
                    user_id as int,
                    (#[trigger] out@[i])@.id,
                    out@[i]@.availability_type,
                ) && out@[i]@.full_name == st.teachers[out@[i]@.id].full_name,
                forall|t: int, kd: AvailabilityType| #[trigger] candidate_below(
                    st,
                    absence_id as int,
                    user_id as int,
                    t,
                    kd,
                    a as int,
                ) ==> exists|i: int| 0 <= i < out@.len() && (#[trigger] out@[i])@.id == t
                    && out@[i]@.availability_type == kd,
                forall|i: int, j: int| 0 <= i < j < out@.len() ==> !((#[trigger] out@[i])@.id == (
                #[trigger] out@[j])@.id && out@[i]@.availability_type
                    == out@[j]@.availability_type),
            decreases n_av - a,
        {
            let ghost out0 = out@;
            let av = &self.availabilities[a];
            let ghost avv = st.availabilities[a as int];
            proof {
                assert(avv == self.availabilities@[a as int]@);
                assert(lessonv == self.lessons@[ab_lesson_id as int]@);
            }
            let time_matches = match lesson.time {
                Option::Some(t) => t == av.time,
                Option::None => false,
            };
            let in_scope = {
                let tid = av.teacher_id;
                proof {
                    assert(0 <= avv.teacher_id < st.teachers.len());
                }
                let r = self.teachers[tid].import_id == import_id;
                proof {
                    assert(st.teachers[avv.teacher_id] == self.teachers@[tid as int]@);
                    assert(r == (st.teachers[avv.teacher_id].import_id == import_id as int));
                }
                r
            };
            if in_scope && av.day == lesson.day && time_matches {
                proof {
                    assert(avv.day == lessonv.day);
                    assert(lessonv.time == Some(avv.time));
                    assert(slot_match(
                        st,
                        import_id as int,
                        lessonv,
                        a as int,
                        avv.teacher_id,
                        avv.kind,
                    ));
                }
                // Report each (teacher, kind) pair at most once.
                let mut seen = false;
                let m = out.len();
                let mut j: usize = 0;
                while j < m
                    invariant
                        j <= m,
                        m == out@.len(),
                        av.teacher_id == avv.teacher_id && av.kind == avv.kind,
                        seen ==> exists|i: int| 0 <= i < out@.len() && (#[trigger] out@[i])@.id
                            == avv.teacher_id && out@[i]@.availability_type == avv.kind,
                        !seen ==> forall|i: int| 0 <= i < j ==> !((#[trigger] out@[i])@.id
                            == avv.teacher_id && out@[i]@.availability_type == avv.kind),
                    decreases m - j,
                {
                    if out[j].id == av.teacher_id && out[j].availability_type == av.kind {
                        proof {
                            assert((out@[j as int])@.id == avv.teacher_id);
                        }
                        seen = true;
                        break;
                    }
                    j += 1;
                }
                if !seen {
                    let name = self.teachers[av.teacher_id].full_name.clone();
                    out.push(
                        AvailableTeacher {
                            id: av.teacher_id,
                            full_name: name,
                            availability_type: av.kind,
                        },
                    );
                    proof {
                        assert(spec_is_candidate(
                            st,
                            absence_id as int,
                            user_id as int,
                            avv.teacher_id,
                            avv.kind,
                        ));
                        assert(out@[out@.len() - 1]@.id == avv.teacher_id);
                        assert(out@[out@.len() - 1]@.full_name == st.teachers[
                        avv.teacher_id].full_name);
                    }
                }
                proof {
                    assert(exists|i: int| 0 <= i < out@.len() && (#[trigger] out@[i])@.id
                        == avv.teacher_id && out@[i]@.availability_type == avv.kind);
                    assert forall|t: int, kd: AvailabilityType| #[trigger] candidate_below(
                        st,
                        absence_id as int,
                        user_id as int,
                        t,
                        kd,
                        a + 1,
                    ) implies exists|i: int| 0 <= i < out@.len() && (#[trigger] out@[i])@.id == t
                        && out@[i]@.availability_type == kd by {
                        let w = choose|w: int| w < a + 1 && #[trigger] slot_match(
                            st,
                            import_id as int,
                            lessonv,
                            w,
                            t,
                            kd,
                        );
                        if w < a as int {
                            assert(candidate_below(
                                st,
                                absence_id as int,
                                user_id as int,
                                t,
                                kd,
                                a as int,
                            ));
                            let i0 = choose|i: int|
                                0 <= i < out0.len() && (#[trigger] out0[i])@.id == t && out0[
                                i]@.availability_type == kd;
                            assert(out@[i0] == out0[i0]);
                        } else {
                            assert(t == avv.teacher_id && kd == avv.kind);
                        }
                    }
                }
            } else {
                proof {
                    assert forall|t: int, kd: AvailabilityType| #[trigger] candidate_below(
                        st,
                        absence_id as int,
                        user_id as int,
                        t,
                        kd,
                        a + 1,
                    ) implies exists|i: int| 0 <= i < out@.len() && (#[trigger] out@[i])@.id == t
                        && out@[i]@.availability_type == kd by {
                        let w = choose|w: int| w < a + 1 && #[trigger] slot_match(
                            st,
                            import_id as int,
                            lessonv,
                            w,
                            t,
                            kd,
                        );
                        if w < a as int {
                            assert(candidate_below(
                                st,
                                absence_id as int,
                                user_id as int,
                                t,
                                kd,
                                a as int,
                            ));
                            let i0 = choose|i: int|
                                0 <= i < out0.len() && (#[trigger] out0[i])@.id == t && out0[
                                i]@.availability_type == kd;
                            assert(out@[i0] == out0[i0]);
                        } else {
                            // The current availability does not match the
                            // slot, so it witnesses nothing.
                            assert(t == avv.teacher_id && kd == avv.kind);
                            assert(st.teachers[avv.teacher_id].import_id == import_id as int);
                            assert(avv.day == lessonv.day);
                            assert(lessonv.time == Some(avv.time));
                            assert(false);
                        }
                    }
                }
            }
            a += 1;
        }
        proof {
            assert forall|t: int, kd: AvailabilityType| #[trigger] spec_is_candidate(
                st,
                absence_id as int,
                user_id as int,
                t,
                kd,
            ) implies exists|i: int| 0 <= i < out@.len() && (#[trigger] out@[i])@.id == t
                && out@[i]@.availability_type == kd by {
                assert(candidate_below(st, absence_id as int, user_id as int, t, kd, n_av as int));
            }
        }
        out
    }
}

/// A teacher who can be declared absent on a given weekday: one with a
/// lesson on that day.
#[derive(Debug)]
pub struct CanBeAbsentTeacher {
    pub id: usize,
    pub full_name: String,
}

/// Mathematical model of an absentable teacher.
#[verifier::ext_equal]
pub ghost struct CanBeAbsentTeacherV {
    pub id: int,
    pub full_name: Seq<char>,
}

impl View for CanBeAbsentTeacher {
    type V = CanBeAbsentTeacherV;

    open spec fn view(&self) -> CanBeAbsentTeacherV {
        CanBeAbsentTeacherV { id: self.id as int, full_name: self.full_name@ }
    }
}

/// Teacher `t` has a lesson with index below `bound` on the given day, in
/// an import owned by the caller.
pub open spec fn absentable_below(
    st: StoreV,
    user_id: int,
    day: crate::types::IsoDow,
    t: int,
    bound: int,
) -> bool {
    exists|l: int|
        0 <= l < bound && (#[trigger] st.lessons[l]).teacher_id == Some(t) && st.lessons[l].day
            == day && 0 <= t < st.teachers.len() && st.imports[st.teachers[t].import_id].user_id
            == user_id
}

/// Teacher `t` can be declared absent on the given day for the caller:
/// some lesson of theirs, in one of the caller's imports, falls on it.
pub open spec fn spec_can_be_absent(
    st: StoreV,
    user_id: int,
    day: crate::types::IsoDow,
    t: int,
) -> bool {
    absentable_below(st, user_id, day, t, st.lessons.len() as int)
}

impl Store {
    /// Returns, each at most once and in no promised order, every teacher
    /// of the caller's imports having a lesson on the given weekday.
    #[verifier::loop_isolation(false)]
    pub fn can_be_absent(&self, user_id: i64, day: crate::types::IsoDow) -> (out: Vec<
        CanBeAbsentTeacher,
    >)
        requires
            self@.wf(),
        ensures
            forall|i: int| 0 <= i < out@.len() ==> spec_can_be_absent(
                self@,
                user_id as int,
                day,
                (#[trigger] out@[i])@.id,
            ) && out@[i]@.full_name == self@.teachers[out@[i]@.id].full_name,
            forall|t: int| #[trigger] spec_can_be_absent(self@, user_id as int, day, t)
                ==> exists|i: int| 0 <= i < out@.len() && (#[trigger] out@[i])@.id == t,
            forall|i: int, j: int| 0 <= i < j < out@.len() ==> (#[trigger] out@[i])@.id != (
            #[trigger] out@[j])@.id,
    {
        let ghost st = self@;
        let mut out: Vec<CanBeAbsentTeacher> = Vec::new();
        let n = self.lessons.len();
        let mut l: usize = 0;
        while l < n
            invariant
                l <= n,
                n == st.lessons.len(),
                forall|i: int| 0 <= i < out@.len() ==> spec_can_be_absent(
                    st,
                    user_id as int,
                    day,
                    (#[trigger] out@[i])@.id,
                ) && out@[i]@.full_name == st.teachers[out@[i]@.id].full_name,
                forall|t: int| #[trigger] absentable_below(st, user_id as int, day, t, l as int)
                    ==> exists|i: int| 0 <= i < out@.len() && (#[trigger] out@[i])@.id == t,
                forall|i: int, j: int| 0 <= i < j < out@.len() ==> (#[trigger] out@[i])@.id != (
                #[trigger] out@[j])@.id,
            decreases n - l,
        {
            let ghost out0 = out@;
            let lesson = &self.lessons[l];
            let ghost lessonv = st.lessons[l as int];
            proof {
                assert(lessonv == self.lessons@[l as int]@);
                assert(st.lesson_ok(lessonv));
            }
            let qualifying = match lesson.teacher_id {
                Option::Some(t) => {
                    if lesson.day == day {
                        proof {
                            assert(0 <= st.teachers[t as int].import_id < st.imports.len());
                            assert(st.teachers[t as int] == self.teachers@[t as int]@);
                        }
                        let import_id = self.teachers[t].import_id;
                        if self.imports[import_id].user_id == user_id {
                            Option::Some(t)
                        } else {
                            Option::None
                        }
                    } else {
                        Option::None
                    }
                },
                Option::None => Option::None,
            };
            match qualifying {
                Option::Some(t) => {
                    proof {
                        assert(lessonv.teacher_id == Some(t as int) && lessonv.day == day
                            && st.imports[st.teachers[t as int].import_id].user_id
                            == user_id as int);
                        assert(spec_can_be_absent(st, user_id as int, day, t as int));
                    }
                    let mut seen = false;
                    let m = out.len();
                    let mut j: usize = 0;
                    while j < m
                        invariant
                            j <= m,
                            m == out@.len(),
                            seen ==> exists|i: int| 0 <= i < out@.len() && (
                            #[trigger] out@[i])@.id == t as int,
                            !seen ==> forall|i: int| 0 <= i < j ==> (#[trigger] out@[i])@.id
                                != t as int,
                        decreases m - j,
                    {
                        if out[j].id == t {
                            proof {
                                assert((out@[j as int])@.id == t as int);
                            }
                            seen = true;
                            break;
                        }
                        j += 1;
                    }
                    if !seen {
                        let name = self.teachers[t].full_name.clone();
                        out.push(CanBeAbsentTeacher { id: t, full_name: name });
                        proof {
                            assert(out@[out@.len() - 1]@.id == t as int);
                            assert(out@[out@.len() - 1]@.full_name == st.teachers[
                            t as int].full_name);
                        }
                    }
                    proof {
                        assert(exists|i: int| 0 <= i < out@.len() && (#[trigger] out@[i])@.id
                            == t as int);
                        assert forall|t2: int| #[trigger] absentable_below(
                            st,
                            user_id as int,
                            day,
                            t2,
                            l + 1,
                        ) implies exists|i: int| 0 <= i < out@.len() && (#[trigger] out@[i])@.id
                            == t2 by {
                            let w = choose|w: int|
                                0 <= w < l + 1 && (#[trigger] st.lessons[w]).teacher_id == Some(t2)
                                    && st.lessons[w].day == day && 0 <= t2 < st.teachers.len()
                                    && st.imports[st.teachers[t2].import_id].user_id
                                    == user_id as int;
                            if w < l as int {
                                assert(absentable_below(st, user_id as int, day, t2, l as int));
                                let i0 = choose|i: int|
                                    0 <= i < out0.len() && (#[trigger] out0[i])@.id == t2;
                                assert(out@[i0] == out0[i0]);
                            } else {
                                assert(t2 == t as int);
                            }
                        }
                    }
                },
                Option::None => {
                    proof {
                        assert forall|t2: int| #[trigger] absentable_below(
                            st,
                            user_id as int,
                            day,
                            t2,
                            l + 1,
                        ) implies exists|i: int| 0 <= i < out@.len() && (#[trigger] out@[i])@.id
                            == t2 by {
                            let w = choose|w: int|
                                0 <= w < l + 1 && (#[trigger] st.lessons[w]).teacher_id == Some(t2)
                                    && st.lessons[w].day == day && 0 <= t2 < st.teachers.len()
                                    && st.imports[st.teachers[t2].import_id].user_id
                                    == user_id as int;
                            if w < l as int {
                                assert(absentable_below(st, user_id as int, day, t2, l as int));
                                let i0 = choose|i: int|
                                    0 <= i < out0.len() && (#[trigger] out0[i])@.id == t2;
                                assert(out@[i0] == out0[i0]);
                            } else {
                                // This lesson does not qualify, so it
                                // witnesses no teacher.
                                assert(lessonv.teacher_id == Some(t2) && lessonv.day == day
                                    && st.imports[st.teachers[t2].import_id].user_id
                                    == user_id as int);
                                assert(false);
                            }
                        }
                    }
                },
            }
            l += 1;
        }
        out
    }
}

} // verus!
