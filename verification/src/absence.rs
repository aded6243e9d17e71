//! Absence declaration and resolution.
//!
//! An absence is declared for every lesson of a teacher that falls on the
//! absence date's weekday within a requested time interval. Its status
//! then moves from `Uncovered` to `ClassDelayed`, `ClassCanceled`, or
//! `SubstituteFound`; every status write is validated against the
//! substitute-binding rule: the substitute reference is present exactly
//! when the status is `SubstituteFound`.

use vstd::prelude::*;
use crate::matcher::{absence_index, has_absence};
use crate::store::{opt_id_view, AbsenceRow, AbsenceRowV, LessonRowV, Store, StoreV};
use crate::types::{
    AbsenceStatus, ImportError, ImportErrorV, IsoDow, TimeOfDay, ValidationFault,
};

verus! {

/// The weekday of a date. Dates are whole-day numbers on a scale whose
/// day 1 is a Monday (as day 1 of year 1 of the proleptic Gregorian
/// calendar is).
pub open spec fn spec_day_of_date(date: int) -> IsoDow
    recommends
        date >= 1,
{
    let r = (date - 1) % 7;
    if r == 0 {
        IsoDow::Mon
    } else if r == 1 {
        IsoDow::Tue
    } else if r == 2 {
        IsoDow::Wed
    } else if r == 3 {
        IsoDow::Thu
    } else if r == 4 {
        IsoDow::Fri
    } else if r == 5 {
        IsoDow::Sat
    } else {
        IsoDow::Sun
    }
}

/// Computes the weekday of a day number (day 1 is a Monday).
pub fn day_of_week(date: i64) -> (d: IsoDow)
    requires
        1 <= date,
    ensures
        d == spec_day_of_date(date as int),
{
    let r = (date - 1) % 7;
    if r == 0 {
        IsoDow::Mon
    } else if r == 1 {
        IsoDow::Tue
    } else if r == 2 {
        IsoDow::Wed
    } else if r == 3 {
        IsoDow::Thu
    } else if r == 4 {
        IsoDow::Fri
    } else if r == 5 {
        IsoDow::Sat
    } else {
        IsoDow::Sun
    }
}

/// A request to modify an absence's resolution.
#[derive(Debug)]
pub struct PatchAbsenceRequest {
    pub id: u64,
    pub status: AbsenceStatus,
    pub substitute_teacher_availability_id: Option<usize>,
}

/// Mathematical model of a patch request.
#[verifier::ext_equal]
pub ghost struct PatchAbsenceRequestV {
    pub id: int,
    pub status: AbsenceStatus,
    pub substitute_teacher_availability_id: Option<int>,
}

impl View for PatchAbsenceRequest {
    type V = PatchAbsenceRequestV;

    open spec fn view(&self) -> PatchAbsenceRequestV {
        PatchAbsenceRequestV {
            id: self.id as int,
            status: self.status,
            substitute_teacher_availability_id: opt_id_view(
                self.substitute_teacher_availability_id,
            ),
        }
    }
}

/// A request to delete an absence.
#[derive(Debug)]
pub struct DeleteAbsenceRequest {
    pub id: u64,
}

/// The substitute-binding rule: a substitute reference is present exactly
/// when the target status is `SubstituteFound`.
pub open spec fn spec_binding_ok(status: AbsenceStatus, substitute: Option<int>) -> bool {
    substitute is Some <==> status == AbsenceStatus::SubstituteFound
}

/// Checks the substitute-binding rule.
pub fn check_substitute_binding(status: AbsenceStatus, substitute: &Option<usize>) -> (r: bool)
    ensures
        r == spec_binding_ok(status, opt_id_view(*substitute)),
{
    match substitute {
        Option::Some(_) => status == AbsenceStatus::SubstituteFound,
        Option::None => !(status == AbsenceStatus::SubstituteFound),
    }
}

/// The absence exists and belongs to the caller: its lesson has a teacher
/// whose import is owned by the caller.
pub open spec fn owned_absence(st: StoreV, absence_id: int, user_id: int) -> bool {
    &&& has_absence(st, absence_id)
    &&& {
        let ab = st.absences[absence_index(st, absence_id)];
        let lesson = st.lessons[ab.lesson_id];
        &&& lesson.teacher_id is Some
        &&& st.imports[st.teachers[lesson.teacher_id->0].import_id].user_id == user_id
    }
}

/// A substitute reference, when present, names an availability whose
/// teacher's import is owned by the caller.
pub open spec fn substitute_ok(st: StoreV, substitute: Option<int>, user_id: int) -> bool {
    match substitute {
        Option::None => true,
        Option::Some(s) => 0 <= s < st.availabilities.len() && st.imports[st.teachers[
            st.availabilities[s].teacher_id].import_id].user_id == user_id,
    }
}

impl Store {
    /// Applies a status change to an absence. The substitute-binding rule
    /// is checked before any store access: `SubstituteFound` without a
    /// reference, or a reference with any other status, is rejected as a
    /// validation error. An absence that does not exist or is not owned
    /// by the caller is a scope error, and a substitute reference outside
    /// the caller's scope a constraint violation; in every failure the
    /// store is unchanged.
    pub fn set_absence_status(&mut self, req: &PatchAbsenceRequest, user_id: i64) -> (res: Result<
        (),
        ImportError,
    >)
        requires
            old(self)@.wf(),
        ensures
            final(self)@.wf(),
            res is Err ==> final(self)@ == old(self)@,
            res is Ok <==> {
                &&& spec_binding_ok(req.status, req@.substitute_teacher_availability_id)
                &&& owned_absence(old(self)@, req.id as int, user_id as int)
                &&& substitute_ok(
                    old(self)@,
                    req@.substitute_teacher_availability_id,
                    user_id as int,
                )
            },
            res matches Err(e) ==> e@ == (if !spec_binding_ok(
                req.status,
                req@.substitute_teacher_availability_id,
            ) {
                ImportErrorV::Validation { index: 0, fault: ValidationFault::SubstituteBinding }
            } else if !owned_absence(old(self)@, req.id as int, user_id as int) {
                ImportErrorV::Scope
            } else {
                ImportErrorV::Constraint { index: 0 }
            }),
            res is Ok ==> final(self)@ == (StoreV {
                absences: old(self)@.absences.update(
                    absence_index(old(self)@, req.id as int),
                    AbsenceRowV {
                        status: req.status,
                        substitute_availability_id: req@.substitute_teacher_availability_id,
                        ..old(self)@.absences[absence_index(old(self)@, req.id as int)]
                    },
                ),
                ..old(self)@
            }),
    {
        let ghost st = self@;
        if !check_substitute_binding(req.status, &req.substitute_teacher_availability_id) {
            return Err(
                ImportError::Validation { index: 0, fault: ValidationFault::SubstituteBinding },
            );
        }
        let k = match crate::matcher::find_absence_index(&self.absences, req.id) {
            Option::Some(k) => k,
            Option::None => {
                proof {
                    assert forall|j: int| 0 <= j < st.absences.len() implies (
                    #[trigger] st.absences[j]).id != req.id as int by {
                        assert(st.absences[j] == self.absences@[j]@);
                    }
                    assert(!has_absence(st, req.id as int));
                }
                return Err(ImportError::Scope);
            },
        };
        proof {
            assert(st.absences[k as int] == self.absences@[k as int]@);
            assert(st.absences[k as int].id == req.id as int);
            assert(has_absence(st, req.id as int));
            let ki = absence_index(st, req.id as int);
            if ki < k as int {
                assert(st.absences[ki].id == st.absences[k as int].id);
            }
            if (k as int) < ki {
                assert(st.absences[k as int].id == st.absences[ki].id);
            }
            assert(absence_index(st, req.id as int) == k as int);
            assert(st.absence_ok(st.absences[k as int]));
        }
        let lesson_id = self.absences[k].lesson_id;
        let lesson = &self.lessons[lesson_id];
        let ghost lessonv = st.lessons[lesson_id as int];
        proof {
            assert(st.lesson_ok(lessonv));
        }
        let absent_tid = match lesson.teacher_id {
            Option::Some(t) => t,
            Option::None => {
                proof {
                    assert(!owned_absence(st, req.id as int, user_id as int));
                }
                return Err(ImportError::Scope);
            },
        };
        proof {
            assert(st.teachers[absent_tid as int] == self.teachers@[absent_tid as int]@);
            assert(0 <= st.teachers[absent_tid as int].import_id < st.imports.len());
        }
        let import_id = self.teachers[absent_tid].import_id;
        if !(self.imports[import_id].user_id == user_id) {
            proof {
                assert(!owned_absence(st, req.id as int, user_id as int));
            }
            return Err(ImportError::Scope);
        }
        proof {
            assert(owned_absence(st, req.id as int, user_id as int));
        }
        // The substitute reference, when present, must resolve within the
        // caller's scope.
        if let Option::Some(s) = req.substitute_teacher_availability_id {
            if s >= self.availabilities.len() {
                return Err(ImportError::Constraint { index: 0 });
            }
            proof {
                assert(st.availabilities[s as int] == self.availabilities@[s as int]@);
                assert(0 <= st.availabilities[s as int].teacher_id < st.teachers.len());
            }
            let sub_tid = self.availabilities[s].teacher_id;
            proof {
                assert(st.teachers[sub_tid as int] == self.teachers@[sub_tid as int]@);
                assert(0 <= st.teachers[sub_tid as int].import_id < st.imports.len());
            }
            let sub_import = self.teachers[sub_tid].import_id;
            if !(self.imports[sub_import].user_id == user_id) {
                return Err(ImportError::Constraint { index: 0 });
            }
        }
        proof {
            assert(substitute_ok(st, req@.substitute_teacher_availability_id, user_id as int));
        }
        // The single write.
        let row = AbsenceRow {
            id: self.absences[k].id,
            lesson_id: self.absences[k].lesson_id,
            date: self.absences[k].date,
            status: req.status,
            substitute_availability_id: req.substitute_teacher_availability_id,
        };
        self.absences.set(k, row);
        proof {
            assert(self@.absences =~= st.absences.update(
                k as int,
                AbsenceRowV {
                    status: req.status,
                    substitute_availability_id: req@.substitute_teacher_availability_id,
                    ..st.absences[k as int]
                },
            ));
            assert(self@ =~= (StoreV { absences: self@.absences, ..st }));
            assert forall|i: int| 0 <= i < self@.absences.len() implies self@.absence_ok(
                #[trigger] self@.absences[i],
            ) by {
                assert(st.absence_ok(st.absences[i]));
                if i != k as int {
                    assert(self@.absences[i] == st.absences[i]);
                }
            }
            assert forall|i: int, j: int| 0 <= i < j < self@.absences.len() implies (
            #[trigger] self@.absences[i]).id != (#[trigger] self@.absences[j]).id by {
                assert(st.absences[i].id != st.absences[j].id);
            }
        }
        Ok(())
    }

    /// Deletes an absence owned by the caller. An absence that does not
    /// exist or is not owned is a scope error, and the store is
    /// unchanged.
    pub fn delete_absence(&mut self, req: &DeleteAbsenceRequest, user_id: i64) -> (res: Result<
        (),
        ImportError,
    >)
        requires
            old(self)@.wf(),
        ensures
            final(self)@.wf(),
            res is Err ==> final(self)@ == old(self)@,
            res is Ok <==> owned_absence(old(self)@, req.id as int, user_id as int),
            res matches Err(e) ==> e@ == ImportErrorV::Scope,
            res is Ok ==> final(self)@ == (StoreV {
                absences: old(self)@.absences.remove(
                    absence_index(old(self)@, req.id as int),
                ),
                ..old(self)@
            }),
    {
        let ghost st = self@;
        let absence_id = req.id;
        let k = match crate::matcher::find_absence_index(&self.absences, absence_id) {
            Option::Some(k) => k,
            Option::None => {
                proof {
                    assert forall|j: int| 0 <= j < st.absences.len() implies (
                    #[trigger] st.absences[j]).id != absence_id as int by {
                        assert(st.absences[j] == self.absences@[j]@);
                    }
                    assert(!has_absence(st, absence_id as int));
                }
                return Err(ImportError::Scope);
            },
        };
        proof {
            assert(st.absences[k as int] == self.absences@[k as int]@);
            assert(st.absences[k as int].id == absence_id as int);
            assert(has_absence(st, absence_id as int));
            let ki = absence_index(st, absence_id as int);
            if ki < k as int {
                assert(st.absences[ki].id == st.absences[k as int].id);
            }
            if (k as int) < ki {
                assert(st.absences[k as int].id == st.absences[ki].id);
            }
            assert(absence_index(st, absence_id as int) == k as int);
            assert(st.absence_ok(st.absences[k as int]));
        }
        let lesson_id = self.absences[k].lesson_id;
        let lesson = &self.lessons[lesson_id];
        let ghost lessonv = st.lessons[lesson_id as int];
        proof {
            assert(st.lesson_ok(lessonv));
        }
        let absent_tid = match lesson.teacher_id {
            Option::Some(t) => t,
            Option::None => {
                proof {
                    assert(!owned_absence(st, absence_id as int, user_id as int));
                }
                return Err(ImportError::Scope);
            },
        };
        proof {
            assert(st.teachers[absent_tid as int] == self.teachers@[absent_tid as int]@);
            assert(0 <= st.teachers[absent_tid as int].import_id < st.imports.len());
        }
        let import_id = self.teachers[absent_tid].import_id;
        if !(self.imports[import_id].user_id == user_id) {
            proof {
                assert(!owned_absence(st, absence_id as int, user_id as int));
            }
            return Err(ImportError::Scope);
        }
        proof {
            assert(owned_absence(st, absence_id as int, user_id as int));
        }
        self.absences.remove(k);
        proof {
            assert(self@.absences =~= st.absences.remove(k as int));
            st.absences.remove_ensures(k as int);
            assert(self@ =~= (StoreV { absences: self@.absences, ..st }));
            assert forall|i: int| 0 <= i < self@.absences.len() implies self@.absence_ok(
                #[trigger] self@.absences[i],
            ) by {
                if i < k as int {
                    assert(self@.absences[i] == st.absences[i]);
                    assert(st.absence_ok(st.absences[i]));
                } else {
                    assert(self@.absences[i] == st.absences[i + 1]);
                    assert(st.absence_ok(st.absences[i + 1]));
                }
            }
            assert forall|i: int, j: int| 0 <= i < j < self@.absences.len() implies (
            #[trigger] self@.absences[i]).id != (#[trigger] self@.absences[j]).id by {
                let i0 = if i < k as int { i } else { i + 1 };
                let j0 = if j < k as int { j } else { j + 1 };
                assert(self@.absences[i] == st.absences[i0]);
                assert(self@.absences[j] == st.absences[j0]);
                assert(st.absences[i0].id != st.absences[j0].id);
            }
        }
        Ok(())
    }
}

/// Lesson `l` is an affected slot of a declared absence: taught by the
/// absent teacher, on the date's weekday, at a time within the requested
/// interval, in an import owned by the caller.
pub open spec fn lesson_in_absence(
    st: StoreV,
    l: LessonRowV,
    teacher_id: int,
    day: IsoDow,
    begin: TimeOfDay,
    end: TimeOfDay,
    user_id: int,
) -> bool {
    &&& l.teacher_id == Some(teacher_id)
    &&& 0 <= teacher_id < st.teachers.len()
    &&& st.imports[st.teachers[teacher_id].import_id].user_id == user_id
    &&& l.day == day
    &&& l.time is Some
    &&& begin.spec_minutes() <= (l.time->0).spec_minutes() <= end.spec_minutes()
}

/// The absence rows declared for the affected lessons with index below
/// `bound`, in lesson order, with consecutive ids starting at `next_id`.
pub open spec fn added_absences(
    st: StoreV,
    teacher_id: int,
    date: int,
    begin: TimeOfDay,
    end: TimeOfDay,
    user_id: int,
    bound: int,
    next_id: int,
) -> Seq<AbsenceRowV>
    decreases bound,
{
    if bound <= 0 {
        Seq::empty()
    } else {
        let rest = added_absences(st, teacher_id, date, begin, end, user_id, bound - 1, next_id);
        if lesson_in_absence(
            st,
            st.lessons[bound - 1],
            teacher_id,
            spec_day_of_date(date),
            begin,
            end,
            user_id,
        ) {
            rest.push(
                AbsenceRowV {
                    id: next_id + rest.len(),
                    lesson_id: bound - 1,
                    date,
                    status: AbsenceStatus::Uncovered,
                    substitute_availability_id: Option::None,
                },
            )
        } else {
            rest
        }
    }
}

/// The declared absence rows carry consecutive ids, reference lessons
/// below the bound, and start uncovered without a substitute.
pub proof fn lemma_added_absences_props(
    st: StoreV,
    teacher_id: int,
    date: int,
    begin: TimeOfDay,
    end: TimeOfDay,
    user_id: int,
    bound: int,
    next_id: int,
)
    requires
        0 <= bound,
    ensures
        added_absences(st, teacher_id, date, begin, end, user_id, bound, next_id).len() <= bound,
        forall|q: int|
            0 <= q < added_absences(st, teacher_id, date, begin, end, user_id, bound, next_id).len()
                ==> {
                let row = #[trigger] added_absences(
                    st,
                    teacher_id,
                    date,
                    begin,
                    end,
                    user_id,
                    bound,
                    next_id,
                )[q];
                &&& row.id == next_id + q
                &&& 0 <= row.lesson_id < bound
                &&& row.date == date
                &&& row.status == AbsenceStatus::Uncovered
                &&& row.substitute_availability_id is None
            },
    decreases bound,
{
    if bound > 0 {
        lemma_added_absences_props(st, teacher_id, date, begin, end, user_id, bound - 1, next_id);
    }
}

impl Store {
    /// Declares a teacher absent on a date for every lesson of that
    /// teacher on the date's weekday whose time lies within
    /// `[begin_time, end_time]`, within an import owned by the caller.
    /// One absence row per affected lesson is appended, uncovered and
    /// without a substitute. An interval that ends before it begins is
    /// rejected as a validation error before any write. Returns how many
    /// absences were declared.
    pub fn add_absence(
        &mut self,
        absent_teacher_id: usize,
        date: i64,
        begin_time: TimeOfDay,
        end_time: TimeOfDay,
        user_id: i64,
    ) -> (res: Result<usize, ImportError>)
        requires
            old(self)@.wf(),
            1 <= date,
            old(self)@.next_absence_id + old(self)@.lessons.len() <= u64::MAX,
        ensures
            final(self)@.wf(),
            res is Err ==> final(self)@ == old(self)@,
            res is Ok <==> begin_time.spec_minutes() <= end_time.spec_minutes(),
            res matches Err(e) ==> e@ == (ImportErrorV::Validation {
                index: 0,
                fault: ValidationFault::TimeOrder,
            }),
            res matches Ok(n) ==> {
                let added = added_absences(
                    old(self)@,
                    absent_teacher_id as int,
                    date as int,
                    begin_time,
                    end_time,
                    user_id as int,
                    old(self)@.lessons.len() as int,
                    old(self)@.next_absence_id,
                );
                &&& n == added.len()
                &&& final(self)@ == (StoreV {
                    absences: old(self)@.absences + added,
                    next_absence_id: old(self)@.next_absence_id + added.len(),
                    ..old(self)@
                })
            },
    {
        let ghost st = self@;
        if !begin_time.le(&end_time) {
            return Err(ImportError::Validation { index: 0, fault: ValidationFault::TimeOrder });
        }
        let day = day_of_week(date);
        let n = self.lessons.len();
        let mut i: usize = 0;
        let mut count: usize = 0;
        proof {
            assert(st.absences + added_absences(
                st,
                absent_teacher_id as int,
                date as int,
                begin_time,
                end_time,
                user_id as int,
                0,
                st.next_absence_id,
            ) =~= st.absences);
            assert(self@ =~= (StoreV { absences: self@.absences, ..st }));
        }
        while i < n
            invariant
                i <= n,
                n == st.lessons.len(),
                st.wf(),
                1 <= date,
                st.next_absence_id + st.lessons.len() <= u64::MAX,
                day == spec_day_of_date(date as int),
                count as int == added_absences(
                    st,
                    absent_teacher_id as int,
                    date as int,
                    begin_time,
                    end_time,
                    user_id as int,
                    i as int,
                    st.next_absence_id,
                ).len(),
                count <= i,
                self.next_absence_id as int == st.next_absence_id + count,
                self@ == (StoreV {
                    absences: st.absences + added_absences(
                        st,
                        absent_teacher_id as int,
                        date as int,
                        begin_time,
                        end_time,
                        user_id as int,
                        i as int,
                        st.next_absence_id,
                    ),
                    next_absence_id: st.next_absence_id + count,
                    ..st
                }),
            decreases n - i,
        {
            let ghost added_i = added_absences(
                st,
                absent_teacher_id as int,
                date as int,
                begin_time,
                end_time,
                user_id as int,
                i as int,
                st.next_absence_id,
            );
            let ghost added_i1 = added_absences(
                st,
                absent_teacher_id as int,
                date as int,
                begin_time,
                end_time,
                user_id as int,
                i + 1,
                st.next_absence_id,
            );
            let lesson = &self.lessons[i];
            let ghost lessonv = st.lessons[i as int];
            proof {
                assert(self@.lessons == st.lessons);
                assert(lessonv == self.lessons@[i as int]@);
                assert(st.lesson_ok(lessonv));
            }
            let teacher_matches = match lesson.teacher_id {
                Option::Some(t) => t == absent_teacher_id,
                Option::None => false,
            };
            let affected = if teacher_matches {
                proof {
                    assert(lessonv.teacher_id == Some(absent_teacher_id as int));
                    assert(0 <= st.teachers[absent_teacher_id as int].import_id
                        < st.imports.len());
                    assert(st.teachers[absent_teacher_id as int] == self.teachers@[
                    absent_teacher_id as int]@);
                }
                let import_id = self.teachers[absent_teacher_id].import_id;
                let owner_ok = self.imports[import_id].user_id == user_id;
                let day_ok = lesson.day == day;
                let time_ok = match lesson.time {
                    Option::Some(t) => begin_time.le(&t) && t.le(&end_time),
                    Option::None => false,
                };
                owner_ok && day_ok && time_ok
            } else {
                false
            };
            proof {
                assert(affected == lesson_in_absence(
                    st,
                    lessonv,
                    absent_teacher_id as int,
                    spec_day_of_date(date as int),
                    begin_time,
                    end_time,
                    user_id as int,
                ));
            }
            if affected {
                let ghost pre_absences = self@.absences;
                let row = AbsenceRow {
                    id: self.next_absence_id,
                    lesson_id: i,
                    date,
                    status: AbsenceStatus::Uncovered,
                    substitute_availability_id: Option::None,
                };
                self.absences.push(row);
                self.next_absence_id = self.next_absence_id + 1;
                count = count + 1;
                proof {
                    assert(added_i1 =~= added_i.push(
                        AbsenceRowV {
                            id: st.next_absence_id + added_i.len(),
                            lesson_id: i as int,
                            date: date as int,
                            status: AbsenceStatus::Uncovered,
                            substitute_availability_id: Option::None,
                        },
                    ));
                    assert(self@.absences =~= pre_absences.push(
                        AbsenceRowV {
                            id: st.next_absence_id + added_i.len(),
                            lesson_id: i as int,
                            date: date as int,
                            status: AbsenceStatus::Uncovered,
                            substitute_availability_id: Option::None,
                        },
                    ));
                    assert(self@.absences =~= st.absences + added_i1);
                    assert(self@ =~= (StoreV {
                        absences: st.absences + added_i1,
                        next_absence_id: st.next_absence_id + count,
                        ..st
                    }));
                }
            } else {
                proof {
                    assert(added_i1 =~= added_i);
                    assert(self@ =~= (StoreV {
                        absences: st.absences + added_i1,
                        next_absence_id: st.next_absence_id + count,
                        ..st
                    }));
                }
            }
            i += 1;
        }
        proof {
            let added = added_absences(
                st,
                absent_teacher_id as int,
                date as int,
                begin_time,
                end_time,
                user_id as int,
                st.lessons.len() as int,
                st.next_absence_id,
            );
            lemma_added_absences_props(
                st,
                absent_teacher_id as int,
                date as int,
                begin_time,
                end_time,
                user_id as int,
                st.lessons.len() as int,
                st.next_absence_id,
            );
            let fin = self@;
            assert forall|q: int| 0 <= q < fin.absences.len() implies fin.absence_ok(
                #[trigger] fin.absences[q],
            ) by {
                if q < st.absences.len() {
                    assert(fin.absences[q] == st.absences[q]);
                    assert(st.absence_ok(st.absences[q]));
                } else {
                    assert(fin.absences[q] == added[q - st.absences.len()]);
                }
            }
            assert forall|p: int, q: int| 0 <= p < q < fin.absences.len() implies (
            #[trigger] fin.absences[p]).id != (#[trigger] fin.absences[q]).id by {
                if p < st.absences.len() && q < st.absences.len() {
                    assert(st.absences[p].id != st.absences[q].id);
                } else if p < st.absences.len() {
                    assert(st.absence_ok(st.absences[p]));
                    assert(fin.absences[q] == added[q - st.absences.len()]);
                } else {
                    assert(fin.absences[p] == added[p - st.absences.len()]);
                    assert(fin.absences[q] == added[q - st.absences.len()]);
                }
            }
        }
        Ok(count)
    }
}

} // verus!
