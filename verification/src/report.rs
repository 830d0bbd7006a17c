//! Report endpoints: list (split by archive state), get, submit, delete,
//! and archive.
//!
//! A report references a machine by its composite key and a user by
//! username.  Submission validates the machine reference
//! (`InvalidReference` if absent) and the reporter row
//! (`ConstraintViolation` if absent, the relational constraint no
//! validator guards elsewhere), stamps the row with the server clock,
//! and stores it unarchived under a generated id.  Archiving sets the
//! one mutable flag; there is no way back.

use vstd::prelude::*;

use crate::clock::current_unix_time;
use crate::models::Report;
use crate::models::ReportType;
use crate::response::ApiError;
use crate::store::Store;
use crate::store::StoreView;
use crate::store::has_machine;
use crate::store::has_report;
use crate::store::has_user;
use crate::store::lemma_filter_all;
use crate::store::lemma_filter_distinct_keys;
use crate::store::lemma_push_distinct_keys;
use crate::store::report_key;

verus! {

/// The client-supplied part of a new report; id, time and archive state
/// are assigned by the server.
pub struct ReportSubmission {
    pub machine_id: String,
    pub room_id: i32,
    pub reporter_username: String,
    pub report_type: ReportType,
    pub description: Option<String>,
}

/// The body of an archive request.
pub struct ArchiveSubmission {
    pub report_id: i32,
}

/// Selects the report rows in the given archive state.
pub open spec fn archived_sel(archived: bool) -> spec_fn(Report) -> bool {
    |r: Report| r.archived == archived
}

/// Selects the report rows of a room in the given archive state.
pub open spec fn room_reports_sel(room_id: i32, archived: bool) -> spec_fn(Report) -> bool {
    |r: Report| r.room_id == room_id && r.archived == archived
}

/// Selects the report rows of a machine in the given archive state.
pub open spec fn machine_reports_sel(room_id: i32, machine_id: Seq<char>, archived: bool) -> spec_fn(
    Report,
) -> bool {
    |r: Report| r.room_id == room_id && r.machine_id@ == machine_id && r.archived == archived
}

/// Selects the report rows filed by a user in the given archive state.
pub open spec fn user_reports_sel(username: Seq<char>, archived: bool) -> spec_fn(Report) -> bool {
    |r: Report| r.reporter_username@ == username && r.archived == archived
}

/// Selects the report rows that survive deletion of `report_id`.
pub open spec fn report_keep_sel(report_id: i32) -> spec_fn(Report) -> bool {
    |r: Report| r.report_id != report_id
}

/// The row that submission inserts: the submitted fields under the
/// generated id, stamped `now`, unarchived.
pub open spec fn new_report(report_id: i32, submission: ReportSubmission, now: i64) -> Report {
    Report {
        report_id: report_id,
        room_id: submission.room_id,
        machine_id: submission.machine_id,
        reporter_username: submission.reporter_username,
        report_type: submission.report_type,
        time: now,
        description: submission.description,
        archived: false,
    }
}

/// The row as the archive action leaves it: the flag is set on the
/// matching row, and every other row is untouched.
pub open spec fn archive_one(r: Report, report_id: i32) -> Report {
    if r.report_id == report_id {
        Report { archived: true, ..r }
    } else {
        r
    }
}

/// The report table after archiving `report_id`.
pub open spec fn archive_reports(reports: Seq<Report>, report_id: i32) -> Seq<Report> {
    reports.map_values(|r: Report| archive_one(r, report_id))
}

/// Archiving moves a report from the unarchived listings to the
/// archived ones.  After the archive action on an existing report id,
/// the table still holds the id; every row under the id has its flag
/// set, appears in the archived selection — global and room-scoped —
/// and in no unarchived one.  The contracts of the listing endpoints
/// return exactly those selections.
pub proof fn lemma_archive_report_visibility(s: StoreView, report_id: i32)
    requires
        has_report(s, report_id),
    ensures
        ({
            let t = archive_reports(s.reports, report_id);
            &&& has_report(StoreView { reports: t, ..s }, report_id)
            &&& forall|i: int|
                0 <= i < t.len() && (#[trigger] t[i]).report_id == report_id ==> {
                    &&& t[i].archived
                    &&& t.filter(archived_sel(true)).contains(t[i])
                    &&& !t.filter(archived_sel(false)).contains(t[i])
                    &&& t.filter(room_reports_sel(t[i].room_id, true)).contains(t[i])
                    &&& !t.filter(room_reports_sel(t[i].room_id, false)).contains(t[i])
                }
        }),
{
    let t = archive_reports(s.reports, report_id);
    let w = choose|i: int|
        0 <= i < s.reports.len() && (#[trigger] s.reports[i]).report_id == report_id;
    assert(t[w] == archive_one(s.reports[w], report_id));
    assert((StoreView { reports: t, ..s }).reports[w].report_id == report_id);
    assert forall|i: int| 0 <= i < t.len() && (#[trigger] t[i]).report_id == report_id implies {
        &&& t[i].archived
        &&& t.filter(archived_sel(true)).contains(t[i])
        &&& !t.filter(archived_sel(false)).contains(t[i])
        &&& t.filter(room_reports_sel(t[i].room_id, true)).contains(t[i])
        &&& !t.filter(room_reports_sel(t[i].room_id, false)).contains(t[i])
    } by {
        assert(t[i] == archive_one(s.reports[i], report_id));
        assert(t[i].archived);
        t.lemma_filter_contains(archived_sel(true), i);
        t.lemma_filter_contains(room_reports_sel(t[i].room_id, true), i);
        let fa = t.filter(archived_sel(false));
        if fa.contains(t[i]) {
            let k = choose|k: int| 0 <= k < fa.len() && fa[k] == t[i];
            t.lemma_filter_pred(archived_sel(false), k);
            assert(false);
        }
        let fr = t.filter(room_reports_sel(t[i].room_id, false));
        if fr.contains(t[i]) {
            let k = choose|k: int| 0 <= k < fr.len() && fr[k] == t[i];
            t.lemma_filter_pred(room_reports_sel(t[i].room_id, false), k);
            assert(false);
        }
    };
}

/// Archiving is idempotent at the data level: archiving an id a second
/// time re-sets a flag that is already set and changes no row.
pub proof fn lemma_archive_report_idempotent(reports: Seq<Report>, report_id: i32)
    ensures
        archive_reports(archive_reports(reports, report_id), report_id) == archive_reports(
            reports,
            report_id,
        ),
{
    let once = archive_reports(reports, report_id);
    let twice = archive_reports(once, report_id);
    assert forall|i: int| 0 <= i < twice.len() implies twice[i] == once[i] by {
        assert(once[i] == archive_one(reports[i], report_id));
        assert(twice[i] == archive_one(once[i], report_id));
    };
    assert(twice =~= once);
}

impl Store {
    /// Existence probe for a report id.
    pub fn is_report_present(&self, report_id: i32) -> (present: bool)
        ensures
            present == has_report(self@, report_id),
    {
        let mut idx: usize = 0;
        while idx < self.reports.len()
            invariant
                idx <= self.reports.len(),
                forall|k: int|
                    0 <= k < idx ==> (#[trigger] self@.reports[k]).report_id != report_id,
            decreases self.reports.len() - idx,
        {
            if self.reports[idx].report_id == report_id {
                return true;
            }
            idx = idx + 1;
        }
        false
    }

    /// Lists every unarchived report, in insertion order.  Always
    /// succeeds.
    pub fn get_all_reports(&self) -> (reports: Vec<Report>)
        ensures
            reports@ == self@.reports.filter(archived_sel(false)),
    {
        self.collect_reports_by_state(false)
    }

    /// Lists every archived report, in insertion order.  Always
    /// succeeds.
    pub fn get_all_archived_reports(&self) -> (reports: Vec<Report>)
        ensures
            reports@ == self@.reports.filter(archived_sel(true)),
    {
        self.collect_reports_by_state(true)
    }

    /// The shared walk behind the two unscoped listings.
    fn collect_reports_by_state(&self, archived: bool) -> (reports: Vec<Report>)
        ensures
            reports@ == self@.reports.filter(archived_sel(archived)),
    {
        let ghost sel = archived_sel(archived);
        let mut out: Vec<Report> = Vec::new();
        let mut idx: usize = 0;
        while idx < self.reports.len()
            invariant
                idx <= self.reports.len(),
                sel == archived_sel(archived),
                out@ == self@.reports.take(idx as int).filter(sel),
            decreases self.reports.len() - idx,
        {
            proof {
                let t = self@.reports.take(idx as int);
                t.lemma_filter_push(self@.reports[idx as int], sel);
                assert(self@.reports.take(idx + 1) =~= t.push(self@.reports[idx as int]));
            }
            if self.reports[idx].archived == archived {
                out.push(self.reports[idx].clone());
            }
            idx = idx + 1;
        }
        proof {
            assert(self@.reports.take(self.reports@.len() as int) =~= self@.reports);
        }
        out
    }

    /// The walk behind the room-scoped report listings.
    pub(crate) fn collect_room_reports(&self, room_id: i32, archived: bool) -> (reports: Vec<
        Report,
    >)
        ensures
            reports@ == self@.reports.filter(room_reports_sel(room_id, archived)),
    {
        let ghost sel = room_reports_sel(room_id, archived);
        let mut out: Vec<Report> = Vec::new();
        let mut idx: usize = 0;
        while idx < self.reports.len()
            invariant
                idx <= self.reports.len(),
                sel == room_reports_sel(room_id, archived),
                out@ == self@.reports.take(idx as int).filter(sel),
            decreases self.reports.len() - idx,
        {
            proof {
                let t = self@.reports.take(idx as int);
                t.lemma_filter_push(self@.reports[idx as int], sel);
                assert(self@.reports.take(idx + 1) =~= t.push(self@.reports[idx as int]));
            }
            if self.reports[idx].room_id == room_id && self.reports[idx].archived == archived {
                out.push(self.reports[idx].clone());
            }
            idx = idx + 1;
        }
        proof {
            assert(self@.reports.take(self.reports@.len() as int) =~= self@.reports);
        }
        out
    }

    /// The walk behind the machine-scoped report listings.
    pub(crate) fn collect_machine_reports(
        &self,
        room_id: i32,
        machine_id: &String,
        archived: bool,
    ) -> (reports: Vec<Report>)
        ensures
            reports@ == self@.reports.filter(machine_reports_sel(room_id, machine_id@, archived)),
    {
        let ghost sel = machine_reports_sel(room_id, machine_id@, archived);
        let mut out: Vec<Report> = Vec::new();
        let mut idx: usize = 0;
        while idx < self.reports.len()
            invariant
                idx <= self.reports.len(),
                sel == machine_reports_sel(room_id, machine_id@, archived),
                out@ == self@.reports.take(idx as int).filter(sel),
            decreases self.reports.len() - idx,
        {
            proof {
                let t = self@.reports.take(idx as int);
                t.lemma_filter_push(self@.reports[idx as int], sel);
                assert(self@.reports.take(idx + 1) =~= t.push(self@.reports[idx as int]));
            }
            if self.reports[idx].room_id == room_id && self.reports[idx].machine_id == *machine_id
                && self.reports[idx].archived == archived {
                proof {
                    assert(self@.reports[idx as int].machine_id@ == machine_id@);
                }
                out.push(self.reports[idx].clone());
            }
            idx = idx + 1;
        }
        proof {
            assert(self@.reports.take(self.reports@.len() as int) =~= self@.reports);
        }
        out
    }

    /// The walk behind the user-scoped report listings.
    pub(crate) fn collect_user_reports(&self, username: &String, archived: bool) -> (reports: Vec<
        Report,
    >)
        ensures
            reports@ == self@.reports.filter(user_reports_sel(username@, archived)),
    {
        let ghost sel = user_reports_sel(username@, archived);
        let mut out: Vec<Report> = Vec::new();
        let mut idx: usize = 0;
        while idx < self.reports.len()
            invariant
                idx <= self.reports.len(),
                sel == user_reports_sel(username@, archived),
                out@ == self@.reports.take(idx as int).filter(sel),
            decreases self.reports.len() - idx,
        {
            proof {
                let t = self@.reports.take(idx as int);
                t.lemma_filter_push(self@.reports[idx as int], sel);
                assert(self@.reports.take(idx + 1) =~= t.push(self@.reports[idx as int]));
            }
            if self.reports[idx].reporter_username == *username && self.reports[idx].archived
                == archived {
                proof {
                    assert(self@.reports[idx as int].reporter_username@ == username@);
                }
                out.push(self.reports[idx].clone());
            }
            idx = idx + 1;
        }
        proof {
            assert(self@.reports.take(self.reports@.len() as int) =~= self@.reports);
        }
        out
    }

    /// Returns the report with this id, or `NotFound`.
    pub fn get_report(&self, report_id: i32) -> (res: Result<Report, ApiError>)
        ensures
            res is Ok <==> has_report(self@, report_id),
            (res matches Ok(r) ==> r.report_id == report_id && self@.reports.contains(r)),
            (res matches Err(e) ==> e == ApiError::NotFound),
    {
        let mut idx: usize = 0;
        while idx < self.reports.len()
            invariant
                idx <= self.reports.len(),
                forall|k: int|
                    0 <= k < idx ==> (#[trigger] self@.reports[k]).report_id != report_id,
            decreases self.reports.len() - idx,
        {
            if self.reports[idx].report_id == report_id {
                let r = self.reports[idx].clone();
                proof {
                    assert(self@.reports[idx as int] == r);
                }
                return Ok(r);
            }
            idx = idx + 1;
        }
        Err(ApiError::NotFound)
    }

    /// Inserts a report stamped `now` and returns the new row.  The
    /// referenced machine must exist in the given room
    /// (`InvalidReference`), and the reporter must have a user row
    /// (`ConstraintViolation`); on any failure the store is unchanged.
    /// Exhaustion of the id sequence is a `StorageFailure`.
    pub fn submit_report(&mut self, submission: ReportSubmission, now: i64) -> (res: Result<
        Report,
        ApiError,
    >)
        requires
            old(self).wf(),
        ensures
            final(self).wf(),
            !has_machine(old(self)@, submission.room_id, submission.machine_id@) ==> (res matches
                Err(e) && e == ApiError::InvalidReference) && final(self)@ == old(self)@,
            has_machine(old(self)@, submission.room_id, submission.machine_id@) && !has_user(
                old(self)@,
                submission.reporter_username@,
            ) ==> (res matches Err(e) && e == ApiError::ConstraintViolation) && final(self)@ == old(self)@,
            has_machine(old(self)@, submission.room_id, submission.machine_id@) && has_user(
                old(self)@,
                submission.reporter_username@,
            ) && old(self)@.next_report_id == i32::MAX ==> (res matches Err(e) && e
                == ApiError::StorageFailure) && final(self)@ == old(self)@,
            has_machine(old(self)@, submission.room_id, submission.machine_id@) && has_user(
                old(self)@,
                submission.reporter_username@,
            ) && old(self)@.next_report_id < i32::MAX ==> (res matches Ok(r) && r == new_report(
                old(self).next_report_id,
                submission,
                now,
            ) && final(self)@ == (StoreView {
                reports: old(self)@.reports.push(r),
                next_report_id: old(self)@.next_report_id + 1,
                ..old(self)@
            })),
    {
        if !self.is_machine_present(submission.room_id, &submission.machine_id) {
            return Err(ApiError::InvalidReference);
        }
        if !self.is_username_present(&submission.reporter_username) {
            return Err(ApiError::ConstraintViolation);
        }
        if self.next_report_id == i32::MAX {
            return Err(ApiError::StorageFailure);
        }
        let report = Report {
            report_id: self.next_report_id,
            room_id: submission.room_id,
            machine_id: submission.machine_id,
            reporter_username: submission.reporter_username,
            report_type: submission.report_type,
            time: now,
            description: submission.description,
            archived: false,
        };
        let row = report.clone();
        self.reports.push(report);
        self.next_report_id = self.next_report_id + 1;
        proof {
            let reports0 = old(self)@.reports;
            assert forall|i: int| 0 <= i < reports0.len() implies report_key(
                #[trigger] reports0[i],
            ) != report_key(row) by {};
            lemma_push_distinct_keys(reports0, |r: Report| report_key(r), row);
            assert(self@ =~= (StoreView {
                reports: old(self)@.reports.push(row),
                next_report_id: old(self)@.next_report_id + 1,
                ..old(self)@
            }));
        }
        Ok(row)
    }

    /// Submits a report stamped with the current reading of the system
    /// clock; apart from the `time` field the outcome is that of
    /// [`Store::submit_report`].
    pub fn submit_report_now(&mut self, submission: ReportSubmission) -> (res: Result<
        Report,
        ApiError,
    >)
        requires
            old(self).wf(),
        ensures
            final(self).wf(),
            !has_machine(old(self)@, submission.room_id, submission.machine_id@) ==> (res matches
                Err(e) && e == ApiError::InvalidReference) && final(self)@ == old(self)@,
            has_machine(old(self)@, submission.room_id, submission.machine_id@) && !has_user(
                old(self)@,
                submission.reporter_username@,
            ) ==> (res matches Err(e) && e == ApiError::ConstraintViolation) && final(self)@ == old(self)@,
            has_machine(old(self)@, submission.room_id, submission.machine_id@) && has_user(
                old(self)@,
                submission.reporter_username@,
            ) && old(self)@.next_report_id == i32::MAX ==> (res matches Err(e) && e
                == ApiError::StorageFailure) && final(self)@ == old(self)@,
            has_machine(old(self)@, submission.room_id, submission.machine_id@) && has_user(
                old(self)@,
                submission.reporter_username@,
            ) && old(self)@.next_report_id < i32::MAX ==> (res matches Ok(r) && r == new_report(
                old(self).next_report_id,
                submission,
                r.time,
            ) && final(self)@ == (StoreView {
                reports: old(self)@.reports.push(r),
                next_report_id: old(self)@.next_report_id + 1,
                ..old(self)@
            })),
    {
        let now = current_unix_time();
        self.submit_report(submission, now)
    }

    /// Deletes the report with this id and returns the deleted row, or
    /// `NotFound`.
    pub fn delete_report(&mut self, report_id: i32) -> (res: Result<Report, ApiError>)
        requires
            old(self).wf(),
        ensures
            final(self).wf(),
            res is Ok <==> has_report(old(self)@, report_id),
            (res matches Ok(r) ==> r.report_id == report_id && old(self)@.reports.contains(r)
                && final(self)@ == (StoreView {
                reports: old(self)@.reports.filter(report_keep_sel(report_id)),
                ..old(self)@
            })),
            (res matches Err(e) ==> e == ApiError::NotFound && final(self)@ == old(self)@),
            !has_report(final(self)@, report_id),
    {
        if !self.is_report_present(report_id) {
            return Err(ApiError::NotFound);
        }
        let ghost keep = report_keep_sel(report_id);
        let mut kept: Vec<Report> = Vec::new();
        let mut removed: Option<Report> = None;
        let mut idx: usize = 0;
        while idx < self.reports.len()
            invariant
                idx <= self.reports.len(),
                keep == report_keep_sel(report_id),
                kept@ == self@.reports.take(idx as int).filter(keep),
                (removed matches Some(r) ==> r.report_id == report_id && self@.reports.contains(r)),
                (removed is None ==> forall|k: int|
                    0 <= k < idx ==> (#[trigger] self@.reports[k]).report_id != report_id),
            decreases self.reports.len() - idx,
        {
            proof {
                let t = self@.reports.take(idx as int);
                t.lemma_filter_push(self@.reports[idx as int], keep);
                assert(self@.reports.take(idx + 1) =~= t.push(self@.reports[idx as int]));
            }
            if self.reports[idx].report_id == report_id {
                let row = self.reports[idx].clone();
                proof {
                    assert(self@.reports[idx as int] == row);
                }
                removed = Some(row);
            } else {
                kept.push(self.reports[idx].clone());
            }
            idx = idx + 1;
        }
        proof {
            assert(self@.reports.take(self.reports@.len() as int) =~= self@.reports);
        }
        match removed {
            Some(report) => {
                self.reports = kept;
                proof {
                    lemma_filter_distinct_keys(old(self)@.reports, |r: Report| report_key(r), keep);
                    lemma_filter_all(
                        old(self)@.reports,
                        keep,
                        |r: Report| 1 <= r.report_id < old(self)@.next_report_id,
                    );
                    assert(self@ =~= (StoreView {
                        reports: old(self)@.reports.filter(report_keep_sel(report_id)),
                        ..old(self)@
                    }));
                    assert forall|i: int| 0 <= i < self@.reports.len() implies (
                    #[trigger] self@.reports[i]).report_id != report_id by {
                        old(self)@.reports.lemma_filter_pred(keep, i);
                    };
                }
                Ok(report)
            },
            None => {
                proof {
                    let w = choose|i: int|
                        0 <= i < self@.reports.len() && (#[trigger] self@.reports[i]).report_id
                            == report_id;
                    assert(false);
                }
                Err(ApiError::NotFound)
            },
        }
    }

    /// Sets the archive flag of the report with this id and returns the
    /// updated row, or `InvalidReference` if no row has the id.  The
    /// action is idempotent at the data level: archiving an archived
    /// report re-sets the flag and changes nothing.
    pub fn archive_report(&mut self, submission: ArchiveSubmission) -> (res: Result<
        Report,
        ApiError,
    >)
        requires
            old(self).wf(),
        ensures
            final(self).wf(),
            res is Ok <==> has_report(old(self)@, submission.report_id),
            (res matches Ok(r) ==> r.report_id == submission.report_id && r.archived && final(self)@.reports.contains(r) && final(self)@ == (StoreView {
                reports: archive_reports(old(self)@.reports, submission.report_id),
                ..old(self)@
            })),
            (res matches Err(e) ==> e == ApiError::InvalidReference && final(self)@ == old(self)@),
    {
        if !self.is_report_present(submission.report_id) {
            return Err(ApiError::InvalidReference);
        }
        let mut out: Vec<Report> = Vec::new();
        let mut updated: Option<Report> = None;
        let ghost mut upos: int = 0;
        let mut idx: usize = 0;
        while idx < self.reports.len()
            invariant
                idx <= self.reports.len(),
                out@.len() == idx,
                forall|k: int|
                    0 <= k < idx ==> out@[k] == archive_one(
                        self@.reports[k],
                        submission.report_id,
                    ),
                (updated matches Some(r) ==> r.report_id == submission.report_id && r.archived
                    && 0 <= upos < out@.len() && out@[upos] == r),
                (updated is None ==> forall|k: int|
                    0 <= k < idx ==> (#[trigger] self@.reports[k]).report_id
                        != submission.report_id),
            decreases self.reports.len() - idx,
        {
            if self.reports[idx].report_id == submission.report_id {
                let mut row = self.reports[idx].clone();
                row.archived = true;
                let ret = row.clone();
                proof {
                    assert(row == archive_one(self@.reports[idx as int], submission.report_id));
                    assert(out@.push(row)[idx as int] == row);
                    upos = idx as int;
                }
                updated = Some(ret);
                out.push(row);
            } else {
                out.push(self.reports[idx].clone());
            }
            idx = idx + 1;
        }
        match updated {
            Some(report) => {
                self.reports = out;
                proof {
                    let reports0 = old(self)@.reports;
                    assert(self@.reports =~= archive_reports(reports0, submission.report_id));
                    assert(self@ =~= (StoreView {
                        reports: archive_reports(reports0, submission.report_id),
                        ..old(self)@
                    }));
                    assert forall|i: int, j: int|
                        #![trigger self@.reports[i], self@.reports[j]]
                        0 <= i < self@.reports.len() && 0 <= j < self@.reports.len() && i != j
                        implies report_key(self@.reports[i]) != report_key(self@.reports[j]) by {
                        assert(self@.reports[i].report_id == reports0[i].report_id);
                        assert(self@.reports[j].report_id == reports0[j].report_id);
                    };
                    assert forall|i: int| 0 <= i < self@.reports.len() implies 1 <= (
                    #[trigger] self@.reports[i]).report_id < self@.next_report_id by {
                        assert(self@.reports[i].report_id == reports0[i].report_id);
                    };
                }
                Ok(report)
            },
            None => {
                proof {
                    let w = choose|i: int|
                        0 <= i < self@.reports.len() && (#[trigger] self@.reports[i]).report_id
                            == submission.report_id;
                    assert(false);
                }
                Err(ApiError::InvalidReference)
            },
        }
    }
}

} // verus!
