//! Machine endpoints: list, get, create, delete.
//!
//! A machine is identified by the composite key (room id, machine id);
//! the machine id alone is not unique.  Creation checks that the parent
//! room exists (`InvalidReference` if not) and that the key is free
//! (`Conflict` if not); the service never generates machine ids.

use vstd::prelude::*;

use crate::models::Machine;
use crate::models::MachineType;
use crate::models::Report;
use crate::report::machine_reports_sel;
use crate::response::ApiError;
use crate::store::Store;
use crate::store::StoreView;
use crate::store::has_machine;
use crate::store::has_room;
use crate::store::lemma_filter_distinct_keys;
use crate::store::lemma_push_distinct_keys;
use crate::store::machine_key;
use crate::store::machines_unique;

verus! {

/// The client-supplied new machine; it carries its full composite key.
pub struct MachineSubmission {
    pub room_id: i32,
    pub machine_id: String,
    pub machine_type: MachineType,
}

/// Selects the machine rows that stand in room `room_id`.
pub open spec fn machines_in_room_sel(room_id: i32) -> spec_fn(Machine) -> bool {
    |m: Machine| m.room_id == room_id
}

/// Selects the machine rows that survive deletion of the key
/// (`room_id`, `machine_id`).
pub open spec fn machine_keep_sel(room_id: i32, machine_id: Seq<char>) -> spec_fn(Machine) -> bool {
    |m: Machine| !(m.room_id == room_id && m.machine_id@ == machine_id)
}

/// A machine created under a fresh composite key is retrievable
/// afterwards: once the new row is appended, the key names a row, the
/// appended row is in the table, and — the keys being unique — every row
/// under the key is exactly the created one, carrying the submitted
/// fields.  Together with the contracts of [`Store::add_machine`] and
/// [`Store::get_machine`], a successful creation is followed by a
/// successful retrieval of the same row.
pub proof fn lemma_added_machine_retrievable(s: StoreView, submission: MachineSubmission)
    requires
        machines_unique(s.machines),
        !has_machine(s, submission.room_id, submission.machine_id@),
    ensures
        ({
            let m = Machine {
                room_id: submission.room_id,
                machine_id: submission.machine_id,
                machine_type: submission.machine_type,
            };
            let s2 = StoreView { machines: s.machines.push(m), ..s };
            &&& has_machine(s2, submission.room_id, submission.machine_id@)
            &&& s2.machines.contains(m)
            &&& forall|r: Machine|
                #[trigger] s2.machines.contains(r) && r.room_id == submission.room_id
                    && r.machine_id@ == submission.machine_id@ ==> r == m
        }),
{
    let m = Machine {
        room_id: submission.room_id,
        machine_id: submission.machine_id,
        machine_type: submission.machine_type,
    };
    let s2 = StoreView { machines: s.machines.push(m), ..s };
    assert(s2.machines[s.machines.len() as int] == m);
    assert(s2.machines.contains(m));
    assert forall|r: Machine|
        #[trigger] s2.machines.contains(r) && r.room_id == submission.room_id && r.machine_id@
            == submission.machine_id@ implies r == m by {
        let k = choose|k: int| 0 <= k < s2.machines.len() && s2.machines[k] == r;
        if k < s.machines.len() {
            assert(s.machines[k] == r);
            assert(false);
        } else {
            assert(r == m);
        }
    };
}

impl Store {
    /// Existence probe for a composite machine key.
    pub fn is_machine_present(&self, room_id: i32, machine_id: &String) -> (present: bool)
        ensures
            present == has_machine(self@, room_id, machine_id@),
    {
        let mut idx: usize = 0;
        while idx < self.machines.len()
            invariant
                idx <= self.machines.len(),
                forall|k: int|
                    0 <= k < idx ==> !((#[trigger] self@.machines[k]).room_id == room_id
                        && self@.machines[k].machine_id@ == machine_id@),
            decreases self.machines.len() - idx,
        {
            if self.machines[idx].room_id == room_id && self.machines[idx].machine_id
                == *machine_id {
                return true;
            }
            idx = idx + 1;
        }
        false
    }

    /// Lists every machine, in insertion order.  Always succeeds.
    pub fn get_all_machines(&self) -> (machines: Vec<Machine>)
        ensures
            machines@ == self@.machines,
    {
        let mut out: Vec<Machine> = Vec::new();
        let mut idx: usize = 0;
        while idx < self.machines.len()
            invariant
                idx <= self.machines.len(),
                out@ == self@.machines.take(idx as int),
            decreases self.machines.len() - idx,
        {
            out.push(self.machines[idx].clone());
            proof {
                assert(self@.machines.take(idx + 1) =~= self@.machines.take(idx as int).push(
                    self@.machines[idx as int],
                ));
            }
            idx = idx + 1;
        }
        proof {
            assert(self@.machines.take(self.machines@.len() as int) =~= self@.machines);
        }
        out
    }

    /// The walk behind the room-scoped machine listing.
    pub(crate) fn collect_room_machines(&self, room_id: i32) -> (machines: Vec<Machine>)
        ensures
            machines@ == self@.machines.filter(machines_in_room_sel(room_id)),
    {
        let ghost sel = machines_in_room_sel(room_id);
        let mut out: Vec<Machine> = Vec::new();
        let mut idx: usize = 0;
        while idx < self.machines.len()
            invariant
                idx <= self.machines.len(),
                sel == machines_in_room_sel(room_id),
                out@ == self@.machines.take(idx as int).filter(sel),
            decreases self.machines.len() - idx,
        {
            proof {
                let t = self@.machines.take(idx as int);
                t.lemma_filter_push(self@.machines[idx as int], sel);
                assert(self@.machines.take(idx + 1) =~= t.push(self@.machines[idx as int]));
            }
            if self.machines[idx].room_id == room_id {
                out.push(self.machines[idx].clone());
            }
            idx = idx + 1;
        }
        proof {
            assert(self@.machines.take(self.machines@.len() as int) =~= self@.machines);
        }
        out
    }

    /// Returns the machine with this composite key, or `NotFound`.
    pub fn get_machine(&self, room_id: i32, machine_id: &String) -> (res: Result<
        Machine,
        ApiError,
    >)
        ensures
            res is Ok <==> has_machine(self@, room_id, machine_id@),
            (res matches Ok(m) ==> m.room_id == room_id && m.machine_id@ == machine_id@
                && self@.machines.contains(m)),
            (res matches Err(e) ==> e == ApiError::NotFound),
    {
        let mut idx: usize = 0;
        while idx < self.machines.len()
            invariant
                idx <= self.machines.len(),
                forall|k: int|
                    0 <= k < idx ==> !((#[trigger] self@.machines[k]).room_id == room_id
                        && self@.machines[k].machine_id@ == machine_id@),
            decreases self.machines.len() - idx,
        {
            if self.machines[idx].room_id == room_id && self.machines[idx].machine_id
                == *machine_id {
                let m = self.machines[idx].clone();
                proof {
                    assert(self@.machines[idx as int] == m);
                }
                return Ok(m);
            }
            idx = idx + 1;
        }
        Err(ApiError::NotFound)
    }

    /// Inserts a machine and returns the new row.  The referenced room
    /// must exist (`InvalidReference`), and the composite key must be
    /// free (`Conflict`); on either failure the store is unchanged.
    pub fn add_machine(&mut self, submission: MachineSubmission) -> (res: Result<
        Machine,
        ApiError,
    >)
        requires
            old(self).wf(),
        ensures
            final(self).wf(),
            !has_room(old(self)@, submission.room_id) ==> (res matches Err(e) && e
                == ApiError::InvalidReference) && final(self)@ == old(self)@,
            has_room(old(self)@, submission.room_id) && has_machine(
                old(self)@,
                submission.room_id,
                submission.machine_id@,
            ) ==> (res matches Err(e) && e == ApiError::Conflict) && final(self)@ == old(self)@,
            has_room(old(self)@, submission.room_id) && !has_machine(
                old(self)@,
                submission.room_id,
                submission.machine_id@,
            ) ==> (res matches Ok(m) && m == (Machine {
                room_id: submission.room_id,
                machine_id: submission.machine_id,
                machine_type: submission.machine_type,
            }) && final(self)@ == (StoreView {
                machines: old(self)@.machines.push(m),
                ..old(self)@
            })),
    {
        if !self.is_room_present(submission.room_id) {
            return Err(ApiError::InvalidReference);
        }
        if self.is_machine_present(submission.room_id, &submission.machine_id) {
            return Err(ApiError::Conflict);
        }
        let machine = Machine {
            room_id: submission.room_id,
            machine_id: submission.machine_id,
            machine_type: submission.machine_type,
        };
        let row = machine.clone();
        self.machines.push(machine);
        proof {
            let machines0 = old(self)@.machines;
            assert forall|i: int| 0 <= i < machines0.len() implies machine_key(
                #[trigger] machines0[i],
            ) != machine_key(row) by {};
            lemma_push_distinct_keys(machines0, |m: Machine| machine_key(m), row);
            assert(self@ =~= (StoreView { machines: old(self)@.machines.push(row), ..old(self)@ }));
        }
        Ok(row)
    }

    /// Deletes the machine with this composite key and returns the
    /// deleted row, or `NotFound`.  Reports that reference the machine
    /// are not touched.
    pub fn delete_machine(&mut self, room_id: i32, machine_id: &String) -> (res: Result<
        Machine,
        ApiError,
    >)
        requires
            old(self).wf(),
        ensures
            final(self).wf(),
            res is Ok <==> has_machine(old(self)@, room_id, machine_id@),
            (res matches Ok(m) ==> m.room_id == room_id && m.machine_id@ == machine_id@
                && old(self)@.machines.contains(m) && final(self)@ == (StoreView {
                machines: old(self)@.machines.filter(machine_keep_sel(room_id, machine_id@)),
                ..old(self)@
            })),
            (res matches Err(e) ==> e == ApiError::NotFound && final(self)@ == old(self)@),
            !has_machine(final(self)@, room_id, machine_id@),
    {
        if !self.is_machine_present(room_id, machine_id) {
            return Err(ApiError::NotFound);
        }
        let ghost keep = machine_keep_sel(room_id, machine_id@);
        let mut kept: Vec<Machine> = Vec::new();
        let mut removed: Option<Machine> = None;
        let mut idx: usize = 0;
        while idx < self.machines.len()
            invariant
                idx <= self.machines.len(),
                keep == machine_keep_sel(room_id, machine_id@),
                kept@ == self@.machines.take(idx as int).filter(keep),
                (removed matches Some(m) ==> m.room_id == room_id && m.machine_id@ == machine_id@
                    && self@.machines.contains(m)),
                (removed is None ==> forall|k: int|
                    0 <= k < idx ==> !((#[trigger] self@.machines[k]).room_id == room_id
                        && self@.machines[k].machine_id@ == machine_id@)),
            decreases self.machines.len() - idx,
        {
            proof {
                let t = self@.machines.take(idx as int);
                t.lemma_filter_push(self@.machines[idx as int], keep);
                assert(self@.machines.take(idx + 1) =~= t.push(self@.machines[idx as int]));
            }
            if self.machines[idx].room_id == room_id && self.machines[idx].machine_id
                == *machine_id {
                let row = self.machines[idx].clone();
                proof {
                    assert(self@.machines[idx as int] == row);
                }
                removed = Some(row);
            } else {
                kept.push(self.machines[idx].clone());
            }
            idx = idx + 1;
        }
        proof {
            assert(self@.machines.take(self.machines@.len() as int) =~= self@.machines);
        }
        match removed {
            Some(machine) => {
                self.machines = kept;
                proof {
                    lemma_filter_distinct_keys(
                        old(self)@.machines,
                        |m: Machine| machine_key(m),
                        keep,
                    );
                    assert(self@ =~= (StoreView {
                        machines: old(self)@.machines.filter(machine_keep_sel(room_id, machine_id@)),
                        ..old(self)@
                    }));
                    assert forall|i: int| 0 <= i < self@.machines.len() implies !((
                    #[trigger] self@.machines[i]).room_id == room_id
                        && self@.machines[i].machine_id@ == machine_id@) by {
                        old(self)@.machines.lemma_filter_pred(keep, i);
                    };
                }
                Ok(machine)
            },
            None => {
                proof {
                    let w = choose|i: int|
                        0 <= i < self@.machines.len() && (#[trigger] self@.machines[i]).room_id
                            == room_id && self@.machines[i].machine_id@ == machine_id@;
                    assert(false);
                }
                Err(ApiError::NotFound)
            },
        }
    }

    /// Lists the unarchived reports of a machine, or `InvalidReference`
    /// if the composite key names no machine.
    pub fn get_machine_reports(&self, room_id: i32, machine_id: &String) -> (res: Result<
        Vec<Report>,
        ApiError,
    >)
        ensures
            res is Ok <==> has_machine(self@, room_id, machine_id@),
            (res matches Ok(reports) ==> reports@ == self@.reports.filter(
                machine_reports_sel(room_id, machine_id@, false),
            )),
            (res matches Err(e) ==> e == ApiError::InvalidReference),
    {
        if !self.is_machine_present(room_id, machine_id) {
            return Err(ApiError::InvalidReference);
        }
        Ok(self.collect_machine_reports(room_id, machine_id, false))
    }

    /// Lists the archived reports of a machine, or `InvalidReference`
    /// if the composite key names no machine.
    pub fn get_machine_archived_reports(&self, room_id: i32, machine_id: &String) -> (res: Result<
        Vec<Report>,
        ApiError,
    >)
        ensures
            res is Ok <==> has_machine(self@, room_id, machine_id@),
            (res matches Ok(reports) ==> reports@ == self@.reports.filter(
                machine_reports_sel(room_id, machine_id@, true),
            )),
            (res matches Err(e) ==> e == ApiError::InvalidReference),
    {
        if !self.is_machine_present(room_id, machine_id) {
            return Err(ApiError::InvalidReference);
        }
        Ok(self.collect_machine_reports(room_id, machine_id, true))
    }
}

} // verus!
