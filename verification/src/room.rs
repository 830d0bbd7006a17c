//! Room endpoints: list, get, create, delete, and the room-scoped
//! listings of machines and reports.
//!
//! A room id is generated by the store at creation.  Deleting a room does
//! not cascade: machines and reports that reference it stay behind, as
//! the service has always left them.

use vstd::prelude::*;

use crate::machine::machines_in_room_sel;
use crate::models::Machine;
use crate::models::Report;
use crate::models::Room;
use crate::report::room_reports_sel;
use crate::response::ApiError;
use crate::store::Store;
use crate::store::StoreView;
use crate::store::has_room;
use crate::store::lemma_filter_all;
use crate::store::lemma_filter_distinct_keys;
use crate::store::lemma_push_distinct_keys;
use crate::store::room_key;

verus! {

/// The client-supplied part of a new room; the id is generated.
pub struct RoomSubmission {
    pub name: String,
    pub description: Option<String>,
}

/// Selects the room rows that survive deletion of `room_id`.
pub open spec fn room_keep_sel(room_id: i32) -> spec_fn(Room) -> bool {
    |r: Room| r.room_id != room_id
}

impl Store {
    /// Existence probe for a room id; reads nothing but the room table.
    pub fn is_room_present(&self, room_id: i32) -> (present: bool)
        ensures
            present == has_room(self@, room_id),
    {
        let mut idx: usize = 0;
        while idx < self.rooms.len()
            invariant
                idx <= self.rooms.len(),
                forall|k: int| 0 <= k < idx ==> (#[trigger] self@.rooms[k]).room_id != room_id,
            decreases self.rooms.len() - idx,
        {
            if self.rooms[idx].room_id == room_id {
                return true;
            }
            idx = idx + 1;
        }
        false
    }

    /// Lists every room, in insertion order.  Always succeeds.
    pub fn get_all_rooms(&self) -> (rooms: Vec<Room>)
        ensures
            rooms@ == self@.rooms,
    {
        let mut out: Vec<Room> = Vec::new();
        let mut idx: usize = 0;
        while idx < self.rooms.len()
            invariant
                idx <= self.rooms.len(),
                out@ == self@.rooms.take(idx as int),
            decreases self.rooms.len() - idx,
        {
            out.push(self.rooms[idx].clone());
            proof {
                assert(self@.rooms.take(idx + 1) =~= self@.rooms.take(idx as int).push(
                    self@.rooms[idx as int],
                ));
            }
            idx = idx + 1;
        }
        proof {
            assert(self@.rooms.take(self.rooms@.len() as int) =~= self@.rooms);
        }
        out
    }

    /// Returns the room with this id, or `NotFound` if no row has it.
    pub fn get_room(&self, room_id: i32) -> (res: Result<Room, ApiError>)
        ensures
            res is Ok <==> has_room(self@, room_id),
            (res matches Ok(room) ==> room.room_id == room_id && self@.rooms.contains(room)),
            (res matches Err(e) ==> e == ApiError::NotFound),
    {
        let mut idx: usize = 0;
        while idx < self.rooms.len()
            invariant
                idx <= self.rooms.len(),
                forall|k: int| 0 <= k < idx ==> (#[trigger] self@.rooms[k]).room_id != room_id,
            decreases self.rooms.len() - idx,
        {
            if self.rooms[idx].room_id == room_id {
                let room = self.rooms[idx].clone();
                proof {
                    assert(self@.rooms[idx as int] == room);
                }
                return Ok(room);
            }
            idx = idx + 1;
        }
        Err(ApiError::NotFound)
    }

    /// Inserts a room under a freshly generated id and returns the new
    /// row.  No name-uniqueness check is made: two rooms may share a
    /// name.  The sole failure is exhaustion of the id sequence, reported
    /// as `StorageFailure`.
    pub fn add_room(&mut self, submission: RoomSubmission) -> (res: Result<Room, ApiError>)
        requires
            old(self).wf(),
        ensures
            final(self).wf(),
            old(self)@.next_room_id == i32::MAX ==> (res matches Err(e) && e
                == ApiError::StorageFailure) && final(self)@ == old(self)@,
            old(self)@.next_room_id < i32::MAX ==> (res matches Ok(room) && room == (Room {
                room_id: old(self).next_room_id,
                name: submission.name,
                description: submission.description,
            }) && final(self)@ == (StoreView {
                rooms: old(self)@.rooms.push(room),
                next_room_id: old(self)@.next_room_id + 1,
                ..old(self)@
            })),
    {
        if self.next_room_id == i32::MAX {
            return Err(ApiError::StorageFailure);
        }
        let room = Room {
            room_id: self.next_room_id,
            name: submission.name,
            description: submission.description,
        };
        let row = room.clone();
        self.rooms.push(room);
        self.next_room_id = self.next_room_id + 1;
        proof {
            let rooms0 = old(self)@.rooms;
            assert forall|i: int| 0 <= i < rooms0.len() implies room_key(#[trigger] rooms0[i])
                != room_key(row) by {};
            lemma_push_distinct_keys(rooms0, |r: Room| room_key(r), row);
            assert(self@ =~= (StoreView {
                rooms: old(self)@.rooms.push(row),
                next_room_id: old(self)@.next_room_id + 1,
                ..old(self)@
            }));
        }
        Ok(row)
    }

    /// Deletes the room with this id and returns the deleted row, or
    /// `NotFound` if no row has the id.  Machines and reports that
    /// reference the room are not touched.
    pub fn delete_room(&mut self, room_id: i32) -> (res: Result<Room, ApiError>)
        requires
            old(self).wf(),
        ensures
            final(self).wf(),
            res is Ok <==> has_room(old(self)@, room_id),
            (res matches Ok(room) ==> room.room_id == room_id && old(self)@.rooms.contains(room)
                && final(self)@ == (StoreView {
                rooms: old(self)@.rooms.filter(room_keep_sel(room_id)),
                ..old(self)@
            })),
            (res matches Err(e) ==> e == ApiError::NotFound && final(self)@ == old(self)@),
            !has_room(final(self)@, room_id),
    {
        if !self.is_room_present(room_id) {
            return Err(ApiError::NotFound);
        }
        let ghost keep = room_keep_sel(room_id);
        let mut kept: Vec<Room> = Vec::new();
        let mut removed: Option<Room> = None;
        let mut idx: usize = 0;
        while idx < self.rooms.len()
            invariant
                idx <= self.rooms.len(),
                keep == room_keep_sel(room_id),
                kept@ == self@.rooms.take(idx as int).filter(keep),
                (removed matches Some(r) ==> r.room_id == room_id && self@.rooms.contains(r)),
                (removed is None ==> forall|k: int|
                    0 <= k < idx ==> (#[trigger] self@.rooms[k]).room_id != room_id),
            decreases self.rooms.len() - idx,
        {
            proof {
                let t = self@.rooms.take(idx as int);
                t.lemma_filter_push(self@.rooms[idx as int], keep);
                assert(self@.rooms.take(idx + 1) =~= t.push(self@.rooms[idx as int]));
            }
            if self.rooms[idx].room_id == room_id {
                let row = self.rooms[idx].clone();
                proof {
                    assert(self@.rooms[idx as int] == row);
                }
                removed = Some(row);
            } else {
                kept.push(self.rooms[idx].clone());
            }
            idx = idx + 1;
        }
        proof {
            assert(self@.rooms.take(self.rooms@.len() as int) =~= self@.rooms);
        }
        match removed {
            Some(room) => {
                self.rooms = kept;
                proof {
                    lemma_filter_distinct_keys(old(self)@.rooms, |r: Room| room_key(r), keep);
                    lemma_filter_all(
                        old(self)@.rooms,
                        keep,
                        |r: Room| 1 <= r.room_id < old(self)@.next_room_id,
                    );
                    assert(self@ =~= (StoreView {
                        rooms: old(self)@.rooms.filter(room_keep_sel(room_id)),
                        ..old(self)@
                    }));
                    assert forall|i: int| 0 <= i < self@.rooms.len() implies (
                    #[trigger] self@.rooms[i]).room_id != room_id by {
                        old(self)@.rooms.lemma_filter_pred(keep, i);
                    };
                }
                Ok(room)
            },
            None => {
                proof {
                    let w = choose|i: int|
                        0 <= i < self@.rooms.len() && (#[trigger] self@.rooms[i]).room_id
                            == room_id;
                    assert(false);
                }
                Err(ApiError::NotFound)
            },
        }
    }

    /// Lists the machines of a room, or `NotFound` if the room is
    /// absent.  The listing may be empty.
    pub fn get_room_machines(&self, room_id: i32) -> (res: Result<Vec<Machine>, ApiError>)
        ensures
            res is Ok <==> has_room(self@, room_id),
            (res matches Ok(machines) ==> machines@ == self@.machines.filter(
                machines_in_room_sel(room_id),
            )),
            (res matches Err(e) ==> e == ApiError::NotFound),
    {
        if !self.is_room_present(room_id) {
            return Err(ApiError::NotFound);
        }
        Ok(self.collect_room_machines(room_id))
    }

    /// Lists the unarchived reports of a room, or `NotFound` if the
    /// room is absent.
    pub fn get_room_reports(&self, room_id: i32) -> (res: Result<Vec<Report>, ApiError>)
        ensures
            res is Ok <==> has_room(self@, room_id),
            (res matches Ok(reports) ==> reports@ == self@.reports.filter(
                room_reports_sel(room_id, false),
            )),
            (res matches Err(e) ==> e == ApiError::NotFound),
    {
        if !self.is_room_present(room_id) {
            return Err(ApiError::NotFound);
        }
        Ok(self.collect_room_reports(room_id, false))
    }

    /// Lists the archived reports of a room, or `NotFound` if the room
    /// is absent.
    pub fn get_room_archived_reports(&self, room_id: i32) -> (res: Result<Vec<Report>, ApiError>)
        ensures
            res is Ok <==> has_room(self@, room_id),
            (res matches Ok(reports) ==> reports@ == self@.reports.filter(
                room_reports_sel(room_id, true),
            )),
            (res matches Err(e) ==> e == ApiError::NotFound),
    {
        if !self.is_room_present(room_id) {
            return Err(ApiError::NotFound);
        }
        Ok(self.collect_room_reports(room_id, true))
    }
}

} // verus!
