//! The four entities of the service and their enumerated attributes.
//!
//! `Report.time` holds the creation instant as a unix timestamp in seconds;
//! it is assigned by the server at insertion and never supplied by a client.

use vstd::prelude::*;

verus! {

/// The kind of a laundry machine.
#[derive(Clone, Copy, Debug, PartialEq, Eq, Structural)]
pub enum MachineType {
    Washer,
    Dryer,
}

/// The severity of a fault report.
#[derive(Clone, Copy, Debug, PartialEq, Eq, Structural)]
pub enum ReportType {
    Operational,
    Caution,
    Broken,
}

/// A laundry room; the parent of machines and of reports, keyed by `room_id`.
#[derive(Debug, PartialEq, Eq)]
pub struct Room {
    pub room_id: i32,
    pub name: String,
    pub description: Option<String>,
}

/// A machine, keyed by the composite (`room_id`, `machine_id`);
/// `machine_id` alone is not unique across rooms.
#[derive(Debug, PartialEq, Eq)]
pub struct Machine {
    pub room_id: i32,
    pub machine_id: String,
    pub machine_type: MachineType,
}

/// A user of the service, keyed by `username`.
#[derive(Debug, PartialEq, Eq)]
pub struct User {
    pub username: String,
    pub admin: bool,
}

/// A fault report, keyed by the generated `report_id`.  It references a
/// machine by (`room_id`, `machine_id`) and a user by `reporter_username`.
/// Every field but `archived` is immutable once the row is inserted.
#[derive(Debug, PartialEq, Eq)]
pub struct Report {
    pub report_id: i32,
    pub room_id: i32,
    pub machine_id: String,
    pub reporter_username: String,
    pub report_type: ReportType,
    pub time: i64,
    pub description: Option<String>,
    pub archived: bool,
}

/// Clones an optional string, keeping its value.
fn clone_opt_string(s: &Option<String>) -> (res: Option<String>)
    ensures
        res == *s,
{
    match s {
        Some(inner) => Some(inner.clone()),
        None => None,
    }
}

impl Clone for Room {
    fn clone(&self) -> (res: Self)
        ensures
            res == *self,
    {
        Room {
            room_id: self.room_id,
            name: self.name.clone(),
            description: clone_opt_string(&self.description),
        }
    }
}

impl Clone for Machine {
    fn clone(&self) -> (res: Self)
        ensures
            res == *self,
    {
        Machine {
            room_id: self.room_id,
            machine_id: self.machine_id.clone(),
            machine_type: self.machine_type,
        }
    }
}

impl Clone for User {
    fn clone(&self) -> (res: Self)
        ensures
            res == *self,
    {
        User { username: self.username.clone(), admin: self.admin }
    }
}

impl Clone for Report {
    fn clone(&self) -> (res: Self)
        ensures
            res == *self,
    {
        Report {
            report_id: self.report_id,
            room_id: self.room_id,
            machine_id: self.machine_id.clone(),
            reporter_username: self.reporter_username.clone(),
            report_type: self.report_type,
            time: self.time,
            description: clone_opt_string(&self.description),
            archived: self.archived,
        }
    }
}

} // verus!
