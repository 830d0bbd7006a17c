//! The relation store that backs every handler.
//!
//! A [`Store`] holds the four tables as plain vectors together with the
//! id sequences that creation draws from.  Its mathematical content is a
//! [`StoreView`]; the invariant [`inv`] states that every table is free of
//! duplicate keys and that every generated id lies below its sequence.
//! Handlers require the invariant and preserve it.

use vstd::prelude::*;

use crate::models::Machine;
use crate::models::Report;
use crate::models::Room;
use crate::models::User;

verus! {

/// The mathematical content of a [`Store`]: the rows of the four tables,
/// in insertion order, and the next free generated ids.
#[verifier::ext_equal]
pub struct StoreView {
    pub rooms: Seq<Room>,
    pub machines: Seq<Machine>,
    pub users: Seq<User>,
    pub reports: Seq<Report>,
    pub next_room_id: int,
    pub next_report_id: int,
}

/// A room row with this id exists.
pub open spec fn has_room(s: StoreView, room_id: i32) -> bool {
    exists|i: int| 0 <= i < s.rooms.len() && (#[trigger] s.rooms[i]).room_id == room_id
}

/// A machine row with this composite (room id, machine id) key exists.
pub open spec fn has_machine(s: StoreView, room_id: i32, machine_id: Seq<char>) -> bool {
    exists|i: int|
        0 <= i < s.machines.len() && (#[trigger] s.machines[i]).room_id == room_id
            && s.machines[i].machine_id@ == machine_id
}

/// A user row with this username exists.
pub open spec fn has_user(s: StoreView, username: Seq<char>) -> bool {
    exists|i: int| 0 <= i < s.users.len() && (#[trigger] s.users[i]).username@ == username
}

/// A report row with this id exists.
pub open spec fn has_report(s: StoreView, report_id: i32) -> bool {
    exists|i: int| 0 <= i < s.reports.len() && (#[trigger] s.reports[i]).report_id == report_id
}

/// No two rows of the sequence share a key under `key`.
pub open spec fn distinct_keys<A, K>(s: Seq<A>, key: spec_fn(A) -> K) -> bool {
    forall|i: int, j: int|
        #![trigger s[i], s[j]]
        0 <= i < s.len() && 0 <= j < s.len() && i != j ==> key(s[i]) != key(s[j])
}

/// The key of a room row.
pub open spec fn room_key(r: Room) -> i32 {
    r.room_id
}

/// The composite key of a machine row.
pub open spec fn machine_key(m: Machine) -> (i32, Seq<char>) {
    (m.room_id, m.machine_id@)
}

/// The key of a user row.
pub open spec fn user_key(u: User) -> Seq<char> {
    u.username@
}

/// The key of a report row.
pub open spec fn report_key(r: Report) -> i32 {
    r.report_id
}

/// No two room rows share a room id.
pub open spec fn rooms_unique(rooms: Seq<Room>) -> bool {
    distinct_keys(rooms, |r: Room| room_key(r))
}

/// No two machine rows share a composite (room id, machine id) key.
pub open spec fn machines_unique(machines: Seq<Machine>) -> bool {
    distinct_keys(machines, |m: Machine| machine_key(m))
}

/// No two user rows share a username.
pub open spec fn users_unique(users: Seq<User>) -> bool {
    distinct_keys(users, |u: User| user_key(u))
}

/// No two report rows share a report id.
pub open spec fn reports_unique(reports: Seq<Report>) -> bool {
    distinct_keys(reports, |r: Report| report_key(r))
}

/// Appending a row whose key is fresh keeps the keys distinct.
pub proof fn lemma_push_distinct_keys<A, K>(s: Seq<A>, key: spec_fn(A) -> K, x: A)
    requires
        distinct_keys(s, key),
        forall|i: int| 0 <= i < s.len() ==> key(#[trigger] s[i]) != key(x),
    ensures
        distinct_keys(s.push(x), key),
{
    let t = s.push(x);
    assert forall|i: int, j: int|
        #![trigger t[i], t[j]]
        0 <= i < t.len() && 0 <= j < t.len() && i != j implies key(t[i]) != key(t[j]) by {
        if i < s.len() && j < s.len() {
            assert(t[i] == s[i]);
            assert(t[j] == s[j]);
        } else if i == s.len() {
            assert(t[j] == s[j]);
        } else {
            assert(t[i] == s[i]);
        }
    };
}

/// Keeping a subset of the rows keeps the keys distinct.
pub proof fn lemma_filter_distinct_keys<A, K>(s: Seq<A>, key: spec_fn(A) -> K, p: spec_fn(A) -> bool)
    requires
        distinct_keys(s, key),
    ensures
        distinct_keys(s.filter(p), key),
    decreases s.len(),
{
    reveal(Seq::filter);
    if s.len() > 0 {
        let rest = s.drop_last();
        assert forall|i: int, j: int|
            #![trigger rest[i], rest[j]]
            0 <= i < rest.len() && 0 <= j < rest.len() && i != j implies key(rest[i]) != key(
            rest[j],
        ) by {
            assert(rest[i] == s[i]);
            assert(rest[j] == s[j]);
        };
        lemma_filter_distinct_keys(rest, key, p);
        if p(s.last()) {
            let f = rest.filter(p);
            assert forall|k: int| 0 <= k < f.len() implies key(#[trigger] f[k]) != key(
                s.last(),
            ) by {
                assert(f.contains(f[k]));
                rest.lemma_filter_contains_rev(p, f[k]);
                let j = choose|j: int| 0 <= j < rest.len() && rest[j] == f[k];
                assert(s[j] == f[k]);
                assert(s[j] != s[s.len() - 1] || j == s.len() - 1);
                assert(key(s[j]) != key(s[s.len() - 1]));
            };
            lemma_push_distinct_keys(f, key, s.last());
            assert(s.filter(p) == f.push(s.last()));
        } else {
            assert(s.filter(p) == rest.filter(p));
        }
    }
}

/// A property that holds of every row still holds after keeping a subset.
pub proof fn lemma_filter_all<A>(s: Seq<A>, p: spec_fn(A) -> bool, q: spec_fn(A) -> bool)
    requires
        forall|i: int| 0 <= i < s.len() ==> q(#[trigger] s[i]),
    ensures
        forall|i: int| 0 <= i < s.filter(p).len() ==> q(#[trigger] s.filter(p)[i]),
{
    let f = s.filter(p);
    assert forall|i: int| 0 <= i < f.len() implies q(#[trigger] f[i]) by {
        assert(f.contains(f[i]));
        s.lemma_filter_contains_rev(p, f[i]);
        let j = choose|j: int| 0 <= j < s.len() && s[j] == f[i];
        assert(q(s[j]));
    };
}

/// The store invariant: keys are unique within each table, id sequences
/// stay in range, and every generated id in a table lies below the
/// sequence it was drawn from, so the next draw is fresh.
pub open spec fn inv(s: StoreView) -> bool {
    &&& rooms_unique(s.rooms)
    &&& machines_unique(s.machines)
    &&& users_unique(s.users)
    &&& reports_unique(s.reports)
    &&& 1 <= s.next_room_id <= i32::MAX
    &&& 1 <= s.next_report_id <= i32::MAX
    &&& forall|i: int|
        0 <= i < s.rooms.len() ==> 1 <= (#[trigger] s.rooms[i]).room_id < s.next_room_id
    &&& forall|i: int|
        0 <= i < s.reports.len() ==> 1 <= (#[trigger] s.reports[i]).report_id < s.next_report_id
}

/// The four tables of the service and the id sequences of the two
/// generated keys.  Handlers keep [`Store::wf`]; mutating the fields
/// directly may break it and with it the handlers' preconditions.
pub struct Store {
    pub rooms: Vec<Room>,
    pub machines: Vec<Machine>,
    pub users: Vec<User>,
    pub reports: Vec<Report>,
    pub next_room_id: i32,
    pub next_report_id: i32,
}

impl View for Store {
    type V = StoreView;

    open spec fn view(&self) -> StoreView {
        StoreView {
            rooms: self.rooms@,
            machines: self.machines@,
            users: self.users@,
            reports: self.reports@,
            next_room_id: self.next_room_id as int,
            next_report_id: self.next_report_id as int,
        }
    }
}

impl Store {
    /// The store invariant, stated of this store's view.
    pub open spec fn wf(self) -> bool {
        inv(self@)
    }

    /// An empty store.  The first room created in it receives room id 1,
    /// and the first report submitted to it receives report id 1.
    pub fn new() -> (s: Store)
        ensures
            s.wf(),
            s@ == (StoreView {
                rooms: Seq::<Room>::empty(),
                machines: Seq::<Machine>::empty(),
                users: Seq::<User>::empty(),
                reports: Seq::<Report>::empty(),
                next_room_id: 1,
                next_report_id: 1,
            }),
    {
        let s = Store {
            rooms: Vec::new(),
            machines: Vec::new(),
            users: Vec::new(),
            reports: Vec::new(),
            next_room_id: 1,
            next_report_id: 1,
        };
        proof {
            assert(s@ =~= (StoreView {
                rooms: Seq::<Room>::empty(),
                machines: Seq::<Machine>::empty(),
                users: Seq::<User>::empty(),
                reports: Seq::<Report>::empty(),
                next_room_id: 1,
                next_report_id: 1,
            }));
        }
        s
    }
}

} // verus!
