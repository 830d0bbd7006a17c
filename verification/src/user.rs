//! User endpoints: list, get, create, delete.
//!
//! A user is keyed by username.  Creation rejects a taken username with
//! `Conflict` and leaves the existing row untouched.

use vstd::prelude::*;

use crate::models::Report;
use crate::models::User;
use crate::report::user_reports_sel;
use crate::response::ApiError;
use crate::store::Store;
use crate::store::StoreView;
use crate::store::has_user;
use crate::store::lemma_filter_distinct_keys;
use crate::store::lemma_push_distinct_keys;
use crate::store::user_key;

verus! {

/// The client-supplied new user.
pub struct UserSubmission {
    pub username: String,
    pub admin: bool,
}

/// Selects the user rows that survive deletion of `username`.
pub open spec fn user_keep_sel(username: Seq<char>) -> spec_fn(User) -> bool {
    |u: User| u.username@ != username
}

impl Store {
    /// Existence probe for a username.
    pub fn is_username_present(&self, username: &String) -> (present: bool)
        ensures
            present == has_user(self@, username@),
    {
        let mut idx: usize = 0;
        while idx < self.users.len()
            invariant
                idx <= self.users.len(),
                forall|k: int| 0 <= k < idx ==> (#[trigger] self@.users[k]).username@ != username@,
            decreases self.users.len() - idx,
        {
            if self.users[idx].username == *username {
                proof {
                    assert(self@.users[idx as int].username@ == username@);
                }
                return true;
            }
            idx = idx + 1;
        }
        false
    }

    /// Lists every user, in insertion order.  Always succeeds.
    pub fn get_all_users(&self) -> (users: Vec<User>)
        ensures
            users@ == self@.users,
    {
        let mut out: Vec<User> = Vec::new();
        let mut idx: usize = 0;
        while idx < self.users.len()
            invariant
                idx <= self.users.len(),
                out@ == self@.users.take(idx as int),
            decreases self.users.len() - idx,
        {
            out.push(self.users[idx].clone());
            proof {
                assert(self@.users.take(idx + 1) =~= self@.users.take(idx as int).push(
                    self@.users[idx as int],
                ));
            }
            idx = idx + 1;
        }
        proof {
            assert(self@.users.take(self.users@.len() as int) =~= self@.users);
        }
        out
    }

    /// Returns the user with this username, or `NotFound`.
    pub fn get_user(&self, username: &String) -> (res: Result<User, ApiError>)
        ensures
            res is Ok <==> has_user(self@, username@),
            (res matches Ok(u) ==> u.username@ == username@ && self@.users.contains(u)),
            (res matches Err(e) ==> e == ApiError::NotFound),
    {
        let mut idx: usize = 0;
        while idx < self.users.len()
            invariant
                idx <= self.users.len(),
                forall|k: int| 0 <= k < idx ==> (#[trigger] self@.users[k]).username@ != username@,
            decreases self.users.len() - idx,
        {
            if self.users[idx].username == *username {
                let u = self.users[idx].clone();
                proof {
                    assert(self@.users[idx as int] == u);
                }
                return Ok(u);
            }
            idx = idx + 1;
        }
        Err(ApiError::NotFound)
    }

    /// Inserts a user and returns the new row, or `Conflict` if the
    /// username is already taken; on the conflict the store — and with
    /// it the existing row's `admin` flag — is unchanged.
    pub fn add_user(&mut self, submission: UserSubmission) -> (res: Result<User, ApiError>)
        requires
            old(self).wf(),
        ensures
            final(self).wf(),
            has_user(old(self)@, submission.username@) ==> (res matches Err(e) && e
                == ApiError::Conflict) && final(self)@ == old(self)@,
            !has_user(old(self)@, submission.username@) ==> (res matches Ok(u) && u == (User {
                username: submission.username,
                admin: submission.admin,
            }) && final(self)@ == (StoreView { users: old(self)@.users.push(u), ..old(self)@ })),
    {
        if self.is_username_present(&submission.username) {
            return Err(ApiError::Conflict);
        }
        let user = User { username: submission.username, admin: submission.admin };
        let row = user.clone();
        self.users.push(user);
        proof {
            let users0 = old(self)@.users;
            assert forall|i: int| 0 <= i < users0.len() implies user_key(#[trigger] users0[i])
                != user_key(row) by {};
            lemma_push_distinct_keys(users0, |u: User| user_key(u), row);
            assert(self@ =~= (StoreView { users: old(self)@.users.push(row), ..old(self)@ }));
        }
        Ok(row)
    }

    /// Deletes the user with this username and returns the deleted row,
    /// or `NotFound`.  Reports filed by the user are not touched.
    pub fn delete_user(&mut self, username: &String) -> (res: Result<User, ApiError>)
        requires
            old(self).wf(),
        ensures
            final(self).wf(),
            res is Ok <==> has_user(old(self)@, username@),
            (res matches Ok(u) ==> u.username@ == username@ && old(self)@.users.contains(u)
                && final(self)@ == (StoreView {
                users: old(self)@.users.filter(user_keep_sel(username@)),
                ..old(self)@
            })),
            (res matches Err(e) ==> e == ApiError::NotFound && final(self)@ == old(self)@),
            !has_user(final(self)@, username@),
    {
        if !self.is_username_present(username) {
            return Err(ApiError::NotFound);
        }
        let ghost keep = user_keep_sel(username@);
        let mut kept: Vec<User> = Vec::new();
        let mut removed: Option<User> = None;
        let mut idx: usize = 0;
        while idx < self.users.len()
            invariant
                idx <= self.users.len(),
                keep == user_keep_sel(username@),
                kept@ == self@.users.take(idx as int).filter(keep),
                (removed matches Some(u) ==> u.username@ == username@ && self@.users.contains(u)),
                (removed is None ==> forall|k: int|
                    0 <= k < idx ==> (#[trigger] self@.users[k]).username@ != username@),
            decreases self.users.len() - idx,
        {
            proof {
                let t = self@.users.take(idx as int);
                t.lemma_filter_push(self@.users[idx as int], keep);
                assert(self@.users.take(idx + 1) =~= t.push(self@.users[idx as int]));
            }
            if self.users[idx].username == *username {
                let row = self.users[idx].clone();
                proof {
                    assert(self@.users[idx as int] == row);
                }
                removed = Some(row);
            } else {
                kept.push(self.users[idx].clone());
            }
            idx = idx + 1;
        }
        proof {
            assert(self@.users.take(self.users@.len() as int) =~= self@.users);
        }
        match removed {
            Some(user) => {
                self.users = kept;
                proof {
                    lemma_filter_distinct_keys(old(self)@.users, |u: User| user_key(u), keep);
                    assert(self@ =~= (StoreView {
                        users: old(self)@.users.filter(user_keep_sel(username@)),
                        ..old(self)@
                    }));
                    assert forall|i: int| 0 <= i < self@.users.len() implies (
                    #[trigger] self@.users[i]).username@ != username@ by {
                        old(self)@.users.lemma_filter_pred(keep, i);
                    };
                }
                Ok(user)
            },
            None => {
                proof {
                    let w = choose|i: int|
                        0 <= i < self@.users.len() && (#[trigger] self@.users[i]).username@
                            == username@;
                    assert(false);
                }
                Err(ApiError::NotFound)
            },
        }
    }

    /// Lists the unarchived reports filed by a user, or `NotFound` if
    /// the user is absent.
    pub fn get_user_reports(&self, username: &String) -> (res: Result<Vec<Report>, ApiError>)
        ensures
            res is Ok <==> has_user(self@, username@),
            (res matches Ok(reports) ==> reports@ == self@.reports.filter(
                user_reports_sel(username@, false),
            )),
            (res matches Err(e) ==> e == ApiError::NotFound),
    {
        if !self.is_username_present(username) {
            return Err(ApiError::NotFound);
        }
        Ok(self.collect_user_reports(username, false))
    }

    /// Lists the archived reports filed by a user, or `NotFound` if the
    /// user is absent.
    pub fn get_user_archived_reports(&self, username: &String) -> (res: Result<
        Vec<Report>,
        ApiError,
    >)
        ensures
            res is Ok <==> has_user(self@, username@),
            (res matches Ok(reports) ==> reports@ == self@.reports.filter(
                user_reports_sel(username@, true),
            )),
            (res matches Err(e) ==> e == ApiError::NotFound),
    {
        if !self.is_username_present(username) {
            return Err(ApiError::NotFound);
        }
        Ok(self.collect_user_reports(username, true))
    }
}

} // verus!
