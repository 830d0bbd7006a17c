//! A laundry-service resource library: rooms, the machines that stand in
//! them, the users of the service, and the fault reports those users file.
//!
//! The state of the four tables lives in [`store::Store`], an in-memory
//! relation store with a uniqueness invariant on every key.  Each resource
//! module holds the handlers of its endpoints: every handler states in its
//! contract which rows it returns, which error it reports on which input,
//! and how it changes the store.  [`response::ApiError`] maps each error to
//! its HTTP status code.

pub mod clock;
pub mod machine;
pub mod models;
pub mod report;
pub mod response;
pub mod room;
pub mod store;
pub mod user;
