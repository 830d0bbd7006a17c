//! The one outside dependency of the library's logic: the system clock,
//! read when a report is stamped at submission.

use vstd::prelude::*;

verus! {

/// Relies on `time::OffsetDateTime::now_utc` and `unix_timestamp`: the
/// current UTC instant of the system clock, as whole seconds since the
/// unix epoch.  Nothing is promised of the value — it depends on the
/// clock alone, and two reads may differ.
#[verifier::external_body]
pub(crate) fn current_unix_time() -> i64 {
    time::OffsetDateTime::now_utc().unix_timestamp()
}

} // verus!
