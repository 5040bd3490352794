//! The wall clock, read through the `time` crate.

use vstd::prelude::*;

verus! {

/// Relies on time::OffsetDateTime::now_utc and OffsetDateTime::unix_timestamp:
/// the current wall-clock time as whole seconds since the Unix epoch. Nothing
/// can be promised of the clock's reading.
#[verifier::external_body]
pub fn now_unix() -> i64 {
    time::OffsetDateTime::now_utc().unix_timestamp()
}

} // verus!
