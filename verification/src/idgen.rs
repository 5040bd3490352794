//! The unique-identifier allocator, supplied by the `sonyflake` crate. A
//! message takes its identifier from an allocator the caller owns, so that
//! identifiers drawn from one allocator are distinct.

use vstd::prelude::*;

verus! {

#[verifier::external_type_specification]
#[verifier::external_body]
pub struct ExSonyflake(sonyflake::Sonyflake);

/// Relies on sonyflake::Sonyflake::next_id: a fresh 64-bit, roughly
/// time-ordered identifier, or `None` when the allocator cannot produce one.
/// Nothing can be promised of the identifier's value.
#[verifier::external_body]
pub fn next_id(sf: &sonyflake::Sonyflake) -> (r: Option<u64>) {
    match sf.next_id() {
        Ok(id) => Some(id.to_u64()),
        Err(_) => None,
    }
}

} // verus!
