//! Widget identity: globally unique 128-bit ids generated at construction.

use vstd::prelude::*;

verus! {

/// Relies on `uuid::Uuid::new_v4` and `Uuid::as_u128`: a version-4 UUID is
/// 122 random bits with the version nibble forced to 4, read back here as a
/// big-endian 128-bit value, so the nibble at bits 76..80 is always 4 and the
/// id is never zero. Nothing more is promised: uniqueness is statistical.
#[verifier::external_body]
pub(crate) fn fresh_id() -> (r: u128)
    ensures
        r & 0xF0000000000000000000 == 0x40000000000000000000,
        r != 0,
{
    uuid::Uuid::new_v4().as_u128()
}

} // verus!
