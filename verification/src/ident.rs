//! Identifiers for instances.

use vstd::prelude::*;

verus! {

/// `id` has the layout of a random (version 4) UUID: the four bits from bit
/// 76 up hold the version, 4, and the two bits from bit 62 up hold the
/// variant, binary 10.
pub open spec fn is_version4(id: u128) -> bool {
    &&& (id / 0x1000_0000_0000_0000_0000) % 16 == 4
    &&& (id / 0x4000_0000_0000_0000) % 4 == 2
}

/// Draws an identifier with `uuid::Uuid::new_v4` and hands it out as the
/// number that `Uuid::as_u128` gives for it. Believed of it, not proved:
/// `new_v4` fills all bits from the system's random source but the version
/// and variant bits, which it sets as `is_version4` says, and `as_u128` reads
/// the sixteen bytes back as one big-endian number. Nothing is claimed of the
/// random bits: two draws may be equal. `new_v4` panics where the system has
/// no random bytes to give.
#[verifier::external_body]
pub(crate) fn fresh_id() -> (id: u128)
    ensures
        is_version4(id),
{
    uuid::Uuid::new_v4().as_u128()
}

} // verus!
