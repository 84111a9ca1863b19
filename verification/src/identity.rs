//! Connection identities: 128-bit random tokens, one per accepted connection.

use vstd::prelude::*;

verus! {

/// The bits of a token that carry the version and the variant.
pub const LAYOUT_MASK: u128 = 0x0000_0000_0000_F000_C000_0000_0000_0000u128;

/// The value of those bits in a random (version 4, RFC variant) token.
pub const RANDOM_LAYOUT: u128 = 0x0000_0000_0000_4000_8000_0000_0000_0000u128;

/// Whether `id` has the layout of a random token: version 4 in the version
/// bits and the RFC variant in the variant bits. The other 122 bits are free.
pub open spec fn is_random_token(id: u128) -> bool {
    id & LAYOUT_MASK == RANDOM_LAYOUT
}

/// `uuid::Uuid::new_v4`, taken as the integer that `Uuid::as_u128` gives.
/// The value is random; the claim is only that the version and variant bits
/// are those of a random token, as the masks in `new_v4` fix them. Nothing
/// is claimed of its being new. `new_v4` panics where the operating system
/// yields no random bytes.
#[verifier::external_body]
pub(crate) fn random_token() -> (id: u128)
    ensures
        is_random_token(id),
{
    uuid::Uuid::new_v4().as_u128()
}

/// Whether `id` has the layout of a random token.
pub fn has_random_layout(id: u128) -> (yes: bool)
    ensures
        yes == is_random_token(id),
{
    id & LAYOUT_MASK == RANDOM_LAYOUT
}

} // verus!
