//! What the library takes from Bevy's own crates.

use vstd::prelude::*;

verus! {

/// Whether `bits` is the bit pattern of an entity: the low 32 bits, which
/// hold the entity's row, are not all zero.
pub open spec fn is_entity_bits(bits: u64) -> bool {
    bits % 0x1_0000_0000 != 0
}

/// `bevy_ecs::entity::Entity::try_from_bits`, then `Entity::to_bits`: the
/// bits again where they are an entity's, which is where the low 32 bits
/// are not all zero, and nothing otherwise.
#[verifier::external_body]
pub(crate) fn entity_from_bits(bits: u64) -> (r: Option<u64>)
    ensures
        r == (if is_entity_bits(bits) {
            Some(bits)
        } else {
            None
        }),
{
    bevy_ecs::entity::Entity::try_from_bits(bits).map(|entity| entity.to_bits())
}

/// `bevy_remote::error_codes::COMPONENT_ERROR`, the code under which the
/// remote side reports a component that it cannot hand out: -23402.
#[verifier::external_body]
pub(crate) fn component_error_code() -> (r: i16)
    ensures
        r == -23402,
{
    bevy_remote::error_codes::COMPONENT_ERROR
}

} // verus!
