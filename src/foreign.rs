//! Types of outside crates that the library's signatures and fields use.
use vstd::prelude::*;

verus! {

/// glam's unsigned 2D vector, with its two public fields visible to proofs.
#[verifier::external_type_specification]
pub struct ExUVec2(glam::UVec2);

/// Relies on glam's `UVec2::new`, which builds the vector from its two fields.
pub assume_specification[ glam::UVec2::new ](x: u32, y: u32) -> (r: glam::UVec2)
    ensures
        r.x == x && r.y == y,
;

/// glam's float 2D vector, carried through the library as an opaque value.
#[verifier::external_type_specification]
#[verifier::external_body]
pub struct ExVec2(glam::Vec2);

/// bevy's entity handle, carried through the library as an opaque value.
#[verifier::external_type_specification]
#[verifier::external_body]
pub struct ExEntity(bevy_ecs::entity::Entity);

} // verus!
