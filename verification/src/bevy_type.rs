//! Type paths of the value types that the inspector knows by name.

use vstd::prelude::*;

verus! {

pub const ENTITY: &'static str = "bevy_ecs::entity::Entity";

pub const GLAM_QUAT: &'static str = "glam::Quat";

pub const GLAM_VEC2: &'static str = "glam::Vec2";

pub const GLAM_VEC3: &'static str = "glam::Vec3";

pub const GLAM_VEC3A: &'static str = "glam::Vec3A";

} // verus!
