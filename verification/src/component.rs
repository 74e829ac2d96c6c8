//! Type paths of the components that the inspector knows by name.

use vstd::prelude::*;

verus! {

pub const CAMERA: &'static str = "bevy_camera::camera::Camera";

pub const CHILD_OF: &'static str = "bevy_ecs::hierarchy::ChildOf";

pub const CHILDREN: &'static str = "bevy_ecs::hierarchy::Children";

pub const COMPUTED_NODE: &'static str = "bevy_ui::ui_node::ComputedNode";

pub const COMPUTED_NODE_TARGET: &'static str = "bevy_ui::ui_node::ComputedNodeTarget";

pub const COMPUTED_TEXT_BLOCK: &'static str = "bevy_text::text::ComputedTextBlock";

pub const COMPUTED_UI_TARGET_CAMERA: &'static str = "bevy_ui::ui_node::ComputedUiTargetCamera";

pub const GLOBAL_TRANSFORM: &'static str = "bevy_transform::components::global_transform::GlobalTransform";

pub const LIGHT_CASCADES: &'static str = "bevy_light::cascade::Cascades";

pub const LIGHT_DIRECTIONAL: &'static str = "bevy_light::directional_light::DirectionalLight";

pub const LIGHT_POINT: &'static str = "bevy_light::point_light::PointLight";

pub const LIGHT_SPOT: &'static str = "bevy_light::spot_light::SpotLight";

pub const MESH_2D: &'static str = "bevy_mesh::components::Mesh2d";

pub const MESH_3D: &'static str = "bevy_mesh::components::Mesh3d";

pub const MONITOR: &'static str = "bevy_window::monitor::Monitor";

pub const NAME: &'static str = "bevy_ecs::name::Name";

pub const NODE: &'static str = "bevy_ui::ui_node::Node";

pub const OBSERVER_STATE: &'static str = "bevy_ecs::observer::distributed_storage::Observer";

pub const POINTER_ID: &'static str = "bevy_picking::pointer::PointerId";

pub const POINTER_PRESS: &'static str = "bevy_picking::pointer::PointerPress";

pub const SYSTEM_ID_MARKER: &'static str = "bevy_ecs::system::system_registry::SystemIdMarker";

pub const TEXT: &'static str = "bevy_ui::widget::text::Text";

pub const TEXT_LAYOUT_INFO: &'static str = "bevy_text::pipeline::TextLayoutInfo";

pub const WINDOW: &'static str = "bevy_window::window::Window";

} // verus!
