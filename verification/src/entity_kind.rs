//! What kind of thing an entity is, judged by the components it has.

use vstd::prelude::*;
use crate::component;
use crate::entity_item::EntityItem;

verus! {

/// The kinds of entity that the inspector tells apart.
#[derive(Debug, Clone, Copy, PartialEq, Eq, Structural)]
pub enum EntityKind {
    Camera,
    Entity,
    Light,
    Mesh2d,
    Mesh3d,
    Monitor,
    Node,
    Observer,
    Pointer,
    System,
    Text,
    Window,
}

/// The components that are asked for to tell an entity's kind: every
/// marker that the kind is told by, in the order of their priority.
pub const KIND_COMPONENTS: [&'static str; 13] = [
    component::CAMERA,
    component::LIGHT_DIRECTIONAL,
    component::LIGHT_POINT,
    component::LIGHT_SPOT,
    component::MESH_2D,
    component::MESH_3D,
    component::MONITOR,
    component::TEXT,
    component::NODE,
    component::OBSERVER_STATE,
    component::POINTER_ID,
    component::SYSTEM_ID_MARKER,
    component::WINDOW,
];

/// The markers by which the kind of an entity is told, in the order of
/// their priority.
pub open spec fn kind_markers() -> Seq<&'static str> {
    seq![
        component::CAMERA,
        component::LIGHT_DIRECTIONAL,
        component::LIGHT_POINT,
        component::LIGHT_SPOT,
        component::MESH_2D,
        component::MESH_3D,
        component::MONITOR,
        component::TEXT,
        component::NODE,
        component::OBSERVER_STATE,
        component::POINTER_ID,
        component::SYSTEM_ID_MARKER,
        component::WINDOW,
    ]
}

/// The components that are asked for to tell an entity's kind, as a list.
pub fn kind_components() -> (r: Vec<&'static str>)
    ensures
        r@ == kind_markers(),
        r@ == KIND_COMPONENTS@,
{
    let mut list: Vec<&'static str> = Vec::new();
    let mut i: usize = 0;
    while i < 13
        invariant
            i <= 13,
            list@ == KIND_COMPONENTS@.take(i as int),
        decreases 13 - i,
    {
        list.push(KIND_COMPONENTS[i]);
        assert(KIND_COMPONENTS@.take(i + 1) =~= KIND_COMPONENTS@.take(i as int).push(
            KIND_COMPONENTS@[i as int],
        ));
        i += 1;
    }
    assert(KIND_COMPONENTS@.take(13) =~= KIND_COMPONENTS@);
    assert(KIND_COMPONENTS@ =~= kind_markers());
    list
}

/// Whether `key` is the type path of one of the markers `markers`.
pub open spec fn is_among(markers: Seq<&'static str>, key: Seq<char>) -> bool {
    exists|i: int| 0 <= i < markers.len() && (#[trigger] markers[i])@ == key
}

/// The kind of an entity depends on nothing but the markers that are
/// asked for: two entities that agree on them are of one kind.
pub proof fn lemma_kind_rests_on_markers(
    first: spec_fn(Seq<char>) -> bool,
    second: spec_fn(Seq<char>) -> bool,
)
    requires
        forall|key: Seq<char>| is_among(kind_markers(), key) ==> first(key) == second(key),
    ensures
        kind_of(first) == kind_of(second),
{
    let markers = kind_markers();
    assert(is_among(markers, markers[0]@));
    assert(is_among(markers, markers[1]@));
    assert(is_among(markers, markers[2]@));
    assert(is_among(markers, markers[3]@));
    assert(is_among(markers, markers[4]@));
    assert(is_among(markers, markers[5]@));
    assert(is_among(markers, markers[6]@));
    assert(is_among(markers, markers[7]@));
    assert(is_among(markers, markers[8]@));
    assert(is_among(markers, markers[9]@));
    assert(is_among(markers, markers[10]@));
    assert(is_among(markers, markers[11]@));
    assert(is_among(markers, markers[12]@));
}

/// The kind of an entity of which `holds` says which components it has: the
/// first, in this order, whose component is there. A camera that is also a
/// light is a camera.
pub open spec fn kind_of(holds: spec_fn(Seq<char>) -> bool) -> EntityKind {
    if holds(component::CAMERA@) {
        EntityKind::Camera
    } else if holds(component::LIGHT_DIRECTIONAL@) || holds(component::LIGHT_POINT@) || holds(
        component::LIGHT_SPOT@,
    ) {
        EntityKind::Light
    } else if holds(component::MESH_2D@) {
        EntityKind::Mesh2d
    } else if holds(component::MESH_3D@) {
        EntityKind::Mesh3d
    } else if holds(component::MONITOR@) {
        EntityKind::Monitor
    } else if holds(component::TEXT@) {
        EntityKind::Text
    } else if holds(component::NODE@) {
        EntityKind::Node
    } else if holds(component::OBSERVER_STATE@) {
        EntityKind::Observer
    } else if holds(component::POINTER_ID@) {
        EntityKind::Pointer
    } else if holds(component::SYSTEM_ID_MARKER@) {
        EntityKind::System
    } else if holds(component::WINDOW@) {
        EntityKind::Window
    } else {
        EntityKind::Entity
    }
}

impl EntityKind {
    /// The kind of `entity`.
    pub fn of(entity: &EntityItem) -> (r: EntityKind)
        ensures
            r == kind_of(|key: Seq<char>| entity.component(key) is Some),
    {
        if entity.has_component(component::CAMERA) {
            EntityKind::Camera
        } else if entity.has_component(component::LIGHT_DIRECTIONAL) || entity.has_component(
            component::LIGHT_POINT,
        ) || entity.has_component(component::LIGHT_SPOT) {
            EntityKind::Light
        } else if entity.has_component(component::MESH_2D) {
            EntityKind::Mesh2d
        } else if entity.has_component(component::MESH_3D) {
            EntityKind::Mesh3d
        } else if entity.has_component(component::MONITOR) {
            EntityKind::Monitor
        } else if entity.has_component(component::TEXT) {
            EntityKind::Text
        } else if entity.has_component(component::NODE) {
            EntityKind::Node
        } else if entity.has_component(component::OBSERVER_STATE) {
            EntityKind::Observer
        } else if entity.has_component(component::POINTER_ID) {
            EntityKind::Pointer
        } else if entity.has_component(component::SYSTEM_ID_MARKER) {
            EntityKind::System
        } else if entity.has_component(component::WINDOW) {
            EntityKind::Window
        } else {
            EntityKind::Entity
        }
    }

    /// The name of the kind.
    pub fn label(&self) -> (r: &'static str)
        ensures
            r@ == (match self {
                EntityKind::Camera => "Camera"@,
                EntityKind::Entity => "Entity"@,
                EntityKind::Light => "Light"@,
                EntityKind::Mesh2d => "Mesh2d"@,
                EntityKind::Mesh3d => "Mesh3d"@,
                EntityKind::Monitor => "Monitor"@,
                EntityKind::Node => "Node"@,
                EntityKind::Observer => "Observer"@,
                EntityKind::Pointer => "Pointer"@,
                EntityKind::System => "System"@,
                EntityKind::Text => "Text"@,
                EntityKind::Window => "Window"@,
            }),
    {
        match self {
            EntityKind::Camera => "Camera",
            EntityKind::Entity => "Entity",
            EntityKind::Light => "Light",
            EntityKind::Mesh2d => "Mesh2d",
            EntityKind::Mesh3d => "Mesh3d",
            EntityKind::Monitor => "Monitor",
            EntityKind::Node => "Node",
            EntityKind::Observer => "Observer",
            EntityKind::Pointer => "Pointer",
            EntityKind::System => "System",
            EntityKind::Text => "Text",
            EntityKind::Window => "Window",
        }
    }
}

impl<'a> From<&'a EntityItem> for EntityKind {
    fn from(value: &'a EntityItem) -> (r: EntityKind) {
        EntityKind::of(value)
    }
}

impl<'a> vstd::std_specs::convert::FromSpecImpl<&'a EntityItem> for EntityKind {
    open spec fn obeys_from_spec() -> bool {
        true
    }

    open spec fn from_spec(value: &'a EntityItem) -> EntityKind {
        kind_of(|key: Seq<char>| value.component(key) is Some)
    }
}

/// An entity with a camera is a camera, whatever else it has, and an entity
/// with none of the marker components is a plain entity.
pub proof fn lemma_kind_priority(holds: spec_fn(Seq<char>) -> bool)
    ensures
        holds(component::CAMERA@) ==> kind_of(holds) == EntityKind::Camera,
        !holds(component::CAMERA@) && holds(component::LIGHT_POINT@) ==> kind_of(holds)
            == EntityKind::Light,
        kind_of(holds) == EntityKind::Window ==> holds(component::WINDOW@) && !holds(component::CAMERA@)
            && !holds(component::MESH_3D@) && !holds(component::NODE@),
        (forall|key: Seq<char>| !(#[trigger] holds(key))) ==> kind_of(holds) == EntityKind::Entity,
{
}

} // verus!
