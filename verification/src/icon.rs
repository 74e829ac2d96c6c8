//! The icons of the inspector, and which of them stands for which kind of
//! entity.

use vstd::prelude::*;
use crate::entity_item::EntityItem;
use crate::entity_kind::{kind_of, EntityKind};

verus! {

/// An icon.
#[derive(Debug, Clone, Copy, PartialEq, Eq, Structural)]
pub enum Icon {
    Box,
    Bubbles,
    ChevronDown,
    ChevronRight,
    Computer,
    Cursor,
    Diamond,
    Focus,
    Lambda,
    Lightbulb,
    Pin,
    Rectangle,
    Refresh,
    TextSize,
    Unpin,
    Video,
    Window,
}

/// The icon of the kind `kind`: cameras, lights, meshes in three
/// dimensions and windows have their own, everything else a diamond.
pub open spec fn icon_of(kind: EntityKind) -> Icon {
    match kind {
        EntityKind::Camera => Icon::Video,
        EntityKind::Light => Icon::Lightbulb,
        EntityKind::Mesh3d => Icon::Box,
        EntityKind::Window => Icon::Window,
        _ => Icon::Diamond,
    }
}

impl Icon {
    /// The name of the file that holds the icon's drawing.
    pub fn get_file_name(&self) -> (r: &'static str)
        ensures
            r@ == (match self {
                Icon::Box => "box-3-line"@,
                Icon::Bubbles => "bubble-chart-line"@,
                Icon::ChevronDown => "arrow-down-s-line"@,
                Icon::ChevronRight => "arrow-right-s-line"@,
                Icon::Computer => "computer-line"@,
                Icon::Cursor => "cursor-line"@,
                Icon::Diamond => "poker-diamonds-line"@,
                Icon::Focus => "focus-2-fill"@,
                Icon::Lambda => "custom-lambda"@,
                Icon::Lightbulb => "lightbulb-line"@,
                Icon::Pin => "pushpin-line"@,
                Icon::Refresh => "refresh-right-fill"@,
                Icon::TextSize => "font-size-2"@,
                Icon::Rectangle => "rectangle-line"@,
                Icon::Unpin => "unpin-line"@,
                Icon::Video => "video-on-line"@,
                Icon::Window => "window-fill"@,
            }),
    {
        match self {
            Icon::Box => "box-3-line",
            Icon::Bubbles => "bubble-chart-line",
            Icon::ChevronDown => "arrow-down-s-line",
            Icon::ChevronRight => "arrow-right-s-line",
            Icon::Computer => "computer-line",
            Icon::Cursor => "cursor-line",
            Icon::Diamond => "poker-diamonds-line",
            Icon::Focus => "focus-2-fill",
            Icon::Lambda => "custom-lambda",
            Icon::Lightbulb => "lightbulb-line",
            Icon::Pin => "pushpin-line",
            Icon::Refresh => "refresh-right-fill",
            Icon::TextSize => "font-size-2",
            Icon::Rectangle => "rectangle-line",
            Icon::Unpin => "unpin-line",
            Icon::Video => "video-on-line",
            Icon::Window => "window-fill",
        }
    }

    /// The icon of the kind `kind`.
    pub fn of_kind(kind: EntityKind) -> (r: Icon)
        ensures
            r == icon_of(kind),
    {
        match kind {
            EntityKind::Camera => Icon::Video,
            EntityKind::Light => Icon::Lightbulb,
            EntityKind::Mesh3d => Icon::Box,
            EntityKind::Window => Icon::Window,
            _ => Icon::Diamond,
        }
    }

    /// The icon of the entity `entity`: that of its kind.
    pub fn of_entity(entity: &EntityItem) -> (r: Icon)
        ensures
            r == icon_of(kind_of(|key: Seq<char>| entity.component(key) is Some)),
    {
        Icon::of_kind(EntityKind::of(entity))
    }
}

impl From<EntityKind> for Icon {
    fn from(kind: EntityKind) -> (r: Icon) {
        Icon::of_kind(kind)
    }
}

impl vstd::std_specs::convert::FromSpecImpl<EntityKind> for Icon {
    open spec fn obeys_from_spec() -> bool {
        true
    }

    open spec fn from_spec(kind: EntityKind) -> Icon {
        icon_of(kind)
    }
}

impl<'a> From<&'a EntityItem> for Icon {
    fn from(entity: &'a EntityItem) -> (r: Icon) {
        Icon::of_entity(entity)
    }
}

impl<'a> vstd::std_specs::convert::FromSpecImpl<&'a EntityItem> for Icon {
    open spec fn obeys_from_spec() -> bool {
        true
    }

    open spec fn from_spec(entity: &'a EntityItem) -> Icon {
        icon_of(kind_of(|key: Seq<char>| entity.component(key) is Some))
    }
}

} // verus!
