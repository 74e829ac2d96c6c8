//! What the tools of the inspector keep between two refreshes.

use vstd::prelude::*;
use crate::inspector::{cards, inspector_cards, pin_toggled, toggle_pin};
use crate::types_tool::{contains_text, lowercased, passes_filter};

verus! {

/// The state of the tool that shows entities: the entity that was picked
/// last, and the entities that are pinned.
#[derive(Debug, PartialEq, Eq)]
pub struct EntitiesToolState {
    pub active: Option<u64>,
    pub pinned: Vec<u64>,
}

impl EntitiesToolState {
    /// Nothing picked, nothing pinned.
    pub fn new() -> (r: EntitiesToolState)
        ensures
            r.active is None,
            r.pinned@ == Seq::<u64>::empty(),
    {
        EntitiesToolState { active: None, pinned: Vec::new() }
    }

    /// Takes a click on the row of the entity `id`: it is the one picked.
    pub fn pick(&mut self, id: u64)
        ensures
            final(self).active == Some(id),
            final(self).pinned == old(self).pinned,
    {
        self.active = Some(id);
    }

    /// Takes a click on the pin of the entity `id`.
    pub fn toggle_pin(&mut self, id: u64)
        ensures
            final(self).pinned@ == pin_toggled(old(self).pinned@, id),
            final(self).active == old(self).active,
    {
        toggle_pin(&mut self.pinned, id);
    }

    /// The entities that have a card, each with whether it is pinned.
    pub fn cards(&self) -> (r: Vec<(u64, bool)>)
        ensures
            r@ == cards(self.pinned@, self.active),
    {
        inspector_cards(&self.pinned, self.active)
    }
}

/// The state of the inspector of entities: that of the tool that shows
/// them.
pub type InspectorState = EntitiesToolState;

/// The state of the tool that shows resources: the resource that was
/// picked last.
#[derive(Debug, PartialEq, Eq)]
pub struct ResourcesToolState {
    pub active: Option<String>,
}

impl ResourcesToolState {
    /// Nothing picked.
    pub fn new() -> (r: ResourcesToolState)
        ensures
            r.active is None,
    {
        ResourcesToolState { active: None }
    }
}

/// The state of the tool that shows types: the type that was picked last,
/// and the filter on the list of types.
#[derive(Debug, PartialEq, Eq)]
pub struct TypesToolState {
    pub active: Option<String>,
    pub filter: String,
}

impl TypesToolState {
    /// Nothing picked, and a filter that lets every type through.
    pub fn new() -> (r: TypesToolState)
        ensures
            r.active is None,
            r.filter@ == Seq::<char>::empty(),
    {
        TypesToolState { active: None, filter: String::new() }
    }

    /// Whether the type `type_path` is listed.
    pub fn lists(&self, type_path: &str) -> (r: bool)
        ensures
            r == (self.filter@.len() == 0 || contains_text(
                lowercased(type_path@),
                lowercased(self.filter@),
            )),
    {
        passes_filter(type_path, self.filter.as_str())
    }
}

} // verus!
