//! What the inspector of one entity shows: its markers apart from its
//! components with data, each component by its type, and which entities
//! have a card.

use vstd::prelude::*;
use crate::component;
use crate::component_value::{budget, interpret, rendered, ValueNode, ValueNodeView};
use crate::entity_item::EntityItem;
use crate::json::{string_views, Json, JsonView};
use crate::schema::{described, Schema};
use crate::text::text_eq;

verus! {

/// Whether the registry describes the type `path` as a marker.
pub open spec fn is_marker_type(schema: Schema, path: Seq<char>) -> bool {
    match described(schema, path) {
        Some(d) => d.is_marker(),
        None => false,
    }
}

/// Those of the first `n` component names of `entity` that are markers
/// (`markers` true) or are not (`markers` false), in the entity's order.
pub open spec fn selected(
    pairs: Seq<(Seq<char>, Option<Json>)>,
    n: nat,
    schema: Schema,
    markers: bool,
) -> Seq<Seq<char>>
    decreases n,
{
    if n == 0 || n > pairs.len() {
        Seq::empty()
    } else {
        let rest = selected(pairs, (n - 1) as nat, schema, markers);
        if is_marker_type(schema, pairs[n - 1].0) == markers {
            rest.push(pairs[n - 1].0)
        } else {
            rest
        }
    }
}

fn is_marker_component(schema: &Schema, path: &str) -> (r: bool)
    ensures
        r == is_marker_type(*schema, path@),
{
    match schema.get(path) {
        Some(d) => d.is_marker(),
        None => false,
    }
}

fn select(entity: &EntityItem, schema: &Schema, markers: bool) -> (r: Vec<String>)
    ensures
        string_views(r@) == selected(
            entity.components.pairs(),
            entity.components.pairs().len(),
            *schema,
            markers,
        ),
{
    let count = entity.components.len();
    let mut out: Vec<String> = Vec::new();
    let mut i: usize = 0;
    assert(string_views(out@) =~= Seq::empty());
    while i < count
        invariant
            i <= count,
            count == entity.components.pairs().len(),
            string_views(out@) == selected(entity.components.pairs(), i as nat, *schema, markers),
        decreases count - i,
    {
        let name = entity.components.key_at(i);
        let ghost before = string_views(out@);
        if is_marker_component(schema, name.as_str()) == markers {
            out.push(name.clone());
            assert(string_views(out@) =~= before.push(name@));
        }
        i += 1;
    }
    out
}

/// The components of `entity` that are markers, in the entity's order.
pub fn marker_components(entity: &EntityItem, schema: &Schema) -> (r: Vec<String>)
    ensures
        string_views(r@) == selected(
            entity.components.pairs(),
            entity.components.pairs().len(),
            *schema,
            true,
        ),
{
    select(entity, schema, true)
}

/// The components of `entity` that are no markers, in the entity's order.
pub fn data_components(entity: &EntityItem, schema: &Schema) -> (r: Vec<String>)
    ensures
        string_views(r@) == selected(
            entity.components.pairs(),
            entity.components.pairs().len(),
            *schema,
            false,
        ),
{
    select(entity, schema, false)
}

/// Every name that is selected as a marker is one, and every name selected
/// as data is none: no marker is among the components that are shown by
/// their values.
pub proof fn lemma_selected_are(
    pairs: Seq<(Seq<char>, Option<Json>)>,
    n: nat,
    schema: Schema,
    markers: bool,
)
    requires
        n <= pairs.len(),
    ensures
        forall|i: int|
            0 <= i < selected(pairs, n, schema, markers).len() ==> is_marker_type(
                schema,
                #[trigger] selected(pairs, n, schema, markers)[i],
            ) == markers,
    decreases n,
{
    if n > 0 {
        lemma_selected_are(pairs, (n - 1) as nat, schema, markers);
        let rest = selected(pairs, (n - 1) as nat, schema, markers);
        let all = selected(pairs, n, schema, markers);
        assert forall|i: int| 0 <= i < all.len() implies is_marker_type(schema, #[trigger] all[i])
            == markers by {
            if i < rest.len() {
                assert(all[i] == rest[i]);
            }
        }
    }
}

/// Each component is selected once, as a marker or as data.
pub proof fn lemma_selected_partition(pairs: Seq<(Seq<char>, Option<Json>)>, n: nat, schema: Schema)
    requires
        n <= pairs.len(),
    ensures
        selected(pairs, n, schema, true).len() + selected(pairs, n, schema, false).len() == n,
    decreases n,
{
    if n > 0 {
        lemma_selected_partition(pairs, (n - 1) as nat, schema);
    }
}

/// How one component is shown.
#[derive(Debug, PartialEq, Eq)]
pub enum ComponentNode {
    /// The registry does not know the component's type.
    NotRegistered,
    /// The entity has the component, but its value could not be had.
    NoValue,
    /// The component's value.
    Value(ValueNode),
}

/// The content of a [`ComponentNode`].
pub enum ComponentNodeView {
    NotRegistered,
    NoValue,
    Value(ValueNodeView),
}

impl View for ComponentNode {
    type V = ComponentNodeView;

    open spec fn view(&self) -> ComponentNodeView {
        match self {
            ComponentNode::NotRegistered => ComponentNodeView::NotRegistered,
            ComponentNode::NoValue => ComponentNodeView::NoValue,
            ComponentNode::Value(v) => ComponentNodeView::Value(v@),
        }
    }
}

/// How the component `type_path` with the value `value` is shown: by its
/// value, from the root of the component, where the registry knows its
/// type and the value is there.
pub open spec fn component_shown(type_path: Seq<char>, value: Option<JsonView>, schema: Schema) -> ComponentNodeView {
    match described(schema, type_path) {
        None => ComponentNodeView::NotRegistered,
        Some(d) => match value {
            None => ComponentNodeView::NoValue,
            Some(v) => ComponentNodeView::Value(rendered(v, d, schema, None, budget(schema))),
        },
    }
}

/// How the component `type_path` with the value `value` is shown.
pub fn inspect_component(type_path: &str, value: Option<&Json>, schema: &Schema) -> (r:
    ComponentNode)
    ensures
        r@ == component_shown(
            type_path@,
            match value {
                Some(v) => Some(v@),
                None => None,
            },
            *schema,
        ),
{
    match schema.get(type_path) {
        None => ComponentNode::NotRegistered,
        Some(descriptor) => match value {
            None => ComponentNode::NoValue,
            Some(v) => ComponentNode::Value(interpret(v, descriptor, schema, &None)),
        },
    }
}

/// Whether the component `type_path` is folded when it is first shown:
/// the components that the remote side computes are.
pub open spec fn starts_folded(type_path: Seq<char>) -> bool {
    ||| type_path == component::COMPUTED_NODE@
    ||| type_path == component::COMPUTED_TEXT_BLOCK@
    ||| type_path == component::COMPUTED_UI_TARGET_CAMERA@
    ||| type_path == component::GLOBAL_TRANSFORM@
    ||| type_path == component::LIGHT_CASCADES@
    ||| type_path == component::TEXT_LAYOUT_INFO@
}

/// Whether the component `type_path` is open when it is first shown.
pub fn initially_open(type_path: &str) -> (r: bool)
    ensures
        r == !starts_folded(type_path@),
{
    !(text_eq(type_path, component::COMPUTED_NODE) || text_eq(
        type_path,
        component::COMPUTED_TEXT_BLOCK,
    ) || text_eq(type_path, component::COMPUTED_UI_TARGET_CAMERA) || text_eq(
        type_path,
        component::GLOBAL_TRANSFORM,
    ) || text_eq(type_path, component::LIGHT_CASCADES) || text_eq(
        type_path,
        component::TEXT_LAYOUT_INFO,
    ))
}

/// The identifiers `ids` without `id`.
pub open spec fn without(ids: Seq<u64>, id: u64) -> Seq<u64> {
    ids.filter(|x: u64| x != id)
}

/// The pinned entities after a click on the pin of `id`: without `id`
/// where it was pinned, and with `id` at the end where it was not.
pub open spec fn pin_toggled(pinned: Seq<u64>, id: u64) -> Seq<u64> {
    if pinned.contains(id) {
        without(pinned, id)
    } else {
        pinned.push(id)
    }
}

/// Whether `id` is among `ids`.
pub fn contains_id(ids: &Vec<u64>, id: u64) -> (r: bool)
    ensures
        r == ids@.contains(id),
{
    let mut i: usize = 0;
    while i < ids.len()
        invariant
            i <= ids.len(),
            forall|j: int| 0 <= j < i ==> ids[j] != id,
        decreases ids.len() - i,
    {
        if ids[i] == id {
            return true;
        }
        i += 1;
    }
    false
}

/// Pins the entity `id`, or unpins it where it is pinned.
pub fn toggle_pin(pinned: &mut Vec<u64>, id: u64)
    ensures
        final(pinned)@ == pin_toggled(old(pinned)@, id),
{
    if contains_id(pinned, id) {
        let ghost before = pinned@;
        let mut kept: Vec<u64> = Vec::new();
        let mut i: usize = 0;
        assert(before.take(0).filter(|x: u64| x != id) =~= Seq::empty()) by {
            assert(before.take(0) =~= Seq::empty());
            reveal(Seq::filter);
        }
        while i < pinned.len()
            invariant
                i <= pinned.len(),
                pinned@ == before,
                kept@ == without(before.take(i as int), id),
            decreases pinned.len() - i,
        {
            proof {
                let prev = before.take(i as int);
                let next = before.take(i + 1);
                assert(next =~= prev.push(before[i as int]));
                lemma_filter_push(prev, before[i as int], id);
            }
            if pinned[i] != id {
                kept.push(pinned[i]);
            }
            i += 1;
        }
        assert(before.take(pinned.len() as int) =~= before);
        *pinned = kept;
    } else {
        pinned.push(id);
    }
}

/// Leaving `id` out of a list with one more item leaves it out of the list
/// and, where the item is `id`, of the item.
pub proof fn lemma_filter_push(ids: Seq<u64>, last: u64, id: u64)
    ensures
        without(ids.push(last), id) == (if last != id {
            without(ids, id).push(last)
        } else {
            without(ids, id)
        }),
{
    reveal(Seq::filter);
    assert(ids.push(last).drop_last() =~= ids);
}

/// The entities that have a card, each with whether it is pinned: the
/// pinned ones in their order, then the active one unless it is pinned.
pub open spec fn cards(pinned: Seq<u64>, active: Option<u64>) -> Seq<(u64, bool)> {
    let first = Seq::new(pinned.len(), |i: int| (pinned[i], true));
    match active {
        Some(id) => if pinned.contains(id) {
            first
        } else {
            first.push((id, false))
        },
        None => first,
    }
}

/// The entities that have a card, each with whether it is pinned.
pub fn inspector_cards(pinned: &Vec<u64>, active: Option<u64>) -> (r: Vec<(u64, bool)>)
    ensures
        r@ == cards(pinned@, active),
{
    let mut out: Vec<(u64, bool)> = Vec::new();
    let mut i: usize = 0;
    while i < pinned.len()
        invariant
            i <= pinned.len(),
            out.len() == i,
            forall|j: int| 0 <= j < i ==> out[j] == (pinned[j], true),
        decreases pinned.len() - i,
    {
        out.push((pinned[i], true));
        i += 1;
    }
    assert(out@ =~= Seq::new(pinned@.len(), |i: int| (pinned@[i], true)));
    match active {
        Some(id) => {
            if !contains_id(pinned, id) {
                out.push((id, false));
            }
        },
        None => {},
    }
    out
}

} // verus!
