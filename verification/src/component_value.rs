//! The value engine: given a value and the descriptor of its type, how the
//! value is to be shown and edited, and under which path an edit goes back.

use vstd::prelude::*;
use crate::assoc::strictly_sorted;
use crate::bevy_type;
use crate::component;
use crate::entity_item::{decode_entity, entity_of};
use crate::json::{height, lemma_found_member_height, lemma_item_height, views, Json, JsonView};
use crate::json_text::{display_text, value_to_string};
use crate::json_value::{raw_view, render_raw, RawNode, RawNodeView};
use crate::map_value::{coerce, coerced, is_vector_type, lemma_coerced_height};
use crate::paths::{array_path, get_array_path, get_object_path, object_path, path_text, path_view};
use crate::schema::{
    resolve, resolved, Schema, SchemaDescriptor, SchemaDescriptorView, SchemaKind, SchemaType,
};
use crate::text::{decimal, decimal_string, lex_lt, text_eq};

verus! {

/// By how much a numeric input moves.
#[derive(Debug, Clone, Copy, PartialEq, Eq, Structural)]
pub enum Step {
    /// By any amount.
    Any,
    /// By whole numbers.
    One,
}

/// What a numeric input accepts.
#[derive(Debug, Clone, Copy, PartialEq, Eq, Structural)]
pub struct NumberInput {
    /// The least number accepted, if there is one.
    pub min: Option<u64>,
    /// The step, if there is one.
    pub step: Option<Step>,
}

/// What a numeric input of the primitive type `schema_type` accepts: any
/// amount for a float, whole numbers for an integer, and none below zero
/// for an unsigned one.
pub open spec fn number_input_of(schema_type: SchemaType) -> NumberInput {
    match schema_type {
        SchemaType::Float => NumberInput { min: None, step: Some(Step::Any) },
        SchemaType::Int => NumberInput { min: None, step: Some(Step::One) },
        SchemaType::Uint => NumberInput { min: Some(0), step: Some(Step::One) },
        _ => NumberInput { min: None, step: None },
    }
}

/// What a numeric input of the primitive type `schema_type` accepts.
pub fn number_input(schema_type: SchemaType) -> (r: NumberInput)
    ensures
        r == number_input_of(schema_type),
{
    match schema_type {
        SchemaType::Float => NumberInput { min: None, step: Some(Step::Any) },
        SchemaType::Int => NumberInput { min: None, step: Some(Step::One) },
        SchemaType::Uint => NumberInput { min: Some(0), step: Some(Step::One) },
        _ => NumberInput { min: None, step: None },
    }
}

/// Whether a choice among `count` options is offered as a list that drops
/// down: it is where there are more than three.
pub fn uses_dropdown(count: usize) -> (r: bool)
    ensures
        r == (count > 3),
{
    count > 3
}

/// How a value of a type is handled.
#[derive(Debug, Clone, Copy, PartialEq, Eq, Structural)]
pub enum Strategy {
    /// Data that the remote side computes: shown, never edited.
    ReadOnly,
    /// The identifier of another entity.
    EntityReference,
    /// The name of an entity, edited as text.
    DisplayName,
    /// A tag without data.
    Marker,
    Boolean,
    Number,
    Text,
    /// One of a closed set of values.
    Choice,
    List,
    /// One value in a wrapper.
    TupleStruct,
    Struct,
    /// Shown by its shape, without the schema.
    Fallback,
}

/// Whether values of the type `type_path` are computed by the remote side
/// and only shown.
pub open spec fn is_read_only(type_path: Seq<char>) -> bool {
    ||| type_path == component::COMPUTED_NODE_TARGET@
    ||| type_path == component::COMPUTED_NODE@
    ||| type_path == component::COMPUTED_TEXT_BLOCK@
    ||| type_path == component::GLOBAL_TRANSFORM@
    ||| type_path == component::POINTER_PRESS@
    ||| type_path == component::MONITOR@
    ||| type_path == component::TEXT_LAYOUT_INFO@
}

/// Whether the structure of the type decides how its values are handled:
/// the strategy is one chosen by primitive type and kind.
pub open spec fn is_structural(strategy: Strategy) -> bool {
    match strategy {
        Strategy::ReadOnly | Strategy::EntityReference | Strategy::DisplayName | Strategy::Marker => false,
        _ => true,
    }
}

/// How values of the type that `d` describes are handled. In this order:
/// computed data is read-only; identifiers and names are known by their
/// type path; a marker is a marker; then primitive type and kind decide,
/// and what they do not cover falls back to the value's own shape. So does
/// a struct that declares no property and allows any.
pub open spec fn strategy_of(d: SchemaDescriptorView) -> Strategy {
    if is_read_only(d.type_path) {
        Strategy::ReadOnly
    } else if d.type_path == bevy_type::ENTITY@ {
        Strategy::EntityReference
    } else if d.type_path == component::NAME@ {
        Strategy::DisplayName
    } else if d.is_marker() {
        Strategy::Marker
    } else {
        match (d.schema_type, d.kind) {
            (SchemaType::Boolean, SchemaKind::Value) => Strategy::Boolean,
            (SchemaType::Float, SchemaKind::Value) => Strategy::Number,
            (SchemaType::Int, SchemaKind::Value) => Strategy::Number,
            (SchemaType::Uint, SchemaKind::Value) => Strategy::Number,
            (SchemaType::String, SchemaKind::Value) => Strategy::Text,
            (SchemaType::String, SchemaKind::Enum) => Strategy::Choice,
            (SchemaType::Array, SchemaKind::List) => Strategy::List,
            (SchemaType::Array, SchemaKind::TupleStruct) => Strategy::TupleStruct,
            (SchemaType::Object, SchemaKind::Struct) => if d.additional_properties == Some(true)
                && d.properties.len() == 0 {
                Strategy::Fallback
            } else {
                Strategy::Struct
            },
            _ => Strategy::Fallback,
        }
    }
}

/// A marker is never handled by its structure.
pub proof fn lemma_marker_is_not_dispatched(d: SchemaDescriptorView)
    requires
        d.is_marker(),
    ensures
        !is_structural(strategy_of(d)),
        !is_read_only(d.type_path) && d.type_path != bevy_type::ENTITY@ && d.type_path
            != component::NAME@ ==> strategy_of(d) == Strategy::Marker,
{
}

fn read_only(type_path: &str) -> (r: bool)
    ensures
        r == is_read_only(type_path@),
{
    text_eq(type_path, component::COMPUTED_NODE_TARGET) || text_eq(
        type_path,
        component::COMPUTED_NODE,
    ) || text_eq(type_path, component::COMPUTED_TEXT_BLOCK) || text_eq(
        type_path,
        component::GLOBAL_TRANSFORM,
    ) || text_eq(type_path, component::POINTER_PRESS) || text_eq(type_path, component::MONITOR)
        || text_eq(type_path, component::TEXT_LAYOUT_INFO)
}

/// How values of the type that `descriptor` describes are handled.
pub fn strategy(descriptor: &SchemaDescriptor) -> (r: Strategy)
    ensures
        r == strategy_of(descriptor@),
{
    let type_path = descriptor.type_path.as_str();
    if read_only(type_path) {
        Strategy::ReadOnly
    } else if text_eq(type_path, bevy_type::ENTITY) {
        Strategy::EntityReference
    } else if text_eq(type_path, component::NAME) {
        Strategy::DisplayName
    } else if descriptor.is_marker() {
        Strategy::Marker
    } else {
        match (descriptor.schema_type, descriptor.kind) {
            (SchemaType::Boolean, SchemaKind::Value) => Strategy::Boolean,
            (SchemaType::Float, SchemaKind::Value) => Strategy::Number,
            (SchemaType::Int, SchemaKind::Value) => Strategy::Number,
            (SchemaType::Uint, SchemaKind::Value) => Strategy::Number,
            (SchemaType::String, SchemaKind::Value) => Strategy::Text,
            (SchemaType::String, SchemaKind::Enum) => Strategy::Choice,
            (SchemaType::Array, SchemaKind::List) => Strategy::List,
            (SchemaType::Array, SchemaKind::TupleStruct) => Strategy::TupleStruct,
            (SchemaType::Object, SchemaKind::Struct) => {
                let open = match descriptor.additional_properties {
                    Some(b) => b,
                    None => false,
                };
                if open && descriptor.properties.is_empty() {
                    Strategy::Fallback
                } else {
                    Strategy::Struct
                }
            },
            _ => Strategy::Fallback,
        }
    }
}

/// A value as it is shown and edited.
#[derive(Debug, PartialEq, Eq)]
pub enum ValueNode {
    /// Shown by its shape; no edit goes back.
    Raw(RawNode),
    /// The identifier of an entity.
    EntityReference(u64),
    /// What should be the identifier of an entity and is none.
    InvalidEntity,
    /// A tag without data.
    Marker,
    /// A switch; an edit goes back under `path`.
    Boolean { checked: bool, path: String },
    /// A numeric input; an edit goes back under `path`.
    Number { value: String, input: NumberInput, path: String },
    /// A text input; an edit goes back under `path`.
    Text { value: String, path: String },
    /// A choice among `options`; an edit goes back under `path`.
    Choice { value: String, options: Vec<String>, path: String },
    /// The items of a list, each with its path.
    List(Vec<(String, ValueNode)>),
    /// The properties of a struct, each with its name, in the order of the
    /// names.
    Struct(Vec<(String, ValueNode)>),
    /// The type of the items, or of the wrapped value, is not in the
    /// registry; the reference that was followed, if there was one.
    TypeNotFound(Option<Json>),
    /// The type of a property is not in the registry.
    UnknownProperty,
    /// The value has no member for a property.
    MissingValue,
    /// More wrappers were opened in a row than the registry has types: one
    /// of them wraps itself.
    Cyclic,
}

/// The content of a [`ValueNode`].
pub enum ValueNodeView {
    Raw(RawNodeView),
    EntityReference(u64),
    InvalidEntity,
    Marker,
    Boolean { checked: bool, path: Seq<char> },
    Number { value: Seq<char>, input: NumberInput, path: Seq<char> },
    Text { value: Seq<char>, path: Seq<char> },
    Choice { value: Seq<char>, options: Seq<Seq<char>>, path: Seq<char> },
    List(Seq<(Seq<char>, ValueNodeView)>),
    Struct(Seq<(Seq<char>, ValueNodeView)>),
    TypeNotFound(Option<JsonView>),
    UnknownProperty,
    MissingValue,
    Cyclic,
}

/// The content of a node.
pub open spec fn value_node_view(node: ValueNode) -> ValueNodeView
    decreases node,
{
    match node {
        ValueNode::Raw(raw) => ValueNodeView::Raw(raw@),
        ValueNode::EntityReference(id) => ValueNodeView::EntityReference(id),
        ValueNode::InvalidEntity => ValueNodeView::InvalidEntity,
        ValueNode::Marker => ValueNodeView::Marker,
        ValueNode::Boolean { checked, path } => ValueNodeView::Boolean { checked, path: path@ },
        ValueNode::Number { value, input, path } => ValueNodeView::Number {
            value: value@,
            input,
            path: path@,
        },
        ValueNode::Text { value, path } => ValueNodeView::Text { value: value@, path: path@ },
        ValueNode::Choice { value, options, path } => ValueNodeView::Choice {
            value: value@,
            options: Seq::new(options.len() as nat, |i: int| options[i]@),
            path: path@,
        },
        ValueNode::List(entries) => ValueNodeView::List(
            Seq::new(
                entries.len() as nat,
                |i: int|
                    if 0 <= i < entries.len() {
                        (entries[i].0@, value_node_view(entries[i].1))
                    } else {
                        (Seq::empty(), ValueNodeView::Marker)
                    },
            ),
        ),
        ValueNode::Struct(entries) => ValueNodeView::Struct(
            Seq::new(
                entries.len() as nat,
                |i: int|
                    if 0 <= i < entries.len() {
                        (entries[i].0@, value_node_view(entries[i].1))
                    } else {
                        (Seq::empty(), ValueNodeView::Marker)
                    },
            ),
        ),
        ValueNode::TypeNotFound(reference) => ValueNodeView::TypeNotFound(
            match reference {
                Some(r) => Some(r@),
                None => None,
            },
        ),
        ValueNode::UnknownProperty => ValueNodeView::UnknownProperty,
        ValueNode::MissingValue => ValueNodeView::MissingValue,
        ValueNode::Cyclic => ValueNodeView::Cyclic,
    }
}

impl View for ValueNode {
    type V = ValueNodeView;

    open spec fn view(&self) -> ValueNodeView {
        value_node_view(*self)
    }
}

/// The contents of a list of nodes.
pub open spec fn node_views(entries: Seq<(String, ValueNode)>) -> Seq<(Seq<char>, ValueNodeView)> {
    Seq::new(entries.len(), |i: int| (entries[i].0@, entries[i].1@))
}

/// The content of a list node is the contents of its entries.
pub proof fn lemma_list_view(entries: Vec<(String, ValueNode)>)
    ensures
        ValueNode::List(entries)@ == ValueNodeView::List(node_views(entries@)),
        ValueNode::Struct(entries)@ == ValueNodeView::Struct(node_views(entries@)),
{
    let a = match ValueNode::List(entries)@ {
        ValueNodeView::List(e) => e,
        _ => Seq::empty(),
    };
    assert(a =~= node_views(entries@));
    let b = match ValueNode::Struct(entries)@ {
        ValueNodeView::Struct(e) => e,
        _ => Seq::empty(),
    };
    assert(b =~= node_views(entries@));
}

/// How many wrappers may be opened in a row: as many as the registry has
/// types.
pub open spec fn budget(schema: Schema) -> nat {
    schema.pairs().len()
}

/// The texts of the values that an enum allows.
pub open spec fn option_texts(one_of: Seq<JsonView>) -> Seq<Seq<char>> {
    Seq::new(one_of.len(), |i: int| display_text(one_of[i]))
}

/// The first of `items`, if there is one.
pub open spec fn first_of(items: Seq<JsonView>) -> Option<JsonView> {
    if items.len() > 0 {
        Some(items[0])
    } else {
        None
    }
}

/// How many items the value has as an array.
pub open spec fn item_count(v: JsonView) -> nat {
    match v {
        JsonView::Array(items) => items.len(),
        _ => 0,
    }
}

/// How the value `value` of the type that `d` describes is shown and
/// edited, where `parent` is the path that leads to it and `fuel` says how
/// many wrappers may still be opened in a row.
///
/// The value is first brought into the shape that the schema describes.
/// Then the strategy of its type decides. An edit of a leaf goes back
/// under the path of the leaf. The items of a list are of the type that
/// the list's `items` refers to; item `i` has the path of the list with
/// `[i]` after it. A wrapper is opened: what it holds is the same value,
/// of the type that the first of `prefix_items` refers to, under the path
/// with `.0` after it. The properties of a struct come in the order of
/// their names; the property `name` has the path with `.name` after it.
pub open spec fn rendered(
    value: JsonView,
    d: SchemaDescriptorView,
    schema: Schema,
    parent: Option<Seq<char>>,
    fuel: nat,
) -> ValueNodeView
    decreases height(value), fuel + 1, 0nat,
{
    let v = coerced(d.type_path, value);
    let here = path_text(parent);
    match strategy_of(d) {
        Strategy::ReadOnly => ValueNodeView::Raw(raw_view(v, Some(here))),
        Strategy::EntityReference => match entity_of(v) {
            Some(id) => ValueNodeView::EntityReference(id),
            None => ValueNodeView::InvalidEntity,
        },
        Strategy::DisplayName => ValueNodeView::Text { value: display_text(v), path: here },
        Strategy::Marker => ValueNodeView::Marker,
        Strategy::Boolean => ValueNodeView::Boolean {
            checked: v == JsonView::Bool(true),
            path: here,
        },
        Strategy::Number => ValueNodeView::Number {
            value: display_text(v),
            input: number_input_of(d.schema_type),
            path: here,
        },
        Strategy::Text => ValueNodeView::Text { value: display_text(v), path: here },
        Strategy::Choice => ValueNodeView::Choice {
            value: display_text(v),
            options: option_texts(d.one_of),
            path: here,
        },
        Strategy::List => match d.items {
            None => ValueNodeView::TypeNotFound(None),
            Some(reference) => match resolved(schema, reference) {
                None => ValueNodeView::TypeNotFound(Some(reference)),
                Some(item_type) => {
                    proof {
                        lemma_coerced_height(d.type_path, value);
                    }
                    ValueNodeView::List(rendered_items(v, item_count(v), item_type, schema, parent))
                },
            },
        },
        Strategy::TupleStruct => match first_of(d.prefix_items) {
            None => ValueNodeView::TypeNotFound(None),
            Some(reference) => match resolved(schema, reference) {
                None => ValueNodeView::TypeNotFound(Some(reference)),
                Some(inner) => if fuel == 0 {
                    ValueNodeView::Cyclic
                } else {
                    proof {
                        lemma_coerced_height(d.type_path, value);
                    }
                    rendered(v, inner, schema, Some(object_path(parent, "0"@)), (fuel - 1) as nat)
                },
            },
        },
        Strategy::Struct => {
            proof {
                lemma_coerced_height(d.type_path, value);
            }
            ValueNodeView::Struct(
                rendered_fields(v, d.properties, d.properties.len(), schema, parent),
            )
        },
        Strategy::Fallback => ValueNodeView::Raw(raw_view(v, None)),
    }
}

/// The first `n` items of the array `v`, each with its path and shown as a
/// value of the type that `item_type` describes.
pub open spec fn rendered_items(
    v: JsonView,
    n: nat,
    item_type: SchemaDescriptorView,
    schema: Schema,
    parent: Option<Seq<char>>,
) -> Seq<(Seq<char>, ValueNodeView)>
    decreases height(v), 0nat, n,
{
    match v {
        JsonView::Array(items) => if n == 0 || n > items.len() {
            Seq::empty()
        } else {
            let path = array_path(parent, decimal((n - 1) as nat));
            proof {
                lemma_item_height(items, n - 1);
            }
            rendered_items(v, (n - 1) as nat, item_type, schema, parent).push(
                (path, rendered(items[n - 1], item_type, schema, Some(path), budget(schema))),
            )
        },
        _ => Seq::empty(),
    }
}

/// The first `n` of the properties `properties`, each with its name and
/// the member of that name of `v`, shown as a value of the type that the
/// property refers to.
pub open spec fn rendered_fields(
    v: JsonView,
    properties: Seq<(Seq<char>, JsonView)>,
    n: nat,
    schema: Schema,
    parent: Option<Seq<char>>,
) -> Seq<(Seq<char>, ValueNodeView)>
    decreases height(v), 0nat, n,
{
    if n == 0 || n > properties.len() {
        Seq::empty()
    } else {
        let name = properties[n - 1].0;
        let node = match resolved(schema, properties[n - 1].1) {
            None => ValueNodeView::UnknownProperty,
            Some(property_type) => match v.member(name) {
                None => ValueNodeView::MissingValue,
                Some(member) => {
                    proof {
                        lemma_found_member_height(v, name);
                    }
                    rendered(
                        member,
                        property_type,
                        schema,
                        Some(object_path(parent, name)),
                        budget(schema),
                    )
                },
            },
        };
        rendered_fields(v, properties, (n - 1) as nat, schema, parent).push((name, node))
    }
}

fn option_strings(one_of: &Vec<Json>) -> (r: Vec<String>)
    ensures
        Seq::new(r@.len(), |i: int| r@[i]@) == option_texts(views(one_of@)),
{
    let mut out: Vec<String> = Vec::new();
    let mut i: usize = 0;
    while i < one_of.len()
        invariant
            i <= one_of.len(),
            out.len() == i,
            forall|j: int| 0 <= j < i ==> out[j]@ == display_text(one_of[j]@),
        decreases one_of.len() - i,
    {
        out.push(value_to_string(&one_of[i]));
        i += 1;
    }
    assert(Seq::new(out@.len(), |i: int| out@[i]@) =~= option_texts(views(one_of@)));
    out
}

/// There is one field for each property, under the property's name and in
/// the properties' order.
pub proof fn lemma_fields_follow_properties(
    v: JsonView,
    properties: Seq<(Seq<char>, JsonView)>,
    n: nat,
    schema: Schema,
    parent: Option<Seq<char>>,
)
    requires
        n <= properties.len(),
    ensures
        rendered_fields(v, properties, n, schema, parent).len() == n,
        forall|i: int|
            0 <= i < n ==> (#[trigger] rendered_fields(v, properties, n, schema, parent)[i]).0
                == properties[i].0,
    decreases n,
{
    if n > 0 {
        lemma_fields_follow_properties(v, properties, (n - 1) as nat, schema, parent);
    }
}

/// A list that arrives as an array is shown item by item, item `i` under
/// the path of the list with `[i]` after it. An array of a type that is a
/// vector by its own type path is no such list: it has become an object
/// before its strategy is looked at.
pub proof fn lemma_list_is_shown_by_items(
    items: Seq<JsonView>,
    d: SchemaDescriptorView,
    schema: Schema,
    parent: Option<Seq<char>>,
    fuel: nat,
    i: int,
)
    requires
        strategy_of(d) == Strategy::List,
        !is_vector_type(d.type_path),
        d.items is Some,
        resolved(schema, d.items.unwrap()) is Some,
        0 <= i < items.len(),
    ensures
        rendered(JsonView::Array(items), d, schema, parent, fuel) matches ValueNodeView::List(nodes)
            && nodes.len() == items.len() && nodes[i] == (
            array_path(parent, decimal(i as nat)),
            rendered(
                items[i],
                resolved(schema, d.items.unwrap()).unwrap(),
                schema,
                Some(array_path(parent, decimal(i as nat))),
                budget(schema),
            ),
        ),
{
    let item_type = resolved(schema, d.items.unwrap()).unwrap();
    lemma_items_follow_array(items, items.len(), item_type, schema, parent, i);
}

/// A list whose own type path is that of a vector shows no item of an
/// array: the array has become an object, and an object has no items.
pub proof fn lemma_vector_list_is_empty(
    items: Seq<JsonView>,
    d: SchemaDescriptorView,
    schema: Schema,
    parent: Option<Seq<char>>,
    fuel: nat,
)
    requires
        strategy_of(d) == Strategy::List,
        is_vector_type(d.type_path),
        d.items is Some,
        resolved(schema, d.items.unwrap()) is Some,
    ensures
        rendered(JsonView::Array(items), d, schema, parent, fuel) == ValueNodeView::List(
            Seq::empty(),
        ),
{
    let v = coerced(d.type_path, JsonView::Array(items));
    let item_type = resolved(schema, d.items.unwrap()).unwrap();
    assert(v is Object);
    assert(item_count(v) == 0);
    assert(rendered_items(v, 0, item_type, schema, parent) =~= Seq::empty());
}

/// There is one node for each item of an array, and the node at `i` is the
/// item at `i`, shown under the path with `[i]` after it and bound to that
/// path.
pub proof fn lemma_items_follow_array(
    items: Seq<JsonView>,
    n: nat,
    item_type: SchemaDescriptorView,
    schema: Schema,
    parent: Option<Seq<char>>,
    i: int,
)
    requires
        0 <= i < n <= items.len(),
    ensures
        rendered_items(JsonView::Array(items), n, item_type, schema, parent).len() == n,
        rendered_items(JsonView::Array(items), n, item_type, schema, parent)[i] == (
            array_path(parent, decimal(i as nat)),
            rendered(
                items[i],
                item_type,
                schema,
                Some(array_path(parent, decimal(i as nat))),
                budget(schema),
            ),
        ),
    decreases n,
{
    lemma_items_count(items, n, item_type, schema, parent);
    if i < n - 1 {
        lemma_items_follow_array(items, (n - 1) as nat, item_type, schema, parent, i);
    } else {
        lemma_items_count(items, (n - 1) as nat, item_type, schema, parent);
    }
}

/// There is one node for each item of an array.
pub proof fn lemma_items_count(
    items: Seq<JsonView>,
    n: nat,
    item_type: SchemaDescriptorView,
    schema: Schema,
    parent: Option<Seq<char>>,
)
    requires
        n <= items.len(),
    ensures
        rendered_items(JsonView::Array(items), n, item_type, schema, parent).len() == n,
    decreases n,
{
    if n > 0 {
        lemma_items_count(items, (n - 1) as nat, item_type, schema, parent);
    }
}

/// An input is bound to the path that leads to its value: whatever the
/// value, a switch, a numeric input, a text input and a choice carry the
/// path under which they were reached, and that is the empty path at the
/// root of a component.
pub proof fn lemma_input_is_bound_to_its_path(
    value: JsonView,
    d: SchemaDescriptorView,
    schema: Schema,
    parent: Option<Seq<char>>,
    fuel: nat,
)
    ensures
        match strategy_of(d) {
            Strategy::Boolean => rendered(value, d, schema, parent, fuel) matches ValueNodeView::Boolean {
                path,
                ..
            } && path == path_text(parent),
            Strategy::Number => rendered(value, d, schema, parent, fuel) matches ValueNodeView::Number {
                path,
                input,
                ..
            } && path == path_text(parent) && input == number_input_of(d.schema_type),
            Strategy::Text | Strategy::DisplayName => rendered(value, d, schema, parent, fuel) matches ValueNodeView::Text {
                path,
                ..
            } && path == path_text(parent),
            Strategy::Choice => rendered(value, d, schema, parent, fuel) matches ValueNodeView::Choice {
                path,
                ..
            } && path == path_text(parent),
            _ => true,
        },
        path_text(None) == Seq::<char>::empty(),
{
}

/// Nothing that is read-only or falls back to its own shape carries an
/// input: such a value is shown raw.
pub proof fn lemma_read_only_has_no_input(
    value: JsonView,
    d: SchemaDescriptorView,
    schema: Schema,
    parent: Option<Seq<char>>,
    fuel: nat,
)
    requires
        strategy_of(d) == Strategy::ReadOnly || strategy_of(d) == Strategy::Fallback,
    ensures
        rendered(value, d, schema, parent, fuel) is Raw,
{
}

/// A marker is shown as a marker, never by its structure: unless its type
/// path makes it read-only, an identifier or a name, the node is
/// [`ValueNodeView::Marker`], and in no case a list, a struct or an input
/// chosen by primitive type and kind.
pub proof fn lemma_marker_rendering(
    value: JsonView,
    d: SchemaDescriptorView,
    schema: Schema,
    parent: Option<Seq<char>>,
    fuel: nat,
)
    requires
        d.is_marker(),
    ensures
        match rendered(value, d, schema, parent, fuel) {
            ValueNodeView::Marker => strategy_of(d) == Strategy::Marker,
            ValueNodeView::Raw(_) => strategy_of(d) == Strategy::ReadOnly,
            ValueNodeView::EntityReference(_) => strategy_of(d) == Strategy::EntityReference,
            ValueNodeView::InvalidEntity => strategy_of(d) == Strategy::EntityReference,
            ValueNodeView::Text { .. } => strategy_of(d) == Strategy::DisplayName,
            _ => false,
        },
{
}

/// How the value `value` of the type that `descriptor` describes is shown
/// and edited, where `parent_path` is the path that leads to it and
/// `schema` the registry in which references are looked up. The fields of
/// a struct come in the strictly increasing order of their names.
pub fn interpret(
    value: &Json,
    descriptor: &SchemaDescriptor,
    schema: &Schema,
    parent_path: &Option<String>,
) -> (r: ValueNode)
    ensures
        r@ == rendered(value@, descriptor@, *schema, path_view(*parent_path), budget(*schema)),
        strategy_of(descriptor@) == Strategy::Struct ==> (r@ matches ValueNodeView::Struct(fields)
            && fields.len() == descriptor@.properties.len() && strictly_sorted(fields) && forall|
            i: int,
        |
            0 <= i < fields.len() ==> (#[trigger] fields[i]).0 == descriptor@.properties[i].0),
{
    let count = descriptor.properties.len();
    let node = interpret_bounded(value, descriptor, schema, parent_path, schema.len());
    proof {
        if strategy_of(descriptor@) == Strategy::Struct {
            let d = descriptor@;
            let v = coerced(d.type_path, value@);
            let parent = path_view(*parent_path);
            let fields = rendered_fields(v, d.properties, d.properties.len(), *schema, parent);
            lemma_fields_follow_properties(v, d.properties, d.properties.len(), *schema, parent);
            assert(node@ == ValueNodeView::Struct(fields));
            let pairs = descriptor.properties.pairs();
            assert forall|i: int, j: int| 0 <= i < j < fields.len() implies lex_lt(
                (#[trigger] fields[i]).0,
                (#[trigger] fields[j]).0,
            ) by {
                assert(fields[i].0 == d.properties[i].0);
                assert(fields[j].0 == d.properties[j].0);
                assert(d.properties[i].0 == pairs[i].0);
                assert(d.properties[j].0 == pairs[j].0);
            }
        }
    }
    node
}

#[verifier::loop_isolation(false)]
#[verifier::rlimit(40)]
fn interpret_bounded(
    value: &Json,
    descriptor: &SchemaDescriptor,
    schema: &Schema,
    parent_path: &Option<String>,
    fuel: usize,
) -> (r: ValueNode)
    ensures
        r@ == rendered(value@, descriptor@, *schema, path_view(*parent_path), fuel as nat),
    decreases height(value@), fuel,
{
    let ghost parent = path_view(*parent_path);
    let ghost d = descriptor@;
    let coerced_value = coerce(descriptor.type_path.as_str(), value);
    let v: &Json = match &coerced_value {
        Some(c) => c,
        None => value,
    };
    proof {
        lemma_coerced_height(d.type_path, value@);
    }
    assert(v@ == coerced(d.type_path, value@));
    let here: String = match parent_path {
        Some(p) => p.clone(),
        None => String::new(),
    };
    assert(here@ == path_text(parent));
    match strategy(descriptor) {
        Strategy::ReadOnly => {
            let shown_from = Some(here);
            ValueNode::Raw(render_raw(v, &shown_from))
        },
        Strategy::EntityReference => match decode_entity(v) {
            Some(id) => ValueNode::EntityReference(id),
            None => ValueNode::InvalidEntity,
        },
        Strategy::DisplayName => ValueNode::Text { value: value_to_string(v), path: here },
        Strategy::Marker => ValueNode::Marker,
        Strategy::Boolean => {
            let on = match v.as_bool() {
                Some(b) => b,
                None => false,
            };
            ValueNode::Boolean { checked: on, path: here }
        },
        Strategy::Number => ValueNode::Number {
            value: value_to_string(v),
            input: number_input(descriptor.schema_type),
            path: here,
        },
        Strategy::Text => ValueNode::Text { value: value_to_string(v), path: here },
        Strategy::Choice => {
            let options = option_strings(&descriptor.one_of);
            let node = ValueNode::Choice { value: value_to_string(v), options, path: here };
            proof {
                let shown = match node@ {
                    ValueNodeView::Choice { options: o, .. } => o,
                    _ => Seq::empty(),
                };
                assert(shown =~= option_texts(d.one_of));
            }
            node
        },
        Strategy::List => match &descriptor.items {
            None => ValueNode::TypeNotFound(None),
            Some(reference) => match resolve(schema, reference) {
                None => ValueNode::TypeNotFound(Some(reference.duplicate())),
                Some(item_type) => {
                    let mut entries: Vec<(String, ValueNode)> = Vec::new();
                    match v.as_array() {
                        Some(items) => {
                            let ghost all = views(items@);
                            assert(v@ == JsonView::Array(all));
                            let mut i: usize = 0;
                            while i < items.len()
                                invariant
                                    i <= items.len(),
                                    node_views(entries@) == rendered_items(
                                        v@,
                                        i as nat,
                                        item_type@,
                                        *schema,
                                        parent,
                                    ),
                                decreases items.len() - i,
                            {
                                let index = decimal_string(i as u64);
                                let path = get_array_path(parent_path, index.as_str());
                                let child_parent = Some(path.clone());
                                proof {
                                    lemma_item_height(all, i as int);
                                    assert(all[i as int] == items[i as int]@);
                                }
                                let node = interpret_bounded(
                                    &items[i],
                                    item_type,
                                    schema,
                                    &child_parent,
                                    schema.len(),
                                );
                                let ghost before = node_views(entries@);
                                entries.push((path, node));
                                proof {
                                    assert(node_views(entries@) =~= before.push((path@, node@)));
                                }
                                i += 1;
                            }
                            assert(item_count(v@) == items.len());
                        },
                        None => {
                            assert(node_views(entries@) =~= Seq::empty());
                            assert(item_count(v@) == 0);
                        },
                    }
                    assert(node_views(entries@) == rendered_items(
                        v@,
                        item_count(v@),
                        item_type@,
                        *schema,
                        parent,
                    ));
                    proof {
                        lemma_list_view(entries);
                    }
                    ValueNode::List(entries)
                },
            },
        },
        Strategy::TupleStruct => {
            if descriptor.prefix_items.len() == 0 {
                ValueNode::TypeNotFound(None)
            } else {
                let reference = &descriptor.prefix_items[0];
                assert(first_of(d.prefix_items) == Some(reference@));
                match resolve(schema, reference) {
                    None => ValueNode::TypeNotFound(Some(reference.duplicate())),
                    Some(inner) => {
                        if fuel == 0 {
                            ValueNode::Cyclic
                        } else {
                            let path = get_object_path(parent_path, "0");
                            let child_parent = Some(path);
                            interpret_bounded(v, inner, schema, &child_parent, fuel - 1)
                        }
                    },
                }
            }
        },
        Strategy::Struct => {
            let properties = &descriptor.properties;
            let ghost all = d.properties;
            let count = properties.len();
            let mut entries: Vec<(String, ValueNode)> = Vec::new();
            let mut i: usize = 0;
            assert(node_views(entries@) =~= Seq::empty());
            while i < count
                invariant
                    i <= count,
                    count == all.len(),
                    node_views(entries@) == rendered_fields(v@, all, i as nat, *schema, parent),
                decreases count - i,
            {
                let name = properties.key_at(i);
                let reference = properties.value_at(i);
                assert(all[i as int] == (name@, reference@));
                let node = match resolve(schema, reference) {
                    None => ValueNode::UnknownProperty,
                    Some(property_type) => match v.get(name.as_str()) {
                        None => ValueNode::MissingValue,
                        Some(member) => {
                            let path = get_object_path(parent_path, name.as_str());
                            let child_parent = Some(path);
                            proof {
                                lemma_found_member_height(v@, name@);
                            }
                            interpret_bounded(
                                member,
                                property_type,
                                schema,
                                &child_parent,
                                schema.len(),
                            )
                        },
                    },
                };
                let ghost before = node_views(entries@);
                let key = name.clone();
                entries.push((key, node));
                proof {
                    assert(node_views(entries@) =~= before.push((name@, node@)));
                }
                i += 1;
            }
            proof {
                lemma_list_view(entries);
            }
            ValueNode::Struct(entries)
        },
        Strategy::Fallback => ValueNode::Raw(render_raw(v, &None)),
    }
}

} // verus!
