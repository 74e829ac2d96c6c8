//! One entity as a query found it: its identifier and its components.

use vstd::prelude::*;
use crate::assoc::{
    distinct_keys, find, has_key, lemma_find_has_key, lemma_find_push, lemma_sorted_distinct,
    strictly_sorted,
};
use crate::bevy::{component_error_code, entity_from_bits, is_entity_bits};
use crate::component;
use crate::error::{error_object, BrpError};
use crate::json::{duplicate_members, member_views, views, Json, JsonView};
use crate::text_map::TextMap;

verus! {

/// The reply to a request for components of one entity.
#[derive(Debug, PartialEq, Eq)]
pub enum GetComponentsResponse {
    /// The components that could be read, and an error for each that could
    /// not.
    Lenient { components: Vec<(String, Json)>, errors: Vec<(String, Json)> },
    /// The components, all of them read.
    Strict(Vec<(String, Json)>),
}

/// One row of the reply to a query.
#[derive(Debug, PartialEq, Eq)]
pub struct QueryRow {
    /// The entity that matched.
    pub entity: u64,
    /// The components asked for that the entity has, with their values.
    pub components: Vec<(String, Json)>,
    /// For each component asked about, whether the entity has it.
    pub has: Vec<(String, Json)>,
}

/// The content of a [`QueryRow`].
pub struct QueryRowView {
    pub entity: u64,
    pub components: Seq<(Seq<char>, JsonView)>,
    pub has: Seq<(Seq<char>, JsonView)>,
}

impl View for QueryRow {
    type V = QueryRowView;

    open spec fn view(&self) -> QueryRowView {
        QueryRowView {
            entity: self.entity,
            components: member_views(self.components@),
            has: member_views(self.has@),
        }
    }
}

/// The content of a [`GetComponentsResponse`].
pub enum GetComponentsResponseView {
    Lenient { components: Seq<(Seq<char>, JsonView)>, errors: Seq<(Seq<char>, JsonView)> },
    Strict(Seq<(Seq<char>, JsonView)>),
}

impl View for GetComponentsResponse {
    type V = GetComponentsResponseView;

    open spec fn view(&self) -> GetComponentsResponseView {
        match self {
            GetComponentsResponse::Lenient { components, errors } => {
                GetComponentsResponseView::Lenient {
                    components: member_views(components@),
                    errors: member_views(errors@),
                }
            },
            GetComponentsResponse::Strict(components) => GetComponentsResponseView::Strict(
                member_views(components@),
            ),
        }
    }
}

/// The identifier that a value holds: an unsigned integer of 64 bits that
/// is the bit pattern of an entity.
pub open spec fn entity_of(value: JsonView) -> Option<u64> {
    match value.as_u64() {
        Some(bits) => if is_entity_bits(bits) {
            Some(bits)
        } else {
            None
        },
        None => None,
    }
}

/// The identifiers that a value holds: an array of them.
pub open spec fn entities_of(value: JsonView) -> Option<Seq<u64>> {
    match value {
        JsonView::Array(items) => if forall|i: int|
            0 <= i < items.len() ==> entity_of(#[trigger] items[i]) is Some {
            Some(Seq::new(items.len(), |i: int| entity_of(items[i]).unwrap()))
        } else {
            None
        },
        _ => None,
    }
}

/// Reads an entity's identifier.
pub fn decode_entity(value: &Json) -> (r: Option<u64>)
    ensures
        r == entity_of(value@),
{
    match value.as_u64() {
        Some(bits) => entity_from_bits(bits),
        None => None,
    }
}

/// Reads a list of entities' identifiers.
#[verifier::loop_isolation(false)]
pub fn decode_entities(value: &Json) -> (r: Option<Vec<u64>>)
    ensures
        r is Some == entities_of(value@) is Some,
        r matches Some(ids) ==> Some(ids@) == entities_of(value@),
{
    match value.as_array() {
        Some(items) => {
            let mut ids: Vec<u64> = Vec::new();
            let mut i: usize = 0;
            while i < items.len()
                invariant
                    i <= items.len(),
                    ids.len() == i,
                    forall|j: int| 0 <= j < i ==> entity_of(#[trigger] views(items@)[j]) == Some(ids[j]),
                decreases items.len() - i,
            {
                match decode_entity(&items[i]) {
                    Some(id) => {
                        ids.push(id);
                    },
                    None => {
                        assert(entity_of(views(items@)[i as int]) is None);
                        return None;
                    },
                }
                i += 1;
            }
            assert(ids@ =~= entities_of(value@).unwrap());
            Some(ids)
        },
        None => None,
    }
}

/// The reply to a request for components that the value `v` holds. An
/// object whose members `components` and `errors` are both objects is a
/// lenient reply; any other object is a strict one, its members the
/// components.
pub open spec fn get_components_shape(v: JsonView) -> Option<GetComponentsResponseView> {
    match v {
        JsonView::Object(members) => match (find(members, "components"@), find(members, "errors"@)) {
            (Some(JsonView::Object(components)), Some(JsonView::Object(errors))) => Some(
                GetComponentsResponseView::Lenient { components, errors },
            ),
            _ => Some(GetComponentsResponseView::Strict(members)),
        },
        _ => None,
    }
}

/// The row of a query that the value `v` holds: an object with an
/// identifier `entity` and an object `components`; its member `has`, where
/// there is one, is an object too.
pub open spec fn query_row_shape(v: JsonView) -> Option<QueryRowView> {
    match (v.member("entity"@), v.member("components"@)) {
        (Some(e), Some(JsonView::Object(components))) => match entity_of(e) {
            Some(entity) => match v.member("has"@) {
                None => Some(QueryRowView { entity, components, has: Seq::empty() }),
                Some(JsonView::Object(has)) => Some(QueryRowView { entity, components, has }),
                Some(_) => None,
            },
            None => None,
        },
        _ => None,
    }
}

/// The rows of a query that the value `v` holds: an array of rows.
pub open spec fn query_rows_shape(v: JsonView) -> Option<Seq<QueryRowView>> {
    match v {
        JsonView::Array(items) => if forall|i: int|
            0 <= i < items.len() ==> query_row_shape(#[trigger] items[i]) is Some {
            Some(Seq::new(items.len(), |i: int| query_row_shape(items[i]).unwrap()))
        } else {
            None
        },
        _ => None,
    }
}

impl GetComponentsResponse {
    /// Reads the reply to a request for components.
    pub fn decode(value: &Json) -> (r: Option<GetComponentsResponse>)
        ensures
            r is Some == get_components_shape(value@) is Some,
            r matches Some(response) ==> Some(response@) == get_components_shape(value@),
    {
        match value.as_object() {
            Some(members) => {
                let components = match value.get("components") {
                    Some(c) => c.as_object(),
                    None => None,
                };
                let errors = match value.get("errors") {
                    Some(e) => e.as_object(),
                    None => None,
                };
                match (components, errors) {
                    (Some(c), Some(e)) => Some(
                        GetComponentsResponse::Lenient {
                            components: duplicate_members(c),
                            errors: duplicate_members(e),
                        },
                    ),
                    _ => Some(GetComponentsResponse::Strict(duplicate_members(members))),
                }
            },
            None => None,
        }
    }
}

impl QueryRow {
    /// Reads one row of the reply to a query.
    pub fn decode(value: &Json) -> (r: Option<QueryRow>)
        ensures
            r is Some == query_row_shape(value@) is Some,
            r matches Some(row) ==> Some(row@) == query_row_shape(value@),
    {
        let entity = match value.get("entity") {
            Some(e) => match decode_entity(e) {
                Some(id) => id,
                None => {
                    return None;
                },
            },
            None => {
                return None;
            },
        };
        let components = match value.get("components") {
            Some(c) => match c.as_object() {
                Some(members) => duplicate_members(members),
                None => {
                    return None;
                },
            },
            None => {
                return None;
            },
        };
        let has = match value.get("has") {
            Some(h) => match h.as_object() {
                Some(members) => duplicate_members(members),
                None => {
                    return None;
                },
            },
            None => {
                let empty: Vec<(String, Json)> = Vec::new();
                assert(member_views(empty@) =~= Seq::empty());
                empty
            },
        };
        Some(QueryRow { entity, components, has })
    }

    /// Reads the reply to a query: its rows, in order.
    #[verifier::loop_isolation(false)]
    pub fn decode_all(value: &Json) -> (r: Option<Vec<QueryRow>>)
        ensures
            r is Some == query_rows_shape(value@) is Some,
            r matches Some(rows) ==> Some(row_views(rows@)) == query_rows_shape(value@),
    {
        match value.as_array() {
            Some(items) => {
                let mut rows: Vec<QueryRow> = Vec::new();
                let mut i: usize = 0;
                while i < items.len()
                    invariant
                        i <= items.len(),
                        rows.len() == i,
                        forall|j: int|
                            0 <= j < i ==> query_row_shape(#[trigger] views(items@)[j]) == Some(
                                rows[j]@,
                            ),
                    decreases items.len() - i,
                {
                    match QueryRow::decode(&items[i]) {
                        Some(row) => {
                            rows.push(row);
                        },
                        None => {
                            assert(query_row_shape(views(items@)[i as int]) is None);
                            return None;
                        },
                    }
                    i += 1;
                }
                assert(row_views(rows@) =~= query_rows_shape(value@).unwrap());
                Some(rows)
            },
            None => None,
        }
    }
}

/// The contents of a sequence of rows.
pub open spec fn row_views(rows: Seq<QueryRow>) -> Seq<QueryRowView> {
    Seq::new(rows.len(), |i: int| rows[i]@)
}

/// The code under which the remote side reports a component that an entity
/// has but that cannot be serialized.
pub open spec fn unserializable_code() -> int {
    -23402
}

/// Whether `value` is an error object that reports a component as present
/// but not serializable.
pub open spec fn reports_unserializable(value: JsonView) -> bool {
    match error_object(value) {
        Some(e) => e.code == unserializable_code(),
        None => false,
    }
}

/// Whether `value` is the flag `true`.
pub open spec fn is_true(value: JsonView) -> bool {
    value == JsonView::Bool(true)
}

/// Whether some entry of `entries` is named `key` and marks the component
/// as present, by the test `marks`.
pub open spec fn marked(
    entries: Seq<(Seq<char>, JsonView)>,
    marks: spec_fn(JsonView) -> bool,
    key: Seq<char>,
) -> bool {
    exists|i: int| 0 <= i < entries.len() && (#[trigger] entries[i]).0 == key && marks(entries[i].1)
}

/// The state of the component `key` of an entity for which `values` were
/// read and `present` says which components it has: the first value of that
/// name; without one, present but undecoded where `present` says so; else
/// absent.
pub open spec fn merged(
    values: Seq<(Seq<char>, JsonView)>,
    present: spec_fn(Seq<char>) -> bool,
    key: Seq<char>,
) -> Option<Option<JsonView>> {
    match find(values, key) {
        Some(v) => Some(Some(v)),
        None => if present(key) {
            Some(None)
        } else {
            None
        },
    }
}

/// The state of the component `key` that a reply to a request for
/// components gives.
pub open spec fn response_component(response: GetComponentsResponseView, key: Seq<char>) -> Option<
    Option<JsonView>,
> {
    match response {
        GetComponentsResponseView::Lenient { components, errors } => merged(
            components,
            |k: Seq<char>| marked(errors, |v: JsonView| reports_unserializable(v), k),
            key,
        ),
        GetComponentsResponseView::Strict(components) => merged(
            components,
            |k: Seq<char>| false,
            key,
        ),
    }
}

/// The state of the component `key` that a row of a query gives.
pub open spec fn row_component(row: QueryRowView, key: Seq<char>) -> Option<Option<JsonView>> {
    merged(row.components, |k: Seq<char>| marked(row.has, |v: JsonView| is_true(v), k), key)
}

/// An entity: its identifier, and for each component that it is known to
/// have, the component's value or, where the value could not be had,
/// nothing.
#[derive(Debug, PartialEq, Eq)]
pub struct EntityItem {
    pub id: u64,
    pub components: TextMap<Option<Json>>,
}

/// The content of what a map holds at a key.
pub open spec fn state_view(state: Option<Option<Json>>) -> Option<Option<JsonView>> {
    match state {
        Some(Some(v)) => Some(Some(v@)),
        Some(None) => Some(None),
        None => None,
    }
}

impl EntityItem {
    /// The state of the component `key`: absent (`None`), present but
    /// undecoded (`Some(None)`), or present with a value.
    pub open spec fn component(&self, key: Seq<char>) -> Option<Option<JsonView>> {
        state_view(self.components.lookup(key))
    }

    /// The identifiers of the entity's children: what its component of
    /// children holds, where that is a list of identifiers; none otherwise.
    pub open spec fn children_of(&self) -> Seq<u64> {
        match self.component(component::CHILDREN@) {
            Some(Some(v)) => match entities_of(v) {
                Some(ids) => ids,
                None => Seq::empty(),
            },
            _ => Seq::empty(),
        }
    }

    /// The entity's name: what its component of that name holds, where
    /// that is a string.
    pub open spec fn name_of(&self) -> Option<Seq<char>> {
        match self.component(component::NAME@) {
            Some(Some(JsonView::String(s))) => Some(s),
            _ => None,
        }
    }

    /// The entity's children, in the order in which it lists them.
    pub fn children(&self) -> (r: Vec<u64>)
        ensures
            r@ == self.children_of(),
    {
        match self.get_component(component::CHILDREN) {
            Some(value) => match decode_entities(value) {
                Some(ids) => ids,
                None => Vec::new(),
            },
            None => Vec::new(),
        }
    }

    /// The value of the component `key`, where the entity has the component
    /// and its value was read.
    pub fn get_component(&self, key: &str) -> (r: Option<&Json>)
        ensures
            r is Some == (self.component(key@) matches Some(Some(_))),
            r matches Some(v) ==> self.component(key@) == Some(Some(v@)),
    {
        match self.components.get(key) {
            Some(Some(value)) => Some(value),
            _ => None,
        }
    }

    /// Whether the entity has the component `component`, with or without a
    /// value.
    pub fn has_component(&self, component: &str) -> (r: bool)
        ensures
            r == self.component(component@) is Some,
    {
        self.components.contains_key(component)
    }

    /// The entity's name.
    pub fn name(&self) -> (r: Option<String>)
        ensures
            r is Some == self.name_of() is Some,
            r matches Some(s) ==> Some(s@) == self.name_of(),
    {
        match self.get_component(component::NAME) {
            Some(value) => match value.as_str() {
                Some(s) => Some(s.clone()),
                None => None,
            },
            None => None,
        }
    }

    /// The entity with the identifier `id` that the reply `response`
    /// describes. A component that was read has its value. One that the
    /// reply reports as present but not serializable, and that was not
    /// read, is present without a value. No component occurs twice.
    pub fn from_get_components(id: u64, response: &GetComponentsResponse) -> (r: EntityItem)
        ensures
            r.id == id,
            forall|k: Seq<char>| #[trigger] r.component(k) == response_component(response@, k),
            strictly_sorted(r.components.pairs()),
            distinct_keys(r.components.pairs()),
    {
        let mut present: Vec<String> = Vec::new();
        let components = match response {
            GetComponentsResponse::Lenient { components, errors } => {
                let unserializable = component_error_code();
                let ghost all = member_views(errors@);
                let mut i: usize = 0;
                while i < errors.len()
                    invariant
                        i <= errors.len(),
                        unserializable == unserializable_code(),
                        all == member_views(errors@),
                        forall|k: Seq<char>|
                            names(present@, k) <==> marked(
                                all.take(i as int),
                                |v: JsonView| reports_unserializable(v),
                                k,
                            ),
                    decreases errors.len() - i,
                {
                    let ghost before = present@;
                    let flagged = match BrpError::decode(&errors[i].1) {
                        Some(e) => e.code == unserializable,
                        None => false,
                    };
                    assert(flagged == reports_unserializable(all[i as int].1));
                    if flagged {
                        present.push(errors[i].0.clone());
                    }
                    proof {
                        let marks = |v: JsonView| reports_unserializable(v);
                        let prev = all.take(i as int);
                        let next = all.take(i + 1);
                        assert(next == prev.push(all[i as int]));
                        assert forall|k: Seq<char>| names(present@, k) <==> marked(
                            next,
                            marks,
                            k,
                        ) by {
                            lemma_marked_push(prev, all[i as int], marks, k);
                            lemma_names_push(before, errors[i as int].0, k);
                        }
                    }
                    i += 1;
                }
                assert(all.take(errors.len() as int) == all);
                components
            },
            GetComponentsResponse::Strict(components) => {
                assert forall|k: Seq<char>| !names(present@, k) by {}
                components
            },
        };
        let map = merge(components, &present);
        proof {
            lemma_sorted_distinct(map.pairs());
        }
        EntityItem { id, components: map }
    }

    /// The entity that the row `row` of a query describes. A component that
    /// was read has its value. One that the row flags as present, and that
    /// was not read, is present without a value. No component occurs twice.
    pub fn from_query_row(row: &QueryRow) -> (r: EntityItem)
        ensures
            r.id == row.entity,
            forall|k: Seq<char>| #[trigger] r.component(k) == row_component(row@, k),
            strictly_sorted(r.components.pairs()),
            distinct_keys(r.components.pairs()),
    {
        let mut present: Vec<String> = Vec::new();
        let ghost all = member_views(row.has@);
        let mut i: usize = 0;
        while i < row.has.len()
            invariant
                i <= row.has.len(),
                all == member_views(row.has@),
                forall|k: Seq<char>|
                    names(present@, k) <==> marked(all.take(i as int), |v: JsonView| is_true(v), k),
            decreases row.has.len() - i,
        {
            let ghost before = present@;
            let flagged = match row.has[i].1.as_bool() {
                Some(b) => b,
                None => false,
            };
            assert(flagged == is_true(all[i as int].1));
            if flagged {
                present.push(row.has[i].0.clone());
            }
            proof {
                let marks = |v: JsonView| is_true(v);
                let prev = all.take(i as int);
                let next = all.take(i + 1);
                assert(next == prev.push(all[i as int]));
                assert forall|k: Seq<char>| names(present@, k) <==> marked(next, marks, k) by {
                    lemma_marked_push(prev, all[i as int], marks, k);
                    lemma_names_push(before, row.has[i as int].0, k);
                }
            }
            i += 1;
        }
        assert(all.take(row.has.len() as int) == all);
        let map = merge(&row.components, &present);
        proof {
            lemma_sorted_distinct(map.pairs());
        }
        EntityItem { id: row.entity, components: map }
    }
}

/// Whether `key` is among the names `list`.
pub open spec fn names(list: Seq<String>, key: Seq<char>) -> bool {
    exists|i: int| 0 <= i < list.len() && (#[trigger] list[i])@ == key
}

/// A name added to a list is among its names, beside those that were.
pub proof fn lemma_names_push(list: Seq<String>, name: String, key: Seq<char>)
    ensures
        names(list.push(name), key) <==> (names(list, key) || name@ == key),
{
    let all = list.push(name);
    if names(list, key) {
        let i = choose|i: int| 0 <= i < list.len() && (#[trigger] list[i])@ == key;
        assert(all[i]@ == key);
    }
    if name@ == key {
        assert(all[list.len() as int]@ == key);
    }
    if names(all, key) {
        let i = choose|i: int| 0 <= i < all.len() && (#[trigger] all[i])@ == key;
        if i < list.len() {
            assert(list[i]@ == key);
        }
    }
}

/// An entry added at the end marks its name where it passes the test,
/// beside the names marked before.
pub proof fn lemma_marked_push(
    entries: Seq<(Seq<char>, JsonView)>,
    entry: (Seq<char>, JsonView),
    marks: spec_fn(JsonView) -> bool,
    key: Seq<char>,
)
    ensures
        marked(entries.push(entry), marks, key) <==> (marked(entries, marks, key) || (entry.0 == key
            && marks(entry.1))),
{
    let all = entries.push(entry);
    if marked(entries, marks, key) {
        let i = choose|i: int|
            0 <= i < entries.len() && (#[trigger] entries[i]).0 == key && marks(entries[i].1);
        assert(all[i] == entries[i]);
    }
    if entry.0 == key && marks(entry.1) {
        assert(all[entries.len() as int] == entry);
    }
    if marked(all, marks, key) {
        let i = choose|i: int| 0 <= i < all.len() && (#[trigger] all[i]).0 == key && marks(all[i].1);
        if i < entries.len() {
            assert(entries[i] == all[i]);
        }
    }
}

/// The map that holds each value of `values` under its name, the first of
/// a name, and nothing under each name of `present` that has no value.
fn merge(values: &Vec<(String, Json)>, present: &Vec<String>) -> (r: TextMap<Option<Json>>)
    ensures
        forall|k: Seq<char>|
            state_view(#[trigger] r.lookup(k)) == merged(
                member_views(values@),
                |key: Seq<char>| names(present@, key),
                k,
            ),
        strictly_sorted(r.pairs()),
{
    let mut map: TextMap<Option<Json>> = TextMap::new();
    let ghost all = member_views(values@);
    let mut i: usize = 0;
    assert forall|k: Seq<char>| state_view(#[trigger] map.lookup(k)) == merged(
        all.take(0),
        |key: Seq<char>| false,
        k,
    ) by {
        assert(all.take(0).len() == 0);
    }
    while i < values.len()
        invariant
            i <= values.len(),
            all == member_views(values@),
            forall|k: Seq<char>|
                state_view(#[trigger] map.lookup(k)) == merged(
                    all.take(i as int),
                    |key: Seq<char>| false,
                    k,
                ),
        decreases values.len() - i,
    {
        let ghost before = map;
        let value = values[i].1.duplicate();
        map.insert_if_absent(values[i].0.clone(), Some(value));
        proof {
            let prev = all.take(i as int);
            let next = all.take(i + 1);
            assert(next == prev.push(all[i as int]));
            assert forall|k: Seq<char>| state_view(#[trigger] map.lookup(k)) == merged(
                next,
                |key: Seq<char>| false,
                k,
            ) by {
                lemma_find_push(prev, all[i as int], k);
                assert(state_view(before.lookup(k)) == merged(prev, |key: Seq<char>| false, k));
            }
        }
        i += 1;
    }
    assert(all.take(values.len() as int) == all);
    let mut j: usize = 0;
    while j < present.len()
        invariant
            j <= present.len(),
            forall|k: Seq<char>|
                state_view(#[trigger] map.lookup(k)) == merged(
                    all,
                    |key: Seq<char>| names(present@.take(j as int), key),
                    k,
                ),
        decreases present.len() - j,
    {
        let ghost before = map;
        map.insert_if_absent(present[j].clone(), None);
        proof {
            let prev = present@.take(j as int);
            let next = present@.take(j + 1);
            assert(next == prev.push(present@[j as int]));
            assert forall|k: Seq<char>| state_view(#[trigger] map.lookup(k)) == merged(
                all,
                |key: Seq<char>| names(next, key),
                k,
            ) by {
                lemma_names_push(prev, present@[j as int], k);
                assert(state_view(before.lookup(k)) == merged(
                    all,
                    |key: Seq<char>| names(prev, key),
                    k,
                ));
            }
        }
        j += 1;
    }
    assert(present@.take(present.len() as int) == present@);
    let _ = map.len();
    map
}

/// A component that a lenient reply reports as present but not
/// serializable is never dropped: the entity has it, and has it without a
/// value unless the reply holds a value for it too.
pub proof fn lemma_unserializable_component_is_kept(
    components: Seq<(Seq<char>, JsonView)>,
    errors: Seq<(Seq<char>, JsonView)>,
    key: Seq<char>,
)
    requires
        marked(errors, |v: JsonView| reports_unserializable(v), key),
    ensures
        response_component(GetComponentsResponseView::Lenient { components, errors }, key) is Some,
        !has_key(components, key) ==> response_component(
            GetComponentsResponseView::Lenient { components, errors },
            key,
        ) == Some(None::<JsonView>),
{
    lemma_find_has_key(components, key);
}

/// A component that a row flags as present is never dropped, and a value
/// that the row holds for a component is the entity's, flagged or not.
pub proof fn lemma_flagged_component_is_kept(row: QueryRowView, key: Seq<char>)
    ensures
        marked(row.has, |v: JsonView| is_true(v), key) ==> row_component(row, key) is Some,
        marked(row.has, |v: JsonView| is_true(v), key) && !has_key(row.components, key)
            ==> row_component(row, key) == Some(None::<JsonView>),
        find(row.components, key) matches Some(v) ==> row_component(row, key) == Some(Some(v)),
{
    lemma_find_has_key(row.components, key);
}

/// A value that a reply holds for a component is the entity's, whatever
/// its errors say.
pub proof fn lemma_decoded_value_wins(response: GetComponentsResponseView, key: Seq<char>)
    ensures
        response matches GetComponentsResponseView::Lenient { components, errors } ==> (find(
            components,
            key,
        ) matches Some(v) ==> response_component(response, key) == Some(Some(v))),
        response matches GetComponentsResponseView::Strict(components) ==> response_component(
            response,
            key,
        ) == (match find(components, key) {
            Some(v) => Some(Some(v)),
            None => None,
        }),
{
}

} // verus!
