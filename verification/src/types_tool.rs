//! The list of types: which of them a filter lets through, and what is
//! shown of one type.

use vstd::prelude::*;
use crate::json::{string_views, views, Json, JsonView};
use crate::schema::{
    value_view, SchemaDescriptor, SchemaDescriptorView, SchemaKind, SchemaType,
};
use crate::text::{chars_of, text_eq};

verus! {

/// The text `s` in lower case.
pub uninterp spec fn lowercased(s: Seq<char>) -> Seq<char>;

/// `str::to_lowercase`: the text with each character replaced by its
/// lowercase form, as Unicode defines it.
#[verifier::external_body]
fn to_lowercase(s: &str) -> (r: String)
    ensures
        r@ == lowercased(s@),
{
    s.to_lowercase()
}

/// Whether `needle` occurs in `s` at position `i`.
pub open spec fn occurs_at(s: Seq<char>, needle: Seq<char>, i: int) -> bool {
    0 <= i && i + needle.len() <= s.len() && s.subrange(i, i + needle.len()) == needle
}

/// Whether `needle` occurs in `s`.
pub open spec fn contains_text(s: Seq<char>, needle: Seq<char>) -> bool {
    exists|i: int| occurs_at(s, needle, i)
}

fn matches_at(s: &Vec<char>, needle: &Vec<char>, i: usize) -> (r: bool)
    requires
        i + needle.len() <= s.len(),
    ensures
        r == occurs_at(s@, needle@, i as int),
{
    let mut j: usize = 0;
    while j < needle.len()
        invariant
            j <= needle.len(),
            i + needle.len() <= s.len(),
            s@.subrange(i as int, i + j) == needle@.take(j as int),
        decreases needle.len() - j,
    {
        if s[i + j] != needle[j] {
            assert(s@.subrange(i as int, i + needle.len())[j as int] != needle@[j as int]);
            return false;
        }
        assert(s@.subrange(i as int, i + j + 1) =~= s@.subrange(i as int, i + j).push(
            s@[i + j],
        ));
        assert(needle@.take(j + 1) =~= needle@.take(j as int).push(needle@[j as int]));
        j += 1;
    }
    assert(needle@.take(needle.len() as int) =~= needle@);
    true
}

/// Whether `needle` occurs in `s`.
pub fn contains(s: &Vec<char>, needle: &Vec<char>) -> (r: bool)
    ensures
        r == contains_text(s@, needle@),
{
    if needle.len() > s.len() {
        return false;
    }
    if needle.len() == 0 {
        assert(occurs_at(s@, needle@, 0)) by {
            assert(s@.subrange(0, 0) =~= needle@);
        }
        return true;
    }
    let last = s.len() - needle.len();
    let mut i: usize = 0;
    while i <= last
        invariant
            i <= last + 1,
            needle.len() >= 1,
            last == s.len() - needle.len(),
            forall|k: int| 0 <= k < i ==> !occurs_at(s@, needle@, k),
        decreases last + 1 - i,
    {
        if matches_at(s, needle, i) {
            return true;
        }
        i += 1;
    }
    false
}

/// Whether the filter `filter` lets the type `type_path` through: an empty
/// filter lets every type through, any other those in whose path it
/// occurs, upper and lower case taken as the same.
pub fn passes_filter(type_path: &str, filter: &str) -> (r: bool)
    ensures
        r == (filter@.len() == 0 || contains_text(lowercased(type_path@), lowercased(filter@))),
{
    if filter.unicode_len() == 0 {
        return true;
    }
    let path = to_lowercase(type_path);
    let wanted = to_lowercase(filter);
    contains(&chars_of(path.as_str()), &chars_of(wanted.as_str()))
}

/// One row of what is shown of a type.
#[derive(Debug, PartialEq, Eq)]
pub enum TypeRow {
    /// A label and a value.
    Value { label: String, value: Json },
    /// The properties: for each its name, whether a value must have it,
    /// and the reference to its type.
    Properties(Vec<(String, bool, Json)>),
}

/// The content of a [`TypeRow`].
pub enum TypeRowView {
    Value { label: Seq<char>, value: JsonView },
    Properties(Seq<(Seq<char>, bool, JsonView)>),
}

impl View for TypeRow {
    type V = TypeRowView;

    open spec fn view(&self) -> TypeRowView {
        match self {
            TypeRow::Value { label, value } => TypeRowView::Value { label: label@, value: value@ },
            TypeRow::Properties(properties) => TypeRowView::Properties(
                Seq::new(
                    properties.len() as nat,
                    |i: int| (properties[i].0@, properties[i].1, properties[i].2@),
                ),
            ),
        }
    }
}

/// The contents of a list of rows.
pub open spec fn row_views(rows: Seq<TypeRow>) -> Seq<TypeRowView> {
    Seq::new(rows.len(), |i: int| rows[i]@)
}

/// The row `label` with the value `value`, if there is one.
pub open spec fn row_of(label: Seq<char>, value: Option<JsonView>) -> Seq<TypeRowView> {
    match value {
        Some(value) => seq![TypeRowView::Value { label, value }],
        None => Seq::empty(),
    }
}

/// The array of the strings `texts`.
pub open spec fn strings(texts: Seq<Seq<char>>) -> JsonView {
    JsonView::Array(Seq::new(texts.len(), |i: int| JsonView::String(texts[i])))
}

/// The value `value` unless `list` is empty.
pub open spec fn unless_empty<T>(list: Seq<T>, value: JsonView) -> Option<JsonView> {
    if list.len() == 0 {
        None
    } else {
        Some(value)
    }
}

/// The properties `properties`, each with whether it is among `required`.
pub open spec fn property_rows(
    properties: Seq<(Seq<char>, JsonView)>,
    required: Seq<Seq<char>>,
) -> Seq<(Seq<char>, bool, JsonView)> {
    Seq::new(
        properties.len(),
        |i: int| (properties[i].0, required.contains(properties[i].0), properties[i].1),
    )
}

/// The name of a primitive type as it is shown.
pub open spec fn type_label(schema_type: SchemaType) -> Seq<char> {
    match schema_type {
        SchemaType::String => "String"@,
        SchemaType::Float => "Float"@,
        SchemaType::Uint => "Uint"@,
        SchemaType::Int => "Int"@,
        SchemaType::Object => "Object"@,
        SchemaType::Array => "Array"@,
        SchemaType::Boolean => "Boolean"@,
        SchemaType::UniqueSet => "Set"@,
        SchemaType::Null => "Null"@,
    }
}

/// The name of a kind as it is shown.
pub open spec fn kind_label(kind: SchemaKind) -> Seq<char> {
    match kind {
        SchemaKind::Struct => "Struct"@,
        SchemaKind::Enum => "Enum"@,
        SchemaKind::Mapping => "Map"@,
        SchemaKind::Array => "Array"@,
        SchemaKind::List => "List"@,
        SchemaKind::Tuple => "Tuple"@,
        SchemaKind::TupleStruct => "TupleStruct"@,
        SchemaKind::UniqueSet => "Set"@,
        SchemaKind::Value => "Value"@,
    }
}

/// The rows that say what the type is: its path, its module, what it
/// reflects, its kind and primitive type, the values it allows, and
/// whether its values may have members that are not declared.
pub open spec fn leading_rows_of(d: SchemaDescriptorView) -> Seq<TypeRowView> {
    row_of("Type"@, Some(JsonView::String(d.type_path))) + row_of(
        "Module"@,
        match d.module {
            Some(m) => Some(JsonView::String(m)),
            None => None,
        },
    ) + row_of("Reflect Types"@, unless_empty(d.reflect_types, strings(d.reflect_types))) + row_of(
        "Kind"@,
        Some(JsonView::String(kind_label(d.kind))),
    ) + row_of("Schema Type"@, Some(JsonView::String(type_label(d.schema_type)))) + row_of(
        "One Of"@,
        unless_empty(d.one_of, JsonView::Array(d.one_of)),
    ) + row_of(
        "Additional Properties"@,
        match d.additional_properties {
            Some(b) => Some(JsonView::Bool(b)),
            None => None,
        },
    )
}

/// The row of the properties, if the type declares any.
pub open spec fn properties_row_of(d: SchemaDescriptorView) -> Seq<TypeRowView> {
    if d.properties.len() == 0 {
        Seq::empty()
    } else {
        seq![TypeRowView::Properties(property_rows(d.properties, d.required))]
    }
}

/// The rows that refer to other types: those of the keys and values of a
/// map and of the items of a tuple and of a list.
pub open spec fn trailing_rows_of(d: SchemaDescriptorView) -> Seq<TypeRowView> {
    row_of("Key Type"@, d.key_type) + row_of(
        "Value Type"@,
        d.value_type,
    ) + row_of("Prefix Items"@, unless_empty(d.prefix_items, JsonView::Array(d.prefix_items)))
        + row_of("Items"@, d.items)
}

/// What is shown of the type that `d` describes, row by row: its path,
/// kind and primitive type always, and each of the other fields where it
/// says something.
pub open spec fn type_rows_of(d: SchemaDescriptorView) -> Seq<TypeRowView> {
    leading_rows_of(d) + properties_row_of(d) + trailing_rows_of(d)
}

fn push_row(rows: &mut Vec<TypeRow>, label: &str, value: Option<Json>)
    ensures
        row_views(final(rows)@) == row_views(old(rows)@) + row_of(
            label@,
            match value {
                Some(v) => Some(v@),
                None => None,
            },
        ),
{
    let ghost before = row_views(rows@);
    match value {
        Some(value) => {
            let row = TypeRow::Value { label: label.to_owned(), value };
            rows.push(row);
            assert(row_views(rows@) =~= before.push(row@));
            assert(before.push(row@) =~= before + seq![row@]);
        },
        None => {
            assert(before + Seq::<TypeRowView>::empty() =~= before);
        },
    }
}

fn texts_value(texts: &Vec<String>) -> (r: Option<Json>)
    ensures
        (match r {
            Some(v) => Some(v@),
            None => None,
        }) == unless_empty(string_views(texts@), strings(string_views(texts@))),
{
    if texts.len() == 0 {
        return None;
    }
    let mut items: Vec<Json> = Vec::new();
    let mut i: usize = 0;
    while i < texts.len()
        invariant
            i <= texts.len(),
            items.len() == i,
            forall|j: int| 0 <= j < i ==> items[j]@ == JsonView::String(texts[j]@),
        decreases texts.len() - i,
    {
        items.push(Json::String(texts[i].clone()));
        i += 1;
    }
    let value = Json::array(items);
    proof {
        let want = match strings(string_views(texts@)) {
            JsonView::Array(a) => a,
            _ => Seq::empty(),
        };
        assert(views(items@) =~= want);
    }
    Some(value)
}

fn values_value(values: &Vec<Json>) -> (r: Option<Json>)
    ensures
        (match r {
            Some(v) => Some(v@),
            None => None,
        }) == unless_empty(views(values@), JsonView::Array(views(values@))),
{
    if values.len() == 0 {
        return None;
    }
    let mut items: Vec<Json> = Vec::new();
    let mut i: usize = 0;
    while i < values.len()
        invariant
            i <= values.len(),
            items.len() == i,
            forall|j: int| 0 <= j < i ==> items[j]@ == values[j]@,
        decreases values.len() - i,
    {
        items.push(values[i].duplicate());
        i += 1;
    }
    let value = Json::array(items);
    assert(views(items@) =~= views(values@));
    Some(value)
}

fn copy_of(value: &Option<Json>) -> (r: Option<Json>)
    ensures
        value_view(r) == value_view(*value),
{
    match value {
        Some(v) => Some(v.duplicate()),
        None => None,
    }
}

fn is_required(required: &Vec<String>, name: &str) -> (r: bool)
    ensures
        r == string_views(required@).contains(name@),
{
    let mut i: usize = 0;
    while i < required.len()
        invariant
            i <= required.len(),
            forall|j: int| 0 <= j < i ==> string_views(required@)[j] != name@,
        decreases required.len() - i,
    {
        if text_eq(required[i].as_str(), name) {
            assert(string_views(required@)[i as int] == name@);
            return true;
        }
        i += 1;
    }
    false
}

fn leading_rows(descriptor: &SchemaDescriptor) -> (r: Vec<TypeRow>)
    ensures
        row_views(r@) == leading_rows_of(descriptor@),
{
    let mut rows: Vec<TypeRow> = Vec::new();
    assert(row_views(rows@) =~= Seq::empty());
    push_row(&mut rows, "Type", Some(Json::String(descriptor.type_path.clone())));
    assert(row_views(rows@) =~= row_of("Type"@, Some(JsonView::String(descriptor@.type_path))));
    let module = match &descriptor.module {
        Some(m) => Some(Json::String(m.clone())),
        None => None,
    };
    push_row(&mut rows, "Module", module);
    push_row(&mut rows, "Reflect Types", texts_value(&descriptor.reflect_types));
    push_row(&mut rows, "Kind", Some(Json::from_text(descriptor.kind.label())));
    push_row(&mut rows, "Schema Type", Some(Json::from_text(descriptor.schema_type.label())));
    push_row(&mut rows, "One Of", values_value(&descriptor.one_of));
    let open = match descriptor.additional_properties {
        Some(b) => Some(Json::Bool(b)),
        None => None,
    };
    push_row(&mut rows, "Additional Properties", open);
    rows
}

fn properties_row(descriptor: &SchemaDescriptor) -> (r: Vec<TypeRow>)
    ensures
        row_views(r@) == properties_row_of(descriptor@),
{
    let mut rows: Vec<TypeRow> = Vec::new();
    let count = descriptor.properties.len();
    if count > 0 {
        let mut properties: Vec<(String, bool, Json)> = Vec::new();
        let mut i: usize = 0;
        while i < count
            invariant
                i <= count,
                count == descriptor.properties.pairs().len(),
                properties.len() == i,
                forall|j: int|
                    0 <= j < i ==> (#[trigger] properties[j]).0@ == descriptor@.properties[j].0
                        && properties[j].1 == descriptor@.required.contains(
                        descriptor@.properties[j].0,
                    ) && properties[j].2@ == descriptor@.properties[j].1,
            decreases count - i,
        {
            let name = descriptor.properties.key_at(i);
            let reference = descriptor.properties.value_at(i);
            let required = is_required(&descriptor.required, name.as_str());
            properties.push((name.clone(), required, reference.duplicate()));
            i += 1;
        }
        let row = TypeRow::Properties(properties);
        proof {
            let shown = match row@ {
                TypeRowView::Properties(p) => p,
                _ => Seq::empty(),
            };
            assert(shown =~= property_rows(descriptor@.properties, descriptor@.required));
        }
        rows.push(row);
        assert(row_views(rows@) =~= seq![row@]);
    } else {
        assert(row_views(rows@) =~= Seq::empty());
    }
    rows
}

fn trailing_rows(descriptor: &SchemaDescriptor) -> (r: Vec<TypeRow>)
    ensures
        row_views(r@) == trailing_rows_of(descriptor@),
{
    let mut rows: Vec<TypeRow> = Vec::new();
    assert(row_views(rows@) =~= Seq::empty());
    push_row(&mut rows, "Key Type", copy_of(&descriptor.key_type));
    assert(row_views(rows@) =~= row_of("Key Type"@, descriptor@.key_type));
    push_row(&mut rows, "Value Type", copy_of(&descriptor.value_type));
    push_row(&mut rows, "Prefix Items", values_value(&descriptor.prefix_items));
    push_row(&mut rows, "Items", copy_of(&descriptor.items));
    rows
}

/// What is shown of the type that `descriptor` describes, row by row.
pub fn type_rows(descriptor: &SchemaDescriptor) -> (r: Vec<TypeRow>)
    ensures
        row_views(r@) == type_rows_of(descriptor@),
{
    let mut rows = leading_rows(descriptor);
    let mut properties = properties_row(descriptor);
    let mut trailing = trailing_rows(descriptor);
    let ghost first = rows@;
    let ghost second = properties@;
    let ghost third = trailing@;
    rows.append(&mut properties);
    rows.append(&mut trailing);
    assert(row_views(rows@) =~= row_views(first) + row_views(second) + row_views(third));
    rows
}

} // verus!
