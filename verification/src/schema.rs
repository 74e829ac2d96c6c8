//! The registry of types that the remote side publishes: one descriptor
//! for each type path.

use vstd::prelude::*;
use crate::assoc::{find, lemma_find_push, strictly_sorted};
use crate::json::{decode_strings, member_views, string_views, strings_of, views, Json, JsonView};
use crate::text::{chars_of, has_prefix, lex_lt, string_of, strip_prefix, text_eq};
use crate::text_map::TextMap;

verus! {

/// The structural kind of a type.
#[derive(Debug, Clone, Copy, PartialEq, Eq, Structural)]
pub enum SchemaKind {
    Struct,
    Enum,
    /// A map from keys to values.
    Mapping,
    Array,
    List,
    Tuple,
    TupleStruct,
    /// A set of unique values.
    UniqueSet,
    Value,
}

/// The primitive type of the values of a type.
#[derive(Debug, Clone, Copy, PartialEq, Eq, Structural)]
pub enum SchemaType {
    String,
    Float,
    Uint,
    Int,
    Object,
    Array,
    Boolean,
    /// A set of unique values.
    UniqueSet,
    Null,
}

/// What the registry says of one type.
#[derive(Debug, PartialEq, Eq)]
pub struct SchemaDescriptor {
    /// Short path of the type.
    pub short_path: String,
    /// Full path of the type.
    pub type_path: String,
    /// Path of the module that the type is part of.
    pub module: Option<String>,
    /// Name of the crate that the type is part of.
    pub crate_name: Option<String>,
    /// Names of the traits that the type reflects.
    pub reflect_types: Vec<String>,
    /// The structural kind.
    pub kind: SchemaKind,
    /// For a map, a reference to the type of its keys.
    pub key_type: Option<Json>,
    /// For a map, a reference to the type of its values.
    pub value_type: Option<Json>,
    /// The primitive type.
    pub schema_type: SchemaType,
    /// Whether values may have members beyond the declared properties.
    pub additional_properties: Option<bool>,
    /// For each declared property, a reference to its type. The properties
    /// are held in the order of their names.
    pub properties: TextMap<Json>,
    /// The names of the properties that a value must have.
    pub required: Vec<String>,
    /// The values that an enum allows.
    pub one_of: Vec<Json>,
    /// For each leading item of a tuple, a reference to its type.
    pub prefix_items: Vec<Json>,
    /// A reference to the type of the items of a list.
    pub items: Option<Json>,
}

/// The content of a [`SchemaDescriptor`].
pub struct SchemaDescriptorView {
    pub short_path: Seq<char>,
    pub type_path: Seq<char>,
    pub module: Option<Seq<char>>,
    pub crate_name: Option<Seq<char>>,
    pub reflect_types: Seq<Seq<char>>,
    pub kind: SchemaKind,
    pub key_type: Option<JsonView>,
    pub value_type: Option<JsonView>,
    pub schema_type: SchemaType,
    pub additional_properties: Option<bool>,
    pub properties: Seq<(Seq<char>, JsonView)>,
    pub required: Seq<Seq<char>>,
    pub one_of: Seq<JsonView>,
    pub prefix_items: Seq<JsonView>,
    pub items: Option<JsonView>,
}

/// The content of a string that may be missing.
pub open spec fn text_view(s: Option<String>) -> Option<Seq<char>> {
    match s {
        Some(s) => Some(s@),
        None => None,
    }
}

/// The content of a value that may be missing.
pub open spec fn value_view(v: Option<Json>) -> Option<JsonView> {
    match v {
        Some(v) => Some(v@),
        None => None,
    }
}

/// The contents of a list of properties.
pub open spec fn property_views(pairs: Seq<(Seq<char>, Json)>) -> Seq<(Seq<char>, JsonView)> {
    Seq::new(pairs.len(), |i: int| (pairs[i].0, pairs[i].1@))
}

impl View for SchemaDescriptor {
    type V = SchemaDescriptorView;

    open spec fn view(&self) -> SchemaDescriptorView {
        SchemaDescriptorView {
            short_path: self.short_path@,
            type_path: self.type_path@,
            module: text_view(self.module),
            crate_name: text_view(self.crate_name),
            reflect_types: string_views(self.reflect_types@),
            kind: self.kind,
            key_type: value_view(self.key_type),
            value_type: value_view(self.value_type),
            schema_type: self.schema_type,
            additional_properties: self.additional_properties,
            properties: property_views(self.properties.pairs()),
            required: string_views(self.required@),
            one_of: views(self.one_of@),
            prefix_items: views(self.prefix_items@),
            items: value_view(self.items),
        }
    }
}

impl SchemaDescriptorView {
    /// Whether the type is a marker, a tag without data: a struct whose
    /// values are objects, that declares no property and rules out any
    /// other.
    pub open spec fn is_marker(self) -> bool {
        &&& self.kind == SchemaKind::Struct
        &&& self.schema_type == SchemaType::Object
        &&& self.additional_properties == Some(false)
        &&& self.properties.len() == 0
    }
}

impl SchemaDescriptor {
    /// Whether the type is a marker.
    pub fn is_marker(&self) -> (r: bool)
        ensures
            r == self@.is_marker(),
    {
        let closed = match self.additional_properties {
            Some(b) => !b,
            None => false,
        };
        self.kind == SchemaKind::Struct && self.schema_type == SchemaType::Object && closed
            && self.properties.is_empty()
    }
}

/// The type path that a reference names: the text after `#/$defs/` in the
/// string `$ref` of the member `type`.
pub open spec fn referenced_path(value: JsonView) -> Option<Seq<char>> {
    match value.member("type"@) {
        Some(ty) => match ty.member("$ref"@) {
            Some(JsonView::String(s)) => if has_prefix(s, "#/$defs/"@) {
                Some(s.skip("#/$defs/"@.len() as int))
            } else {
                None
            },
            _ => None,
        },
        None => None,
    }
}

/// The type path that the reference `value` names.
pub fn get_type_path_from_ref_value(value: &Json) -> (r: Option<String>)
    ensures
        r is Some == referenced_path(value@) is Some,
        r matches Some(path) ==> Some(path@) == referenced_path(value@),
{
    match value.get("type") {
        Some(ty) => match ty.get("$ref") {
            Some(reference) => match reference.as_str() {
                Some(s) => {
                    let text = chars_of(s.as_str());
                    let prefix = chars_of("#/$defs/");
                    match strip_prefix(&text, &prefix) {
                        Some(rest) => Some(string_of(&rest)),
                        None => None,
                    }
                },
                None => None,
            },
            None => None,
        },
        None => None,
    }
}

/// The registry: the descriptors, each under its type path.
pub type Schema = TextMap<SchemaDescriptor>;

/// The descriptor of the type `path` in the registry.
pub open spec fn described(schema: Schema, path: Seq<char>) -> Option<SchemaDescriptorView> {
    match schema.lookup(path) {
        Some(d) => Some(d@),
        None => None,
    }
}

/// The descriptor of the type that the reference `value` names.
pub open spec fn resolved(schema: Schema, value: JsonView) -> Option<SchemaDescriptorView> {
    match referenced_path(value) {
        Some(path) => described(schema, path),
        None => None,
    }
}

/// The descriptor of the type that the reference `value` names.
pub fn resolve<'a>(schema: &'a Schema, value: &Json) -> (r: Option<&'a SchemaDescriptor>)
    ensures
        r is Some == resolved(*schema, value@) is Some,
        r matches Some(d) ==> Some(d@) == resolved(*schema, value@),
{
    match get_type_path_from_ref_value(value) {
        Some(path) => schema.get(path.as_str()),
        None => None,
    }
}

/// The kind of the name `name`.
pub open spec fn kind_named(name: Seq<char>) -> Option<SchemaKind> {
    if name == "Struct"@ {
        Some(SchemaKind::Struct)
    } else if name == "Enum"@ {
        Some(SchemaKind::Enum)
    } else if name == "Map"@ {
        Some(SchemaKind::Mapping)
    } else if name == "Array"@ {
        Some(SchemaKind::Array)
    } else if name == "List"@ {
        Some(SchemaKind::List)
    } else if name == "Tuple"@ {
        Some(SchemaKind::Tuple)
    } else if name == "TupleStruct"@ {
        Some(SchemaKind::TupleStruct)
    } else if name == "Set"@ {
        Some(SchemaKind::UniqueSet)
    } else if name == "Value"@ {
        Some(SchemaKind::Value)
    } else {
        None
    }
}

/// The primitive type of the name `name`.
pub open spec fn type_named(name: Seq<char>) -> Option<SchemaType> {
    if name == "string"@ {
        Some(SchemaType::String)
    } else if name == "float"@ {
        Some(SchemaType::Float)
    } else if name == "uint"@ {
        Some(SchemaType::Uint)
    } else if name == "int"@ {
        Some(SchemaType::Int)
    } else if name == "object"@ {
        Some(SchemaType::Object)
    } else if name == "array"@ {
        Some(SchemaType::Array)
    } else if name == "boolean"@ {
        Some(SchemaType::Boolean)
    } else if name == "set"@ {
        Some(SchemaType::UniqueSet)
    } else if name == "null"@ {
        Some(SchemaType::Null)
    } else {
        None
    }
}

impl SchemaKind {
    /// The kind of the name `name`.
    pub fn from_name(name: &str) -> (r: Option<SchemaKind>)
        ensures
            r == kind_named(name@),
    {
        if text_eq(name, "Struct") {
            Some(SchemaKind::Struct)
        } else if text_eq(name, "Enum") {
            Some(SchemaKind::Enum)
        } else if text_eq(name, "Map") {
            Some(SchemaKind::Mapping)
        } else if text_eq(name, "Array") {
            Some(SchemaKind::Array)
        } else if text_eq(name, "List") {
            Some(SchemaKind::List)
        } else if text_eq(name, "Tuple") {
            Some(SchemaKind::Tuple)
        } else if text_eq(name, "TupleStruct") {
            Some(SchemaKind::TupleStruct)
        } else if text_eq(name, "Set") {
            Some(SchemaKind::UniqueSet)
        } else if text_eq(name, "Value") {
            Some(SchemaKind::Value)
        } else {
            None
        }
    }

    /// The name of the kind.
    pub fn label(&self) -> (r: &'static str)
        ensures
            r@ == (match self {
                SchemaKind::Struct => "Struct"@,
                SchemaKind::Enum => "Enum"@,
                SchemaKind::Mapping => "Map"@,
                SchemaKind::Array => "Array"@,
                SchemaKind::List => "List"@,
                SchemaKind::Tuple => "Tuple"@,
                SchemaKind::TupleStruct => "TupleStruct"@,
                SchemaKind::UniqueSet => "Set"@,
                SchemaKind::Value => "Value"@,
            }),
    {
        match self {
            SchemaKind::Struct => "Struct",
            SchemaKind::Enum => "Enum",
            SchemaKind::Mapping => "Map",
            SchemaKind::Array => "Array",
            SchemaKind::List => "List",
            SchemaKind::Tuple => "Tuple",
            SchemaKind::TupleStruct => "TupleStruct",
            SchemaKind::UniqueSet => "Set",
            SchemaKind::Value => "Value",
        }
    }
}

impl SchemaType {
    /// The primitive type of the name `name`.
    pub fn from_name(name: &str) -> (r: Option<SchemaType>)
        ensures
            r == type_named(name@),
    {
        if text_eq(name, "string") {
            Some(SchemaType::String)
        } else if text_eq(name, "float") {
            Some(SchemaType::Float)
        } else if text_eq(name, "uint") {
            Some(SchemaType::Uint)
        } else if text_eq(name, "int") {
            Some(SchemaType::Int)
        } else if text_eq(name, "object") {
            Some(SchemaType::Object)
        } else if text_eq(name, "array") {
            Some(SchemaType::Array)
        } else if text_eq(name, "boolean") {
            Some(SchemaType::Boolean)
        } else if text_eq(name, "set") {
            Some(SchemaType::UniqueSet)
        } else if text_eq(name, "null") {
            Some(SchemaType::Null)
        } else {
            None
        }
    }

    /// The name of the primitive type, as it is shown.
    pub fn label(&self) -> (r: &'static str)
        ensures
            r@ == (match self {
                SchemaType::String => "String"@,
                SchemaType::Float => "Float"@,
                SchemaType::Uint => "Uint"@,
                SchemaType::Int => "Int"@,
                SchemaType::Object => "Object"@,
                SchemaType::Array => "Array"@,
                SchemaType::Boolean => "Boolean"@,
                SchemaType::UniqueSet => "Set"@,
                SchemaType::Null => "Null"@,
            }),
    {
        match self {
            SchemaType::String => "String",
            SchemaType::Float => "Float",
            SchemaType::Uint => "Uint",
            SchemaType::Int => "Int",
            SchemaType::Object => "Object",
            SchemaType::Array => "Array",
            SchemaType::Boolean => "Boolean",
            SchemaType::UniqueSet => "Set",
            SchemaType::Null => "Null",
        }
    }
}

/// A text that may be left out: a missing member and `null` are no text, a
/// string is one, and anything else is a fault (`None`).
pub open spec fn optional_text(v: Option<JsonView>) -> Option<Option<Seq<char>>> {
    match v {
        None => Some(None),
        Some(JsonView::Null) => Some(None),
        Some(JsonView::String(s)) => Some(Some(s)),
        Some(_) => None,
    }
}

/// A flag that may be left out: a missing member and `null` are no flag, a
/// boolean is one, and anything else is a fault (`None`).
pub open spec fn optional_flag(v: Option<JsonView>) -> Option<Option<bool>> {
    match v {
        None => Some(None),
        Some(JsonView::Null) => Some(None),
        Some(JsonView::Bool(b)) => Some(Some(b)),
        Some(_) => None,
    }
}

/// A value that may be left out: a missing member and `null` are no value.
pub open spec fn optional_value(v: Option<JsonView>) -> Option<JsonView> {
    match v {
        None => None,
        Some(JsonView::Null) => None,
        Some(x) => Some(x),
    }
}

/// A list of texts that may be left out: a missing member is the empty
/// list, an array of strings is their list, and anything else is a fault.
pub open spec fn text_list(v: Option<JsonView>) -> Option<Seq<Seq<char>>> {
    match v {
        None => Some(Seq::empty()),
        Some(x) => strings_of(x),
    }
}

/// A list of values that may be left out: a missing member is the empty
/// list, an array is its items, and anything else is a fault.
pub open spec fn value_list(v: Option<JsonView>) -> Option<Seq<JsonView>> {
    match v {
        None => Some(Seq::empty()),
        Some(JsonView::Array(items)) => Some(items),
        Some(_) => None,
    }
}

/// Named values that may be left out: a missing member is the empty list,
/// an object is its members, and anything else is a fault.
pub open spec fn member_list(v: Option<JsonView>) -> Option<Seq<(Seq<char>, JsonView)>> {
    match v {
        None => Some(Seq::empty()),
        Some(JsonView::Object(members)) => Some(members),
        Some(_) => None,
    }
}

/// Whether the value `v` holds a descriptor: an object whose `shortPath`
/// and `typePath` are strings, whose `kind` and `type` name a kind and a
/// primitive type, and whose other members, where they are there, are of
/// their types.
pub open spec fn is_descriptor(v: JsonView) -> bool {
    &&& v.member("shortPath"@) matches Some(JsonView::String(_))
    &&& v.member("typePath"@) matches Some(JsonView::String(_))
    &&& v.member("kind"@) matches Some(JsonView::String(k)) && kind_named(k) is Some
    &&& v.member("type"@) matches Some(JsonView::String(t)) && type_named(t) is Some
    &&& optional_text(v.member("modulePath"@)) is Some
    &&& optional_text(v.member("crateName"@)) is Some
    &&& text_list(v.member("reflectTypes"@)) is Some
    &&& optional_flag(v.member("additionalProperties"@)) is Some
    &&& member_list(v.member("properties"@)) is Some
    &&& text_list(v.member("required"@)) is Some
    &&& value_list(v.member("oneOf"@)) is Some
    &&& value_list(v.member("prefixItems"@)) is Some
}

/// Whether `d` is the descriptor that the value `v` holds. Each field is
/// the member of its name. The properties are the members of `properties`
/// in the order of their names, the first of a name.
pub open spec fn describes_type(d: SchemaDescriptorView, v: JsonView) -> bool {
    &&& v.member("shortPath"@) == Some(JsonView::String(d.short_path))
    &&& v.member("typePath"@) == Some(JsonView::String(d.type_path))
    &&& v.member("kind"@) matches Some(JsonView::String(k)) && kind_named(k) == Some(d.kind)
    &&& v.member("type"@) matches Some(JsonView::String(t)) && type_named(t) == Some(d.schema_type)
    &&& optional_text(v.member("modulePath"@)) == Some(d.module)
    &&& optional_text(v.member("crateName"@)) == Some(d.crate_name)
    &&& text_list(v.member("reflectTypes"@)) == Some(d.reflect_types)
    &&& d.key_type == optional_value(v.member("keyType"@))
    &&& d.value_type == optional_value(v.member("valueType"@))
    &&& optional_flag(v.member("additionalProperties"@)) == Some(d.additional_properties)
    &&& member_list(v.member("properties"@)) matches Some(members) && strictly_sorted(d.properties)
        && forall|k: Seq<char>| #[trigger] find(d.properties, k) == find(members, k)
    &&& text_list(v.member("required"@)) == Some(d.required)
    &&& value_list(v.member("oneOf"@)) == Some(d.one_of)
    &&& value_list(v.member("prefixItems"@)) == Some(d.prefix_items)
    &&& d.items == optional_value(v.member("items"@))
}

/// A lookup among properties finds the content of what it finds among the
/// entries.
pub proof fn lemma_find_property(pairs: Seq<(Seq<char>, Json)>, key: Seq<char>)
    ensures
        find(property_views(pairs), key) == (match find(pairs, key) {
            Some(v) => Some(v@),
            None => None,
        }),
    decreases pairs.len(),
{
    if pairs.len() > 0 {
        assert(property_views(pairs).drop_first() =~= property_views(pairs.drop_first()));
        if pairs[0].0 != key {
            lemma_find_property(pairs.drop_first(), key);
        }
    }
}

fn read_text(value: Option<&Json>) -> (r: Option<String>)
    ensures
        r is Some == (value matches Some(v) && v@ is String),
        r matches Some(s) ==> value.unwrap()@ == JsonView::String(s@),
{
    match value {
        Some(v) => match v.as_str() {
            Some(s) => Some(s.clone()),
            None => None,
        },
        None => None,
    }
}

/// The content of a member that may be missing.
pub open spec fn member_view(value: Option<&Json>) -> Option<JsonView> {
    match value {
        Some(v) => Some(v@),
        None => None,
    }
}

fn read_optional_text(value: Option<&Json>) -> (r: Option<Option<String>>)
    ensures
        r is Some == optional_text(member_view(value)) is Some,
        r matches Some(s) ==> Some(text_view(s)) == optional_text(member_view(value)),
{
    match value {
        None => Some(None),
        Some(v) => match v {
            Json::Null => Some(None),
            Json::String(s) => Some(Some(s.clone())),
            _ => None,
        },
    }
}

fn read_optional_flag(value: Option<&Json>) -> (r: Option<Option<bool>>)
    ensures
        r == optional_flag(member_view(value)),
{
    match value {
        None => Some(None),
        Some(v) => match v {
            Json::Null => Some(None),
            Json::Bool(b) => Some(Some(*b)),
            _ => None,
        },
    }
}

fn read_optional_value(value: Option<&Json>) -> (r: Option<Json>)
    ensures
        value_view(r) == optional_value(member_view(value)),
{
    match value {
        None => None,
        Some(v) => if v.is_null() {
            None
        } else {
            Some(v.duplicate())
        },
    }
}

fn read_text_list(value: Option<&Json>) -> (r: Option<Vec<String>>)
    ensures
        r is Some == text_list(member_view(value)) is Some,
        r matches Some(list) ==> Some(string_views(list@)) == text_list(member_view(value)),
{
    match value {
        None => {
            let list: Vec<String> = Vec::new();
            assert(string_views(list@) =~= Seq::empty());
            Some(list)
        },
        Some(v) => {
            decode_strings(v)
        },
    }
}

fn read_value_list(value: Option<&Json>) -> (r: Option<Vec<Json>>)
    ensures
        r is Some == value_list(member_view(value)) is Some,
        r matches Some(list) ==> Some(views(list@)) == value_list(member_view(value)),
{
    match value {
        None => {
            let list: Vec<Json> = Vec::new();
            assert(views(list@) =~= Seq::empty());
            Some(list)
        },
        Some(v) => match v.as_array() {
            Some(items) => {
                let mut out: Vec<Json> = Vec::new();
                let mut i: usize = 0;
                while i < items.len()
                    invariant
                        i <= items.len(),
                        out.len() == i,
                        forall|j: int| 0 <= j < i ==> out[j]@ == items[j]@,
                    decreases items.len() - i,
                {
                    out.push(items[i].duplicate());
                    i += 1;
                }
                assert(views(out@) =~= views(items@));
                Some(out)
            },
            None => None,
        },
    }
}

fn read_properties(value: Option<&Json>) -> (r: Option<TextMap<Json>>)
    ensures
        r is Some == member_list(member_view(value)) is Some,
        r matches Some(map) ==> strictly_sorted(property_views(map.pairs())) && forall|
            k: Seq<char>,
        |
            #[trigger] find(property_views(map.pairs()), k) == find(
                member_list(member_view(value)).unwrap(),
                k,
            ),
{
    let mut map: TextMap<Json> = TextMap::new();
    match value {
        None => {},
        Some(v) => match v.as_object() {
            Some(members) => {
                let ghost all = member_views(members@);
                let mut i: usize = 0;
                assert(all.take(0) =~= Seq::empty());
                assert forall|k: Seq<char>| find(property_views(map.pairs()), k) == find(
                    all.take(0),
                    k,
                ) by {
                    assert(property_views(map.pairs()) =~= Seq::empty());
                }
                while i < members.len()
                    invariant
                        i <= members.len(),
                        all == member_views(members@),
                        forall|k: Seq<char>|
                            #[trigger] find(property_views(map.pairs()), k) == find(
                                all.take(i as int),
                                k,
                            ),
                    decreases members.len() - i,
                {
                    let ghost before = map;
                    let copy = members[i].1.duplicate();
                    map.insert_if_absent(members[i].0.clone(), copy);
                    proof {
                        let prev = all.take(i as int);
                        let next = all.take(i + 1);
                        assert(next =~= prev.push(all[i as int]));
                        assert forall|k: Seq<char>| #[trigger] find(
                            property_views(map.pairs()),
                            k,
                        ) == find(next, k) by {
                            lemma_find_push(prev, all[i as int], k);
                            lemma_find_property(map.pairs(), k);
                            lemma_find_property(before.pairs(), k);
                            assert(all[i as int] == (members[i as int].0@, members[i as int].1@));
                            assert(find(property_views(before.pairs()), k) == find(prev, k));
                            assert(map.lookup(k) == find(map.pairs(), k));
                            assert(before.lookup(k) == find(before.pairs(), k));
                            if k != members[i as int].0@ {
                                assert(map.lookup(k) == before.lookup(k));
                            }
                        }
                    }
                    i += 1;
                }
                assert(all.take(members.len() as int) =~= all);
            },
            None => {
                return None;
            },
        },
    }
    proof {
        if value is None {
            assert(property_views(map.pairs()) =~= Seq::empty());
        }
    }
    let _ = map.len();
    proof {
        let pairs = map.pairs();
        let shown = property_views(pairs);
        assert forall|i: int, j: int| 0 <= i < j < shown.len() implies lex_lt(
            (#[trigger] shown[i]).0,
            (#[trigger] shown[j]).0,
        ) by {
            assert(shown[i].0 == pairs[i].0);
            assert(shown[j].0 == pairs[j].0);
        }
    }
    Some(map)
}

impl SchemaDescriptor {
    /// Reads a descriptor.
    pub fn decode(value: &Json) -> (r: Option<SchemaDescriptor>)
        ensures
            r is Some == is_descriptor(value@),
            r matches Some(d) ==> describes_type(d@, value@),
    {
        let short_path = match read_text(value.get("shortPath")) {
            Some(s) => s,
            None => {
                return None;
            },
        };
        let type_path = match read_text(value.get("typePath")) {
            Some(s) => s,
            None => {
                return None;
            },
        };
        let kind = match read_text(value.get("kind")) {
            Some(s) => match SchemaKind::from_name(s.as_str()) {
                Some(k) => k,
                None => {
                    return None;
                },
            },
            None => {
                return None;
            },
        };
        let schema_type = match read_text(value.get("type")) {
            Some(s) => match SchemaType::from_name(s.as_str()) {
                Some(t) => t,
                None => {
                    return None;
                },
            },
            None => {
                return None;
            },
        };
        let module = match read_optional_text(value.get("modulePath")) {
            Some(m) => m,
            None => {
                return None;
            },
        };
        let crate_name = match read_optional_text(value.get("crateName")) {
            Some(m) => m,
            None => {
                return None;
            },
        };
        let reflect_types = match read_text_list(value.get("reflectTypes")) {
            Some(m) => m,
            None => {
                return None;
            },
        };
        let additional_properties = match read_optional_flag(value.get("additionalProperties")) {
            Some(m) => m,
            None => {
                return None;
            },
        };
        let properties = match read_properties(value.get("properties")) {
            Some(m) => m,
            None => {
                return None;
            },
        };
        let required = match read_text_list(value.get("required")) {
            Some(m) => m,
            None => {
                return None;
            },
        };
        let one_of = match read_value_list(value.get("oneOf")) {
            Some(m) => m,
            None => {
                return None;
            },
        };
        let prefix_items = match read_value_list(value.get("prefixItems")) {
            Some(m) => m,
            None => {
                return None;
            },
        };
        let key_type = read_optional_value(value.get("keyType"));
        let value_type = read_optional_value(value.get("valueType"));
        let items = read_optional_value(value.get("items"));
        Some(
            SchemaDescriptor {
                short_path,
                type_path,
                module,
                crate_name,
                reflect_types,
                kind,
                key_type,
                value_type,
                schema_type,
                additional_properties,
                properties,
                required,
                one_of,
                prefix_items,
                items,
            },
        )
    }
}

/// Whether the value `v` holds a registry: an object whose members are
/// descriptors.
pub open spec fn is_schema(v: JsonView) -> bool {
    match v {
        JsonView::Object(members) => all_descriptors(members),
        _ => false,
    }
}

/// Whether each of `members` holds a descriptor.
pub open spec fn all_descriptors(members: Seq<(Seq<char>, JsonView)>) -> bool {
    forall|i: int| 0 <= i < members.len() ==> is_descriptor(#[trigger] members[i].1)
}

/// Whether `schema` is the registry that the value `v` holds: under each
/// type path the descriptor that the first member of that name holds, and
/// nothing under any other.
pub open spec fn describes_schema(schema: Schema, v: JsonView) -> bool {
    match v {
        JsonView::Object(members) => forall|path: Seq<char>|
            match #[trigger] find(members, path) {
                Some(m) => schema.lookup(path) matches Some(d) && describes_type(d@, m),
                None => schema.lookup(path) is None,
            },
        _ => false,
    }
}

/// Reads the registry.
pub fn decode_schema(value: &Json) -> (r: Option<Schema>)
    ensures
        r is Some == is_schema(value@),
        r matches Some(schema) ==> describes_schema(schema, value@),
{
    match value.as_object() {
        Some(members) => {
            let ghost all = member_views(members@);
            let mut schema: Schema = TextMap::new();
            let mut i: usize = 0;
            assert forall|path: Seq<char>| (match #[trigger] find(all.take(0), path) {
                Some(m) => schema.lookup(path) matches Some(d) && describes_type(d@, m),
                None => schema.lookup(path) is None,
            }) by {
                assert(all.take(0) =~= Seq::empty());
            }
            while i < members.len()
                invariant
                    i <= members.len(),
                    all == member_views(members@),
                    value@ == JsonView::Object(all),
                    forall|j: int| 0 <= j < i ==> is_descriptor((#[trigger] all[j]).1),
                    forall|path: Seq<char>|
                        match #[trigger] find(all.take(i as int), path) {
                            Some(m) => schema.lookup(path) matches Some(d) && describes_type(d@, m),
                            None => schema.lookup(path) is None,
                        },
                decreases members.len() - i,
            {
                let ghost before = schema;
                match SchemaDescriptor::decode(&members[i].1) {
                    Some(descriptor) => {
                        schema.insert_if_absent(members[i].0.clone(), descriptor);
                        proof {
                            let prev = all.take(i as int);
                            let next = all.take(i + 1);
                            assert(next =~= prev.push(all[i as int]));
                            assert forall|path: Seq<char>| (match #[trigger] find(next, path) {
                                Some(m) => schema.lookup(path) matches Some(d) && describes_type(
                                    d@,
                                    m,
                                ),
                                None => schema.lookup(path) is None,
                            }) by {
                                lemma_find_push(prev, all[i as int], path);
                                assert(all[i as int] == (
                                    members[i as int].0@,
                                    members[i as int].1@,
                                ));
                                assert(schema.lookup(path) == find(schema.pairs(), path));
                                assert(before.lookup(path) == find(before.pairs(), path));
                                if path != members[i as int].0@ {
                                    assert(schema.lookup(path) == before.lookup(path));
                                }
                            }
                        }
                    },
                    None => {
                        proof {
                            assert(all[i as int] == (members[i as int].0@, members[i as int].1@));
                            assert(!is_descriptor(all[i as int].1));
                            assert(0 <= i < all.len());
                        }
                        return None;
                    },
                }
                i += 1;
            }
            assert(all.take(members.len() as int) =~= all);
            Some(schema)
        },
        None => None,
    }
}

} // verus!
