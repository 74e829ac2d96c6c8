use bevy_remote::schemas::json_schema::JsonSchemaBevyType;
use birp::bevy_type;
use birp::component;
use birp::component_value::{
    interpret, number_input, strategy, uses_dropdown, NumberInput, Step, Strategy, ValueNode,
};
use birp::inspector::{inspect_component, ComponentNode};
use birp::json::Json;
use birp::json_value::{render_raw, RawNode};
use birp::map_value::{coerce, map_value};
use birp::schema::{
    decode_schema, get_type_path_from_ref_value, resolve, Schema, SchemaDescriptor, SchemaKind,
    SchemaType,
};
use birp::text_map::TextMap;

fn convert(value: &serde_json::Value) -> Json {
    match value {
        serde_json::Value::Null => Json::Null,
        serde_json::Value::Bool(b) => Json::Bool(*b),
        serde_json::Value::Number(n) => Json::Number(n.to_string()),
        serde_json::Value::String(s) => Json::String(s.clone()),
        serde_json::Value::Array(items) => Json::Array(items.iter().map(convert).collect()),
        serde_json::Value::Object(members) => {
            Json::Object(members.iter().map(|(k, v)| (k.clone(), convert(v))).collect())
        }
    }
}

fn json(text: &str) -> Json {
    convert(&serde_json::from_str::<serde_json::Value>(text).unwrap())
}

fn reference(path: &str) -> Json {
    Json::Object(vec![(
        "type".to_string(),
        Json::Object(vec![("$ref".to_string(), Json::String(format!("#/$defs/{path}")))]),
    )])
}

fn descriptor(path: &str, schema_type: SchemaType, kind: SchemaKind) -> SchemaDescriptor {
    SchemaDescriptor {
        short_path: path.rsplit("::").next().unwrap().to_string(),
        type_path: path.to_string(),
        module: None,
        crate_name: None,
        reflect_types: vec![],
        kind,
        key_type: None,
        value_type: None,
        schema_type,
        additional_properties: None,
        properties: TextMap::new(),
        required: vec![],
        one_of: vec![],
        prefix_items: vec![],
        items: None,
    }
}

fn structure(path: &str, properties: &[(&str, &str)]) -> SchemaDescriptor {
    let mut d = descriptor(path, SchemaType::Object, SchemaKind::Struct);
    d.additional_properties = Some(false);
    for (name, ty) in properties {
        d.properties.insert(name.to_string(), reference(ty));
    }
    d
}

fn list(path: &str, items: &str) -> SchemaDescriptor {
    let mut d = descriptor(path, SchemaType::Array, SchemaKind::List);
    d.items = Some(reference(items));
    d
}

fn wrapper(path: &str, inner: &str) -> SchemaDescriptor {
    let mut d = descriptor(path, SchemaType::Array, SchemaKind::TupleStruct);
    d.prefix_items = vec![reference(inner)];
    d
}

fn registry(descriptors: Vec<SchemaDescriptor>) -> Schema {
    let mut schema: Schema = TextMap::new();
    for d in descriptors {
        schema.insert(d.type_path.clone(), d);
    }
    schema
}

fn primitives() -> Vec<SchemaDescriptor> {
    vec![
        descriptor("f32", SchemaType::Float, SchemaKind::Value),
        descriptor("i32", SchemaType::Int, SchemaKind::Value),
        descriptor("u32", SchemaType::Uint, SchemaKind::Value),
        descriptor("bool", SchemaType::Boolean, SchemaKind::Value),
        descriptor("alloc::string::String", SchemaType::String, SchemaKind::Value),
    ]
}

fn number(value: &str, input: NumberInput, path: &str) -> ValueNode {
    ValueNode::Number { value: value.to_string(), input, path: path.to_string() }
}

const FLOAT: NumberInput = NumberInput { min: None, step: Some(Step::Any) };
const INT: NumberInput = NumberInput { min: None, step: Some(Step::One) };
const UINT: NumberInput = NumberInput { min: Some(0), step: Some(Step::One) };

#[test]
fn vectors_become_objects_with_named_fields() {
    assert_eq!(map_value(bevy_type::GLAM_VEC2, json("[1.5, -2.0]")), json(r#"{"x": 1.5, "y": -2.0}"#));
    assert_eq!(
        map_value(bevy_type::GLAM_VEC3, json("[1.5, -2.0, 0.25]")),
        json(r#"{"x": 1.5, "y": -2.0, "z": 0.25}"#)
    );
    assert_eq!(
        map_value(bevy_type::GLAM_VEC3A, json("[1.5, -2.0, 0.25]")),
        json(r#"{"x": 1.5, "y": -2.0, "z": 0.25}"#)
    );
    assert_eq!(
        map_value(bevy_type::GLAM_QUAT, json("[0.1, 0.2, 0.3, 0.9]")),
        json(r#"{"w": 0.9, "x": 0.1, "y": 0.2, "z": 0.3}"#)
    );
}

#[test]
fn the_fields_of_a_vector_are_the_numbers_of_the_array() {
    let numbers = [1.5f64, -2.0, 0.25, 1e-7, 123456789.125, f64::MAX, f64::MIN_POSITIVE, -0.0];
    for window in numbers.windows(4) {
        let array = serde_json::Value::from(window.to_vec());
        let object = map_value(bevy_type::GLAM_QUAT, convert(&array));
        for (name, index) in [("x", 0), ("y", 1), ("z", 2), ("w", 3)] {
            let field = object.get(name).unwrap();
            assert_eq!(field, &convert(&array[index]));
            let text = match field {
                Json::Number(literal) => literal.clone(),
                other => panic!("{other:?}"),
            };
            assert_eq!(text.parse::<f64>().unwrap().to_bits(), window[index].to_bits());
        }
    }
}

#[test]
fn a_quaternion_without_its_fourth_item_has_w_one() {
    assert_eq!(
        map_value(bevy_type::GLAM_QUAT, json("[0.5, 0.5, 0.5]")),
        json(r#"{"w": 1.0, "x": 0.5, "y": 0.5, "z": 0.5}"#)
    );
    assert_eq!(
        map_value(bevy_type::GLAM_QUAT, json("[]")),
        json(r#"{"w": 1.0, "x": 0.0, "y": 0.0, "z": 0.0}"#)
    );
}

#[test]
fn missing_items_and_what_is_no_number_count_as_zero() {
    assert_eq!(map_value(bevy_type::GLAM_VEC3, json("[2.5]")), json(r#"{"x": 2.5, "y": 0.0, "z": 0.0}"#));
    assert_eq!(
        map_value(bevy_type::GLAM_VEC2, json(r#"["1.0", null, 3.0]"#)),
        json(r#"{"x": 0.0, "y": 0.0}"#)
    );
}

#[test]
fn integers_in_a_vector_become_doubles() {
    assert_eq!(map_value(bevy_type::GLAM_VEC2, json("[1, -2]")), json(r#"{"x": 1.0, "y": -2.0}"#));
    assert_eq!(
        map_value(bevy_type::GLAM_VEC2, json("[9007199254740993, 18446744073709551615]")),
        json(r#"{"x": 9007199254740992.0, "y": 1.8446744073709552e19}"#)
    );
}

#[test]
fn other_values_and_other_types_are_left_as_they_are() {
    assert_eq!(map_value(bevy_type::GLAM_VEC2, json(r#"{"x": 1.0, "y": 2.0}"#)), json(r#"{"x": 1.0, "y": 2.0}"#));
    assert_eq!(map_value(bevy_type::GLAM_VEC2, json("3.0")), json("3.0"));
    assert_eq!(map_value("glam::Vec4", json("[1.0, 2.0]")), json("[1.0, 2.0]"));
    assert_eq!(map_value("glam::IVec2", json("[1, 2]")), json("[1, 2]"));
    assert_eq!(coerce("glam::IVec2", &json("[1, 2]")), None);
    assert_eq!(coerce(bevy_type::GLAM_VEC2, &json("true")), None);
    assert!(coerce(bevy_type::GLAM_VEC2, &json("[]")).is_some());
}

#[test]
fn references_name_type_paths() {
    assert_eq!(get_type_path_from_ref_value(&reference("glam::Vec3")), Some("glam::Vec3".to_string()));
    assert_eq!(
        get_type_path_from_ref_value(&json(r##"{"type": {"$ref": "#/$defs/core::option::Option<f32>"}}"##)),
        Some("core::option::Option<f32>".to_string())
    );
    assert_eq!(get_type_path_from_ref_value(&json(r##"{"type": {"$ref": "#/$defs/"}}"##)), Some(String::new()));
    assert_eq!(get_type_path_from_ref_value(&json(r##"{"type": {"$ref": "#/defs/x"}}"##)), None);
    assert_eq!(get_type_path_from_ref_value(&json(r##"{"type": {"$ref": 1}}"##)), None);
    assert_eq!(get_type_path_from_ref_value(&json(r##"{"type": {"ref": "#/$defs/x"}}"##)), None);
    assert_eq!(get_type_path_from_ref_value(&json(r##"{"type": "#/$defs/x"}"##)), None);
    assert_eq!(get_type_path_from_ref_value(&json(r##"{"$ref": "#/$defs/x"}"##)), None);
    assert_eq!(get_type_path_from_ref_value(&json(r##"[]"##)), None);
}

#[test]
fn references_are_looked_up_in_the_registry() {
    let schema = registry(primitives());
    assert_eq!(resolve(&schema, &reference("f32")).map(|d| d.type_path.as_str()), Some("f32"));
    assert_eq!(resolve(&schema, &reference("f64")), None);
    assert_eq!(resolve(&schema, &Json::Null), None);
}

#[test]
fn strategies_by_type_path() {
    for path in [
        component::COMPUTED_NODE_TARGET,
        component::COMPUTED_NODE,
        component::COMPUTED_TEXT_BLOCK,
        component::GLOBAL_TRANSFORM,
        component::POINTER_PRESS,
        component::MONITOR,
        component::TEXT_LAYOUT_INFO,
    ] {
        assert_eq!(strategy(&structure(path, &[("x", "f32")])), Strategy::ReadOnly);
        assert_eq!(strategy(&structure(path, &[])), Strategy::ReadOnly);
    }
    assert_eq!(strategy(&descriptor(bevy_type::ENTITY, SchemaType::Uint, SchemaKind::Value)), Strategy::EntityReference);
    assert_eq!(strategy(&descriptor(component::NAME, SchemaType::Object, SchemaKind::Struct)), Strategy::DisplayName);
}

#[test]
fn strategies_by_primitive_type_and_kind() {
    let of = |t, k| strategy(&descriptor("a::T", t, k));
    assert_eq!(of(SchemaType::Boolean, SchemaKind::Value), Strategy::Boolean);
    assert_eq!(of(SchemaType::Float, SchemaKind::Value), Strategy::Number);
    assert_eq!(of(SchemaType::Int, SchemaKind::Value), Strategy::Number);
    assert_eq!(of(SchemaType::Uint, SchemaKind::Value), Strategy::Number);
    assert_eq!(of(SchemaType::String, SchemaKind::Value), Strategy::Text);
    assert_eq!(of(SchemaType::String, SchemaKind::Enum), Strategy::Choice);
    assert_eq!(of(SchemaType::Array, SchemaKind::List), Strategy::List);
    assert_eq!(of(SchemaType::Array, SchemaKind::TupleStruct), Strategy::TupleStruct);
    assert_eq!(of(SchemaType::Object, SchemaKind::Struct), Strategy::Struct);
    assert_eq!(of(SchemaType::Object, SchemaKind::Mapping), Strategy::Fallback);
    assert_eq!(of(SchemaType::Object, SchemaKind::Enum), Strategy::Fallback);
    assert_eq!(of(SchemaType::Array, SchemaKind::Array), Strategy::Fallback);
    assert_eq!(of(SchemaType::Array, SchemaKind::Tuple), Strategy::Fallback);
    assert_eq!(of(SchemaType::UniqueSet, SchemaKind::UniqueSet), Strategy::Fallback);
    assert_eq!(of(SchemaType::Null, SchemaKind::Value), Strategy::Fallback);
    assert_eq!(of(SchemaType::Object, SchemaKind::Value), Strategy::Fallback);
}

#[test]
fn a_marker_is_never_dispatched_by_its_structure() {
    let marker = structure("a::Marker", &[]);
    assert!(marker.is_marker());
    assert_eq!(strategy(&marker), Strategy::Marker);
    let schema = registry(vec![]);
    assert_eq!(interpret(&json("{}"), &marker, &schema, &None), ValueNode::Marker);
    assert_eq!(interpret(&json(r#"{"x": 1}"#), &marker, &schema, &None), ValueNode::Marker);
    assert_eq!(interpret(&json("[1, 2]"), &marker, &schema, &Some(".m".to_string())), ValueNode::Marker);
}

#[test]
fn what_is_almost_a_marker_is_none() {
    assert!(!structure("a::T", &[("x", "f32")]).is_marker());
    let mut open = structure("a::T", &[]);
    open.additional_properties = Some(true);
    assert!(!open.is_marker());
    assert_eq!(strategy(&open), Strategy::Fallback);
    let mut unsaid = structure("a::T", &[]);
    unsaid.additional_properties = None;
    assert!(!unsaid.is_marker());
    assert_eq!(strategy(&unsaid), Strategy::Struct);
    let mut other_kind = structure("a::T", &[]);
    other_kind.kind = SchemaKind::Enum;
    assert!(!other_kind.is_marker());
    let mut other_type = structure("a::T", &[]);
    other_type.schema_type = SchemaType::Array;
    assert!(!other_type.is_marker());
}

#[test]
fn numeric_inputs() {
    assert_eq!(number_input(SchemaType::Float), FLOAT);
    assert_eq!(number_input(SchemaType::Int), INT);
    assert_eq!(number_input(SchemaType::Uint), UINT);
    assert_eq!(number_input(SchemaType::String), NumberInput { min: None, step: None });
}

#[test]
fn leaves_are_bound_to_the_path_of_the_value() {
    let schema = registry(vec![]);
    let at = Some(".a[1]".to_string());
    assert_eq!(
        interpret(&json("true"), &descriptor("bool", SchemaType::Boolean, SchemaKind::Value), &schema, &at),
        ValueNode::Boolean { checked: true, path: ".a[1]".to_string() }
    );
    assert_eq!(
        interpret(&json("0"), &descriptor("bool", SchemaType::Boolean, SchemaKind::Value), &schema, &None),
        ValueNode::Boolean { checked: false, path: String::new() }
    );
    assert_eq!(
        interpret(&json("1.5"), &descriptor("f32", SchemaType::Float, SchemaKind::Value), &schema, &at),
        number("1.5", FLOAT, ".a[1]")
    );
    assert_eq!(
        interpret(&json("-3"), &descriptor("i8", SchemaType::Int, SchemaKind::Value), &schema, &at),
        number("-3", INT, ".a[1]")
    );
    assert_eq!(
        interpret(&json("\"hi\""), &descriptor("alloc::string::String", SchemaType::String, SchemaKind::Value), &schema, &at),
        ValueNode::Text { value: "hi".to_string(), path: ".a[1]".to_string() }
    );
    assert_eq!(
        interpret(&json("\"Player\""), &descriptor(component::NAME, SchemaType::Object, SchemaKind::Struct), &schema, &None),
        ValueNode::Text { value: "Player".to_string(), path: String::new() }
    );
}

#[test]
fn a_choice_offers_the_values_of_the_enum() {
    let mut d = descriptor("a::Direction", SchemaType::String, SchemaKind::Enum);
    d.one_of = vec![json("\"Row\""), json("\"Column\""), json(r#"{"Custom": 1}"#)];
    assert_eq!(
        interpret(&json("\"Column\""), &d, &registry(vec![]), &Some(".direction".to_string())),
        ValueNode::Choice {
            value: "Column".to_string(),
            options: vec!["Row".to_string(), "Column".to_string(), "{\"Custom\":1}".to_string()],
            path: ".direction".to_string(),
        }
    );
    assert!(!uses_dropdown(3));
    assert!(uses_dropdown(4));
}

#[test]
fn identifiers_of_entities_are_shown_as_references() {
    let d = descriptor(bevy_type::ENTITY, SchemaType::Uint, SchemaKind::Value);
    let schema = registry(vec![]);
    assert_eq!(interpret(&json("4294967297"), &d, &schema, &None), ValueNode::EntityReference(4294967297));
    assert_eq!(interpret(&json("4294967296"), &d, &schema, &None), ValueNode::InvalidEntity);
    assert_eq!(interpret(&json("\"1\""), &d, &schema, &None), ValueNode::InvalidEntity);
}

#[test]
fn a_struct_with_one_unsigned_property() {
    let mut descriptors = primitives();
    descriptors.push(structure("a::Counter", &[("count", "u32")]));
    let schema = registry(descriptors);
    let node = interpret(&json(r#"{"count": 3}"#), schema.get("a::Counter").unwrap(), &schema, &None);
    assert_eq!(node, ValueNode::Struct(vec![("count".to_string(), number("3", UINT, ".count"))]));
}

#[test]
fn the_same_struct_from_the_registry_as_it_is_sent() {
    let schema = decode_schema(&json(
        r##"{
            "a::Counter": {
                "shortPath": "Counter", "typePath": "a::Counter", "kind": "Struct", "type": "object",
                "additionalProperties": false, "required": ["count"],
                "properties": {"count": {"type": {"$ref": "#/$defs/u32"}}}
            },
            "u32": {"shortPath": "u32", "typePath": "u32", "kind": "Value", "type": "uint"}
        }"##,
    ))
    .unwrap();
    let node = inspect_component("a::Counter", Some(&json(r#"{"count": 3}"#)), &schema);
    assert_eq!(
        node,
        ComponentNode::Value(ValueNode::Struct(vec![("count".to_string(), number("3", UINT, ".count"))]))
    );
}

#[test]
fn properties_come_in_the_order_of_their_names() {
    let mut descriptors = primitives();
    let mut d = descriptor("a::Pair", SchemaType::Object, SchemaKind::Struct);
    d.properties.insert("b".to_string(), reference("alloc::string::String"));
    d.properties.insert("a".to_string(), reference("i32"));
    descriptors.push(d);
    let schema = registry(descriptors);
    let node = interpret(&json(r#"{"b": "text", "a": -1}"#), schema.get("a::Pair").unwrap(), &schema, &None);
    assert_eq!(
        node,
        ValueNode::Struct(vec![
            ("a".to_string(), number("-1", INT, ".a")),
            ("b".to_string(), ValueNode::Text { value: "text".to_string(), path: ".b".to_string() }),
        ])
    );
}

#[test]
fn a_property_that_cannot_be_shown_does_not_stop_the_others() {
    let mut descriptors = primitives();
    descriptors.push(structure("a::T", &[("known", "f32"), ("missing", "f32"), ("unknown", "nowhere::T")]));
    let schema = registry(descriptors);
    let node = interpret(&json(r#"{"known": 1.0, "unknown": 2.0}"#), schema.get("a::T").unwrap(), &schema, &None);
    assert_eq!(
        node,
        ValueNode::Struct(vec![
            ("known".to_string(), number("1.0", FLOAT, ".known")),
            ("missing".to_string(), ValueNode::MissingValue),
            ("unknown".to_string(), ValueNode::UnknownProperty),
        ])
    );
    let node = interpret(&json("7"), schema.get("a::T").unwrap(), &schema, &None);
    assert_eq!(
        node,
        ValueNode::Struct(vec![
            ("known".to_string(), ValueNode::MissingValue),
            ("missing".to_string(), ValueNode::MissingValue),
            ("unknown".to_string(), ValueNode::UnknownProperty),
        ])
    );
}

#[test]
fn the_items_of_a_list_have_their_index_in_the_path() {
    let mut descriptors = primitives();
    descriptors.push(list("alloc::vec::Vec<f32>", "f32"));
    let schema = registry(descriptors);
    let d = schema.get("alloc::vec::Vec<f32>").unwrap();
    assert_eq!(
        interpret(&json("[1.5, 2.5]"), d, &schema, &Some(".weights".to_string())),
        ValueNode::List(vec![
            (".weights[0]".to_string(), number("1.5", FLOAT, ".weights[0]")),
            (".weights[1]".to_string(), number("2.5", FLOAT, ".weights[1]")),
        ])
    );
    assert_eq!(interpret(&json("[]"), d, &schema, &None), ValueNode::List(vec![]));
    assert_eq!(interpret(&json("{}"), d, &schema, &None), ValueNode::List(vec![]));
}

#[test]
fn a_list_of_structs_nests_the_paths() {
    let mut descriptors = primitives();
    descriptors.push(structure("a::Point", &[("position", "f32")]));
    descriptors.push(list("alloc::vec::Vec<a::Point>", "a::Point"));
    let schema = registry(descriptors);
    let d = schema.get("alloc::vec::Vec<a::Point>").unwrap();
    let node = interpret(&json(r#"[{"position": 0.0}, {"position": 1.0}, {"position": 2.0}]"#), d, &schema, &None);
    match node {
        ValueNode::List(items) => {
            assert_eq!(items.len(), 3);
            assert_eq!(items[2].0, "[2]");
            assert_eq!(
                items[2].1,
                ValueNode::Struct(vec![("position".to_string(), number("2.0", FLOAT, "[2].position"))])
            );
        }
        other => panic!("{other:?}"),
    }
}

#[test]
fn a_wrapper_is_opened() {
    let mut descriptors = primitives();
    descriptors.push(wrapper("a::Health", "f32"));
    descriptors.push(wrapper("a::Outer", "a::Health"));
    let schema = registry(descriptors);
    assert_eq!(
        interpret(&json("100.0"), schema.get("a::Health").unwrap(), &schema, &None),
        number("100.0", FLOAT, ".0")
    );
    assert_eq!(
        interpret(&json("100.0"), schema.get("a::Outer").unwrap(), &schema, &Some(".h".to_string())),
        number("100.0", FLOAT, ".h.0.0")
    );
}

#[test]
fn a_wrapper_that_wraps_itself_is_told() {
    let schema = registry(vec![wrapper("a::Loop", "a::Loop")]);
    assert_eq!(interpret(&json("1"), schema.get("a::Loop").unwrap(), &schema, &None), ValueNode::Cyclic);
    let schema = registry(vec![wrapper("a::A", "a::B"), wrapper("a::B", "a::A")]);
    assert_eq!(interpret(&json("1"), schema.get("a::A").unwrap(), &schema, &None), ValueNode::Cyclic);
}

#[test]
fn a_chain_of_wrappers_as_long_as_the_registry_is_opened() {
    let mut descriptors = vec![descriptor("f32", SchemaType::Float, SchemaKind::Value)];
    descriptors.push(wrapper("a::W1", "f32"));
    descriptors.push(wrapper("a::W2", "a::W1"));
    descriptors.push(wrapper("a::W3", "a::W2"));
    let schema = registry(descriptors);
    assert_eq!(
        interpret(&json("1.0"), schema.get("a::W3").unwrap(), &schema, &None),
        number("1.0", FLOAT, ".0.0.0")
    );
    let outside = wrapper("a::W4", "a::W3");
    assert_eq!(interpret(&json("1.0"), &outside, &schema, &None), number("1.0", FLOAT, ".0.0.0.0"));
}

#[test]
fn types_that_are_not_in_the_registry() {
    let schema = registry(primitives());
    assert_eq!(
        interpret(&json("[1]"), &list("a::L", "nowhere::T"), &schema, &None),
        ValueNode::TypeNotFound(Some(reference("nowhere::T")))
    );
    assert_eq!(
        interpret(&json("[1]"), &descriptor("a::L", SchemaType::Array, SchemaKind::List), &schema, &None),
        ValueNode::TypeNotFound(None)
    );
    assert_eq!(
        interpret(&json("1"), &wrapper("a::W", "nowhere::T"), &schema, &None),
        ValueNode::TypeNotFound(Some(reference("nowhere::T")))
    );
    assert_eq!(
        interpret(&json("1"), &descriptor("a::W", SchemaType::Array, SchemaKind::TupleStruct), &schema, &None),
        ValueNode::TypeNotFound(None)
    );
}

#[test]
fn a_vector_is_shown_by_its_named_fields() {
    let mut descriptors = primitives();
    descriptors.push(structure(bevy_type::GLAM_VEC3, &[("x", "f32"), ("y", "f32"), ("z", "f32")]));
    descriptors.push(structure("a::Transform", &[("scale", bevy_type::GLAM_VEC3)]));
    let schema = registry(descriptors);
    let node = interpret(
        &json(r#"{"scale": [1.0, 2.0, 3.5]}"#),
        schema.get("a::Transform").unwrap(),
        &schema,
        &None,
    );
    assert_eq!(
        node,
        ValueNode::Struct(vec![(
            "scale".to_string(),
            ValueNode::Struct(vec![
                ("x".to_string(), number("1.0", FLOAT, ".scale.x")),
                ("y".to_string(), number("2.0", FLOAT, ".scale.y")),
                ("z".to_string(), number("3.5", FLOAT, ".scale.z")),
            ]),
        )])
    );
}

#[test]
fn computed_data_is_shown_raw_from_its_path() {
    let d = structure(component::GLOBAL_TRANSFORM, &[("x", "f32")]);
    let node = interpret(&json(r#"{"x": [1]}"#), &d, &registry(primitives()), &Some(".g".to_string()));
    assert_eq!(node, ValueNode::Raw(render_raw(&json(r#"{"x": [1]}"#), &Some(".g".to_string()))));
    let node = interpret(&json(r#"{"x": [1]}"#), &d, &registry(primitives()), &None);
    assert_eq!(node, ValueNode::Raw(render_raw(&json(r#"{"x": [1]}"#), &Some(String::new()))));
}

#[test]
fn what_the_schema_does_not_cover_is_shown_raw_from_the_root() {
    let d = descriptor("a::Dictionary", SchemaType::Object, SchemaKind::Mapping);
    let node = interpret(&json(r#"{"k": 1}"#), &d, &registry(vec![]), &Some(".m".to_string()));
    assert_eq!(node, ValueNode::Raw(render_raw(&json(r#"{"k": 1}"#), &None)));
}

#[test]
fn raw_values() {
    assert_eq!(render_raw(&Json::Null, &None), RawNode::Null);
    assert_eq!(render_raw(&Json::Bool(true), &None), RawNode::Bool(true));
    assert_eq!(render_raw(&json("\"s\""), &None), RawNode::Text("s".to_string()));
    assert_eq!(render_raw(&json("1.5"), &None), RawNode::Number { text: "1.5".to_string(), negative: false });
    assert_eq!(render_raw(&json("-1"), &None), RawNode::Number { text: "-1".to_string(), negative: true });
    assert_eq!(render_raw(&json("-0.0"), &None), RawNode::Number { text: "-0.0".to_string(), negative: true });
    assert_eq!(render_raw(&json("[]"), &None), RawNode::Array(vec![]));
    assert_eq!(render_raw(&json("{}"), &None), RawNode::Object { nested: false, members: vec![] });
}

#[test]
fn raw_containers_carry_paths() {
    let node = render_raw(&json(r#"{"a": [true, {"b": null}], "c": 1}"#), &Some(".root".to_string()));
    assert_eq!(
        node,
        RawNode::Object {
            nested: true,
            members: vec![
                (
                    "a".to_string(),
                    ".root.a".to_string(),
                    RawNode::Array(vec![
                        ("0".to_string(), ".root.a[0]".to_string(), RawNode::Bool(true)),
                        (
                            "1".to_string(),
                            ".root.a[1]".to_string(),
                            RawNode::Object {
                                nested: false,
                                members: vec![("b".to_string(), ".root.a[1].b".to_string(), RawNode::Null)],
                            },
                        ),
                    ]),
                ),
                ("c".to_string(), ".root.c".to_string(), RawNode::Number { text: "1".to_string(), negative: false }),
            ],
        }
    );
    match render_raw(&json("[[1]]"), &None) {
        RawNode::Array(items) => assert_eq!(items[0].1, "[0]"),
        other => panic!("{other:?}"),
    }
}

#[test]
fn components_by_their_type() {
    let schema = registry(primitives());
    assert_eq!(inspect_component("nowhere::T", Some(&json("1")), &schema), ComponentNode::NotRegistered);
    assert_eq!(inspect_component("nowhere::T", None, &schema), ComponentNode::NotRegistered);
    assert_eq!(inspect_component("f32", None, &schema), ComponentNode::NoValue);
    assert_eq!(inspect_component("f32", Some(&json("2.5")), &schema), ComponentNode::Value(number("2.5", FLOAT, "")));
}

#[test]
fn descriptors_are_read_field_by_field() {
    let d = SchemaDescriptor::decode(&json(
        r##"{
            "shortPath": "Node", "typePath": "bevy_ui::ui_node::Node", "modulePath": "bevy_ui::ui_node",
            "crateName": "bevy_ui", "reflectTypes": ["Component", "Default"], "kind": "Struct",
            "type": "object", "additionalProperties": false,
            "properties": {"width": {"type": {"$ref": "#/$defs/f32"}}, "display": {"type": {"$ref": "#/$defs/d"}}},
            "required": ["display", "width"], "oneOf": ["A", {"B": 1}],
            "prefixItems": [{"type": {"$ref": "#/$defs/f32"}}], "items": false,
            "keyType": {"type": {"$ref": "#/$defs/k"}}, "valueType": null, "unknown": 1
        }"##,
    ))
    .unwrap();
    assert_eq!(d.short_path, "Node");
    assert_eq!(d.type_path, "bevy_ui::ui_node::Node");
    assert_eq!(d.module, Some("bevy_ui::ui_node".to_string()));
    assert_eq!(d.crate_name, Some("bevy_ui".to_string()));
    assert_eq!(d.reflect_types, vec!["Component".to_string(), "Default".to_string()]);
    assert_eq!(d.kind, SchemaKind::Struct);
    assert_eq!(d.schema_type, SchemaType::Object);
    assert_eq!(d.additional_properties, Some(false));
    assert_eq!(d.properties.len(), 2);
    assert_eq!(d.properties.key_at(0), "display");
    assert_eq!(d.properties.key_at(1), "width");
    assert_eq!(d.properties.get("width"), Some(&reference("f32")));
    assert_eq!(d.required, vec!["display".to_string(), "width".to_string()]);
    assert_eq!(d.one_of, vec![json("\"A\""), json(r#"{"B": 1}"#)]);
    assert_eq!(d.prefix_items, vec![reference("f32")]);
    assert_eq!(d.items, Some(Json::Bool(false)));
    assert_eq!(d.key_type, Some(reference("k")));
    assert_eq!(d.value_type, None);
}

#[test]
fn descriptors_with_only_what_must_be_there() {
    let d = SchemaDescriptor::decode(&json(r#"{"shortPath": "f32", "typePath": "f32", "kind": "Value", "type": "float"}"#)).unwrap();
    assert_eq!(d, descriptor("f32", SchemaType::Float, SchemaKind::Value));
}

#[test]
fn kinds_and_primitive_types_by_name() {
    for (name, kind) in [
        ("Struct", SchemaKind::Struct),
        ("Enum", SchemaKind::Enum),
        ("Map", SchemaKind::Mapping),
        ("Array", SchemaKind::Array),
        ("List", SchemaKind::List),
        ("Tuple", SchemaKind::Tuple),
        ("TupleStruct", SchemaKind::TupleStruct),
        ("Set", SchemaKind::UniqueSet),
        ("Value", SchemaKind::Value),
    ] {
        assert_eq!(SchemaKind::from_name(name), Some(kind));
        assert_eq!(kind.label(), name);
    }
    assert_eq!(SchemaKind::from_name("struct"), None);
    for (name, ty, label) in [
        ("string", SchemaType::String, "String"),
        ("float", SchemaType::Float, "Float"),
        ("uint", SchemaType::Uint, "Uint"),
        ("int", SchemaType::Int, "Int"),
        ("object", SchemaType::Object, "Object"),
        ("array", SchemaType::Array, "Array"),
        ("boolean", SchemaType::Boolean, "Boolean"),
        ("set", SchemaType::UniqueSet, "Set"),
        ("null", SchemaType::Null, "Null"),
    ] {
        assert_eq!(SchemaType::from_name(name), Some(ty));
        assert_eq!(ty.label(), label);
    }
    assert_eq!(SchemaType::from_name("String"), None);
}

#[test]
fn descriptors_agree_with_bevy_remote() {
    let base = r#""shortPath": "T", "typePath": "a::T", "kind": "Struct", "type": "object""#;
    let mut samples: Vec<String> = vec![
        format!("{{{base}}}"),
        r#"{"typePath": "a::T", "kind": "Struct", "type": "object"}"#.to_string(),
        r#"{"shortPath": "T", "kind": "Struct", "type": "object"}"#.to_string(),
        r#"{"shortPath": "T", "typePath": "a::T", "type": "object"}"#.to_string(),
        r#"{"shortPath": "T", "typePath": "a::T", "kind": "Struct"}"#.to_string(),
        r#"{"shortPath": "T", "typePath": "a::T", "kind": "struct", "type": "object"}"#.to_string(),
        r#"{"shortPath": "T", "typePath": "a::T", "kind": "Struct", "type": "Object"}"#.to_string(),
        r#"{"shortPath": 1, "typePath": "a::T", "kind": "Struct", "type": "object"}"#.to_string(),
        format!("[{{{base}}}]"),
        "null".to_string(),
    ];
    for extra in [
        r#""modulePath": null"#,
        r#""modulePath": "m""#,
        r#""modulePath": 1"#,
        r#""crateName": []"#,
        r#""reflectTypes": ["A"]"#,
        r#""reflectTypes": null"#,
        r#""reflectTypes": [1]"#,
        r#""additionalProperties": true"#,
        r#""additionalProperties": null"#,
        r#""additionalProperties": "no""#,
        r#""properties": {"a": 1}"#,
        r#""properties": null"#,
        r#""properties": []"#,
        r#""required": ["a"]"#,
        r#""required": "a""#,
        r#""oneOf": [1, "a"]"#,
        r#""oneOf": {}"#,
        r#""prefixItems": [[]]"#,
        r#""prefixItems": null"#,
        r#""items": null"#,
        r#""items": 1"#,
        r#""keyType": {"a": 1}"#,
        r#""valueType": null"#,
        r#""somethingElse": 1"#,
    ] {
        samples.push(format!("{{{base}, {extra}}}"));
    }
    for text in samples {
        let theirs = serde_json::from_str::<JsonSchemaBevyType>(&text).ok();
        let ours = SchemaDescriptor::decode(&json(&text));
        assert_eq!(theirs.is_some(), ours.is_some(), "{text}");
        if let (Some(theirs), Some(ours)) = (theirs, ours) {
            assert_eq!(theirs.short_path, ours.short_path, "{text}");
            assert_eq!(theirs.type_path, ours.type_path, "{text}");
            let written = serde_json::to_value(&theirs).unwrap();
            let module = written.get("modulePath").and_then(|m| m.as_str()).map(|m| m.to_string());
            assert_eq!(module, ours.module, "{text}");
            assert_eq!(theirs.crate_name, ours.crate_name, "{text}");
            assert_eq!(theirs.reflect_types, ours.reflect_types, "{text}");
            assert_eq!(format!("{:?}", theirs.kind), ours.kind.label(), "{text}");
            assert_eq!(format!("{:?}", theirs.schema_type), ours.schema_type.label(), "{text}");
            assert_eq!(theirs.additional_properties, ours.additional_properties, "{text}");
            assert_eq!(theirs.properties.len(), ours.properties.len(), "{text}");
            assert_eq!(theirs.required, ours.required, "{text}");
            assert_eq!(theirs.one_of.iter().map(convert).collect::<Vec<_>>(), ours.one_of, "{text}");
            assert_eq!(theirs.prefix_items.iter().map(convert).collect::<Vec<_>>(), ours.prefix_items, "{text}");
            assert_eq!(theirs.items.as_ref().map(convert), ours.items, "{text}");
            assert_eq!(theirs.key_type.as_ref().map(convert), ours.key_type, "{text}");
            assert_eq!(theirs.value_type.as_ref().map(convert), ours.value_type, "{text}");
        }
    }
}

#[test]
fn a_registry_is_an_object_of_descriptors() {
    assert_eq!(decode_schema(&json("{}")).map(|schema| schema.len()), Some(0));
    assert!(decode_schema(&json("[]")).is_none());
    assert!(decode_schema(&json("null")).is_none());
    assert!(decode_schema(&json(r#"{"a": {}}"#)).is_none());
    let schema = decode_schema(&json(
        r#"{
            "b": {"shortPath": "b", "typePath": "b", "kind": "Value", "type": "int"},
            "a": {"shortPath": "a", "typePath": "a", "kind": "Value", "type": "uint"}
        }"#,
    ))
    .unwrap();
    assert_eq!(schema.len(), 2);
    assert_eq!(schema.key_at(0), "a");
    assert_eq!(schema.get("b").unwrap().schema_type, SchemaType::Int);
}

#[test]
fn a_list_under_the_type_path_of_a_vector_shows_no_item() {
    let mut descriptors = primitives();
    descriptors.push(list(bevy_type::GLAM_VEC3, "f32"));
    let schema = registry(descriptors);
    let d = schema.get(bevy_type::GLAM_VEC3).unwrap();
    assert_eq!(interpret(&json("[1.0, 2.0, 3.0]"), d, &schema, &None), ValueNode::List(vec![]));
}
