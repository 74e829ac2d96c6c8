use birp::component;
use birp::connection::{
    after_ping, after_schema, checked_poll_interval, poll_interval, should_refresh,
    ConnectionState, ProbeAction, MAX_SLIDER, PROBE_INTERVAL,
};
use birp::entity_item::{EntityItem, GetComponentsResponse};
use birp::hierarchy::{is_expanded, reconcile, row_click, HierarchyItem};
use birp::inspector::{
    contains_id, data_components, initially_open, inspector_cards, marker_components, toggle_pin,
};
use birp::json::Json;
use birp::schema::{Schema, SchemaDescriptor, SchemaKind, SchemaType};
use birp::states::{EntitiesToolState, InspectorState, ResourcesToolState, TypesToolState};
use birp::text_map::TextMap;
use birp::types_tool::{contains, passes_filter, type_rows, TypeRow};
use birp::utils::{
    add_zero_width_spaces, find_matching_bracket, get_short_type_name, process_generic_part,
    split_top_level_args,
};
use std::collections::BTreeMap;

fn entity(id: u64, components: &[(&str, Json)]) -> EntityItem {
    let components = components.iter().map(|(name, value)| (name.to_string(), value.duplicate())).collect();
    EntityItem::from_get_components(id, &GetComponentsResponse::Strict(components))
}

fn parent(id: u64, children: &[u64]) -> EntityItem {
    let list = Json::Array(children.iter().map(|child| Json::from_u64(*child)).collect());
    entity(id, &[(component::CHILDREN, list)])
}

fn descriptor(path: &str, marker: bool) -> SchemaDescriptor {
    let mut properties: TextMap<Json> = TextMap::new();
    if !marker {
        properties.insert("x".to_string(), Json::Null);
    }
    SchemaDescriptor {
        short_path: path.to_string(),
        type_path: path.to_string(),
        module: None,
        crate_name: None,
        reflect_types: vec![],
        kind: SchemaKind::Struct,
        key_type: None,
        value_type: None,
        schema_type: SchemaType::Object,
        additional_properties: Some(false),
        properties,
        required: vec![],
        one_of: vec![],
        prefix_items: vec![],
        items: None,
    }
}

fn chars(s: &str) -> Vec<char> {
    s.chars().collect()
}

#[test]
fn short_names_of_plain_paths() {
    assert_eq!(get_short_type_name("bevy_ecs::name::Name"), "Name");
    assert_eq!(get_short_type_name("Name"), "Name");
    assert_eq!(get_short_type_name(""), "");
    assert_eq!(get_short_type_name("a::"), "");
    assert_eq!(get_short_type_name("a:::b"), "b");
    assert_eq!(get_short_type_name("a:b"), "a:b");
    assert_eq!(get_short_type_name("::"), "");
    assert_eq!(get_short_type_name("módulo::Tipo"), "Tipo");
}

#[test]
fn short_names_of_types_with_arguments() {
    assert_eq!(get_short_type_name("core::option::Option<glam::Vec3>"), "Option<Vec3>");
    assert_eq!(
        get_short_type_name("bevy_platform::collections::HashMap<alloc::string::String, core::option::Option<u32>>"),
        "HashMap<String, Option<u32>>"
    );
    assert_eq!(get_short_type_name("a::B<c::D,e::F<g::H,i::J>,k::L>"), "B<D, F<H, J>, L>");
    assert_eq!(get_short_type_name("a::B<  c::D  ,\te::F >"), "B<D, F>");
    assert_eq!(get_short_type_name("a::B<c::D>::E"), "B<D>");
    assert_eq!(get_short_type_name("a::B<>"), "B<>");
    assert_eq!(get_short_type_name("a::B<c::D,>"), "B<D>");
    assert_eq!(get_short_type_name("a::B<,c::D>"), "B<, D>");
    assert_eq!(get_short_type_name("<a::B>"), "<B>");
}

#[test]
fn short_names_of_types_whose_brackets_do_not_match() {
    assert_eq!(get_short_type_name("a::B<c::D"), "B");
    assert_eq!(get_short_type_name("a::B<"), "B");
    assert_eq!(get_short_type_name("a::B<c::D<e::F>"), "B");
    assert_eq!(get_short_type_name("a::B>"), "B>");
}

#[test]
fn arguments_are_added_to_a_name() {
    assert_eq!(process_generic_part("Vec", "<a::B>"), "Vec<B>");
    assert_eq!(process_generic_part("Vec", "<a::B> and more"), "Vec<B>");
    assert_eq!(process_generic_part("Vec", "a::B>"), "Vec");
    assert_eq!(process_generic_part("Vec", "<"), "Vec");
    assert_eq!(process_generic_part("Vec", ""), "Vec");
    assert_eq!(process_generic_part("Vec", "<a::B"), "Vec");
}

#[test]
fn matching_brackets() {
    assert_eq!(find_matching_bracket("a>"), Some(1));
    assert_eq!(find_matching_bracket(">"), Some(0));
    assert_eq!(find_matching_bracket("a<b>c>d>"), Some(5));
    assert_eq!(find_matching_bracket("<<>>>"), Some(4));
    assert_eq!(find_matching_bracket("a<b>"), None);
    assert_eq!(find_matching_bracket(""), None);
    assert_eq!(find_matching_bracket("abc"), None);
}

#[test]
fn matching_brackets_are_found_by_their_offset_in_bytes() {
    assert_eq!(find_matching_bracket("\u{e9}<b>c>"), Some(6));
    assert_eq!(find_matching_bracket("\u{e9}>"), Some(2));
    assert_eq!(find_matching_bracket("\u{20ac}\u{1f600}a>"), Some(8));
    assert_eq!(find_matching_bracket("<\u{e9}>\u{7ff}\u{800}\u{ffff}\u{10000}>"), Some(16));
    assert_eq!(find_matching_bracket("\u{e9}<b>"), None);
}

fn first_unmatched(text: &str) -> Option<usize> {
    let mut open = 0usize;
    for (offset, c) in text.char_indices() {
        match c {
            '<' => open += 1,
            '>' if open == 0 => return Some(offset),
            '>' => open -= 1,
            _ => {}
        }
    }
    None
}

#[test]
fn matching_brackets_agree_with_a_scan_of_the_bytes() {
    for text in [
        "",
        ">",
        "a<b>c>",
        "\u{e9}<b>c>",
        "Vec<\u{4e2d}\u{6587}<\u{1f600}>>, x>rest>",
        "\u{7f}\u{80}\u{7ff}\u{800}\u{d7ff}\u{e000}\u{ffff}\u{10000}\u{10ffff}>",
        "<<<\u{e9}>>",
    ] {
        let offset = find_matching_bracket(text);
        assert_eq!(offset, first_unmatched(text), "{text:?}");
        if let Some(offset) = offset {
            assert!(text[offset..].starts_with('>'));
        }
    }
}

#[test]
fn arguments_are_split_at_commas_outside_brackets() {
    assert_eq!(split_top_level_args("a,b"), vec!["a", "b"]);
    assert_eq!(split_top_level_args("a"), vec!["a"]);
    assert_eq!(split_top_level_args(""), Vec::<&str>::new());
    assert_eq!(split_top_level_args("a<b,c>,d"), vec!["a<b,c>", "d"]);
    assert_eq!(split_top_level_args("a, b<c, d<e, f>>, g"), vec!["a", " b<c, d<e, f>>", " g"]);
    assert_eq!(split_top_level_args("a,"), vec!["a"]);
    assert_eq!(split_top_level_args(",a"), vec!["", "a"]);
    assert_eq!(split_top_level_args("a,,b"), vec!["a", "", "b"]);
    assert_eq!(split_top_level_args(","), vec![""]);
    assert_eq!(split_top_level_args("a>,b<,c"), vec!["a>,b<", "c"]);
    assert_eq!(split_top_level_args("a>,b,c"), vec!["a>,b,c"]);
    assert_eq!(split_top_level_args("é,ü"), vec!["é", "ü"]);
}

#[test]
fn lines_may_break_inside_long_names() {
    assert_eq!(add_zero_width_spaces("GlobalTransform"), "Global\u{200B}Transform");
    assert_eq!(add_zero_width_spaces("Option<Vec3>"), "Option<\u{200B}Vec3>");
    assert_eq!(add_zero_width_spaces("HashMap<String, u32>"), "Hash\u{200B}Map<\u{200B}String, u32>");
    assert_eq!(add_zero_width_spaces("lowercase"), "lowercase");
    assert_eq!(add_zero_width_spaces("UPPER"), "UPPER");
    assert_eq!(add_zero_width_spaces("aB"), "a\u{200B}B");
    assert_eq!(add_zero_width_spaces("Ab"), "Ab");
    assert_eq!(add_zero_width_spaces("a1B"), "a1B");
    assert_eq!(add_zero_width_spaces("<"), "<");
    assert_eq!(add_zero_width_spaces("<<"), "<\u{200B}<");
    assert_eq!(add_zero_width_spaces("a"), "a");
    assert_eq!(add_zero_width_spaces(""), "");
    assert_eq!(add_zero_width_spaces("éÉ"), "é\u{200B}É");
}

#[test]
fn a_filter_lets_through_what_holds_it() {
    assert!(passes_filter("bevy_ui::ui_node::Node", ""));
    assert!(passes_filter("bevy_ui::ui_node::Node", "node"));
    assert!(passes_filter("bevy_ui::ui_node::Node", "UI_NODE"));
    assert!(passes_filter("bevy_ui::ui_node::Node", "bevy_ui::ui_node::Node"));
    assert!(!passes_filter("bevy_ui::ui_node::Node", "nodes"));
    assert!(!passes_filter("Node", "bevy_ui::ui_node::Node"));
    assert!(passes_filter("ÉCOLE", "école"));
    assert!(passes_filter("", ""));
    assert!(!passes_filter("", "a"));
}

#[test]
fn texts_within_texts() {
    assert!(contains(&chars("abcabd"), &chars("abd")));
    assert!(contains(&chars("abc"), &chars("")));
    assert!(contains(&chars(""), &chars("")));
    assert!(contains(&chars("abc"), &chars("abc")));
    assert!(contains(&chars("aab"), &chars("ab")));
    assert!(!contains(&chars("abc"), &chars("abcd")));
    assert!(!contains(&chars("abc"), &chars("ca")));
}

#[test]
fn markers_are_set_apart_from_components_with_data() {
    let mut schema: Schema = TextMap::new();
    schema.insert("a::Marker".to_string(), descriptor("a::Marker", true));
    schema.insert("b::Data".to_string(), descriptor("b::Data", false));
    schema.insert("d::Tag".to_string(), descriptor("d::Tag", true));
    let item = entity(
        1,
        &[
            ("d::Tag", Json::Object(vec![])),
            ("c::Unknown", Json::Null),
            ("b::Data", Json::Object(vec![])),
            ("a::Marker", Json::Object(vec![])),
        ],
    );
    assert_eq!(marker_components(&item, &schema), vec!["a::Marker".to_string(), "d::Tag".to_string()]);
    assert_eq!(data_components(&item, &schema), vec!["b::Data".to_string(), "c::Unknown".to_string()]);
    let empty: Schema = TextMap::new();
    assert_eq!(marker_components(&item, &empty), Vec::<String>::new());
    assert_eq!(data_components(&item, &empty).len(), 4);
}

#[test]
fn computed_components_start_folded() {
    assert!(initially_open("bevy_transform::components::transform::Transform"));
    assert!(initially_open(""));
    for path in [
        component::COMPUTED_NODE,
        component::COMPUTED_TEXT_BLOCK,
        component::COMPUTED_UI_TARGET_CAMERA,
        component::GLOBAL_TRANSFORM,
        component::LIGHT_CASCADES,
        component::TEXT_LAYOUT_INFO,
    ] {
        assert!(!initially_open(path));
    }
}

#[test]
fn a_pin_is_set_and_taken_away() {
    let mut pinned: Vec<u64> = vec![];
    toggle_pin(&mut pinned, 3);
    toggle_pin(&mut pinned, 1);
    toggle_pin(&mut pinned, 2);
    assert_eq!(pinned, vec![3, 1, 2]);
    toggle_pin(&mut pinned, 1);
    assert_eq!(pinned, vec![3, 2]);
    toggle_pin(&mut pinned, 1);
    assert_eq!(pinned, vec![3, 2, 1]);
    let mut twice = vec![5, 6, 5];
    toggle_pin(&mut twice, 5);
    assert_eq!(twice, vec![6]);
    assert!(contains_id(&pinned, 2));
    assert!(!contains_id(&pinned, 4));
}

#[test]
fn pinned_entities_and_the_active_one_have_cards() {
    assert_eq!(inspector_cards(&vec![], None), vec![]);
    assert_eq!(inspector_cards(&vec![], Some(4)), vec![(4, false)]);
    assert_eq!(inspector_cards(&vec![2, 1], None), vec![(2, true), (1, true)]);
    assert_eq!(inspector_cards(&vec![2, 1], Some(4)), vec![(2, true), (1, true), (4, false)]);
    assert_eq!(inspector_cards(&vec![2, 1], Some(1)), vec![(2, true), (1, true)]);
}

#[test]
fn a_new_level_starts_folded() {
    let items = reconcile(&BTreeMap::new(), vec![parent(3, &[7]), parent(1, &[]), parent(2, &[8])]);
    let ids: Vec<u64> = items.keys().copied().collect();
    assert_eq!(ids, vec![1, 2, 3]);
    assert!(items.values().all(|item| !item.expanded));
    assert_eq!(items[&3].entity.children(), vec![7]);
}

#[test]
fn an_entity_that_stays_keeps_being_unfolded() {
    let mut items = reconcile(&BTreeMap::new(), vec![parent(1, &[5]), parent(2, &[6]), parent(3, &[7])]);
    row_click(&mut items, 1);
    row_click(&mut items, 3);
    assert!(is_expanded(&items, 1));
    assert!(!is_expanded(&items, 2));
    assert!(is_expanded(&items, 3));
    let next = reconcile(&items, vec![parent(4, &[9]), parent(3, &[]), parent(2, &[6])]);
    let ids: Vec<u64> = next.keys().copied().collect();
    assert_eq!(ids, vec![2, 3, 4]);
    assert!(!is_expanded(&next, 1));
    assert!(!is_expanded(&next, 2));
    assert!(is_expanded(&next, 3));
    assert!(!is_expanded(&next, 4));
    assert_eq!(next[&3].entity.children(), Vec::<u64>::new());
    let back = reconcile(&next, vec![parent(1, &[5])]);
    assert!(!is_expanded(&back, 1));
}

#[test]
fn of_two_children_with_one_identifier_the_last_counts() {
    let items = reconcile(&BTreeMap::new(), vec![parent(1, &[5]), parent(1, &[6, 7])]);
    assert_eq!(items.len(), 1);
    assert_eq!(items[&1].entity.children(), vec![6, 7]);
}

#[test]
fn a_click_folds_and_unfolds_an_entity_with_children() {
    let mut items = reconcile(&BTreeMap::new(), vec![parent(1, &[5]), parent(2, &[])]);
    row_click(&mut items, 1);
    assert_eq!(items[&1], HierarchyItem { entity: parent(1, &[5]), expanded: true });
    row_click(&mut items, 1);
    assert!(!items[&1].expanded);
    row_click(&mut items, 2);
    assert!(!items[&2].expanded);
    row_click(&mut items, 9);
    assert_eq!(items.len(), 2);
}

#[test]
fn the_probe_fetches_the_registry_on_the_way_up() {
    assert_eq!(after_ping(false, true), ProbeAction::FetchSchema);
    assert_eq!(after_ping(true, true), ProbeAction::Settle(true));
    assert_eq!(after_ping(true, false), ProbeAction::Settle(false));
    assert_eq!(after_ping(false, false), ProbeAction::Settle(false));
    assert!(after_schema(true));
    assert!(!after_schema(false));
    assert_eq!(PROBE_INTERVAL, 1000);
}

#[test]
fn ticks_refresh_only_while_connected_and_switched_on() {
    assert!(should_refresh(true, true));
    assert!(!should_refresh(true, false));
    assert!(!should_refresh(false, true));
    assert!(!should_refresh(false, false));
}

#[test]
fn the_interval_doubles_with_each_step_of_the_slider() {
    assert_eq!(poll_interval(0), 125);
    assert_eq!(poll_interval(1), 250);
    assert_eq!(poll_interval(2), 500);
    assert_eq!(poll_interval(3), 1000);
    assert_eq!(poll_interval(4), 2000);
    assert_eq!(poll_interval(MAX_SLIDER), 125 << 57);
    assert_eq!(checked_poll_interval(4), Some(2000));
    assert_eq!(checked_poll_interval(57), Some(125 << 57));
    assert_eq!(checked_poll_interval(58), None);
    assert_eq!(checked_poll_interval(u32::MAX), None);
}

#[test]
fn a_connection_starts_down_and_refreshing() {
    let settings = ConnectionState::new("http://127.0.0.1:15702".to_string());
    assert!(settings.automatic_poll);
    assert!(!settings.is_connected);
    assert_eq!(settings.poll_interval, 250);
    assert_eq!(settings.url, "http://127.0.0.1:15702");
    assert_eq!(settings.poll_interval, poll_interval(1));
}

#[test]
fn the_tools_start_with_nothing_picked() {
    let entities = EntitiesToolState::new();
    assert_eq!(entities.active, None);
    assert_eq!(entities.pinned, Vec::<u64>::new());
    assert_eq!(entities.cards(), vec![]);
    assert_eq!(ResourcesToolState::new().active, None);
    let types = TypesToolState::new();
    assert_eq!(types.active, None);
    assert_eq!(types.filter, "");
    assert!(types.lists("any::Type"));
}

#[test]
fn picking_and_pinning_entities() {
    let mut state = EntitiesToolState::new();
    state.pick(4);
    assert_eq!(state.cards(), vec![(4, false)]);
    state.toggle_pin(4);
    state.toggle_pin(2);
    assert_eq!(state.cards(), vec![(4, true), (2, true)]);
    state.pick(9);
    assert_eq!(state.cards(), vec![(4, true), (2, true), (9, false)]);
    state.toggle_pin(4);
    assert_eq!(state.pinned, vec![2]);
    assert_eq!(state.active, Some(9));
}

#[test]
fn the_list_of_types_is_filtered() {
    let mut state = TypesToolState::new();
    state.filter = "Vec".to_string();
    assert!(state.lists("glam::Vec3"));
    assert!(state.lists("alloc::vec::Vec<u8>"));
    assert!(!state.lists("glam::Quat"));
}

fn row(label: &str, value: Json) -> TypeRow {
    TypeRow::Value { label: label.to_string(), value }
}

fn text(value: &str) -> Json {
    Json::String(value.to_string())
}

#[test]
fn a_type_with_only_what_must_be_there_has_three_rows() {
    let mut d = descriptor("a::T", true);
    d.additional_properties = None;
    d.kind = SchemaKind::Mapping;
    d.schema_type = SchemaType::UniqueSet;
    assert_eq!(
        type_rows(&d),
        vec![row("Type", text("a::T")), row("Kind", text("Map")), row("Schema Type", text("Set"))]
    );
}

#[test]
fn a_type_with_everything_has_a_row_for_each_field() {
    let mut d = descriptor("a::T", false);
    d.module = Some("a".to_string());
    d.crate_name = Some("a".to_string());
    d.reflect_types = vec!["Component".to_string(), "Default".to_string()];
    d.one_of = vec![text("A"), text("B")];
    d.properties.insert("w".to_string(), Json::Bool(true));
    d.required = vec!["x".to_string(), "zz".to_string()];
    d.key_type = Some(Json::from_u64(1));
    d.value_type = Some(Json::from_u64(2));
    d.prefix_items = vec![Json::from_u64(3)];
    d.items = Some(Json::from_u64(4));
    assert_eq!(
        type_rows(&d),
        vec![
            row("Type", text("a::T")),
            row("Module", text("a")),
            row("Reflect Types", Json::Array(vec![text("Component"), text("Default")])),
            row("Kind", text("Struct")),
            row("Schema Type", text("Object")),
            row("One Of", Json::Array(vec![text("A"), text("B")])),
            row("Additional Properties", Json::Bool(false)),
            TypeRow::Properties(vec![
                ("w".to_string(), false, Json::Bool(true)),
                ("x".to_string(), true, Json::Null),
            ]),
            row("Key Type", Json::from_u64(1)),
            row("Value Type", Json::from_u64(2)),
            row("Prefix Items", Json::Array(vec![Json::from_u64(3)])),
            row("Items", Json::from_u64(4)),
        ]
    );
}

#[test]
fn the_inspector_of_entities_has_the_state_of_its_tool() {
    let state: InspectorState = InspectorState::new();
    assert_eq!(state, EntitiesToolState::new());
}

#[test]
fn the_arguments_with_commas_between_them_are_the_text() {
    for text in ["a", "a,b", "a<b,c>,d", " a , b<c, d<e, f>> ,g", ",a", "a,,b", "a>,b<,c", "x<y"] {
        assert_eq!(split_top_level_args(text).join(","), text, "{text:?}");
    }
    for text in ["a,", ",", "a<b>,", "a,b,"] {
        assert_eq!(split_top_level_args(text).join(","), &text[..text.len() - 1], "{text:?}");
    }
    assert_eq!(split_top_level_args("a<b,").join(","), "a<b,");
}
