use birp::client::{
    entity_result, get_children_next, get_children_request, get_components_request, get_followup,
    get_many_result, get_resource_request, get_schema_request, get_schema_result,
    list_components_request, list_resources_request, list_resources_result,
    mutate_component_request, ping_request, roots_request, rows_result, summary_components,
    summary_request, summary_requests, unit_result, ChildrenStep, MutateData, Reply,
};
use birp::component;
use birp::entity_kind::{EntityKind, KIND_COMPONENTS};
use birp::error::{BrpError, ClientError};
use birp::json::Json;
use birp::json_text::to_compact_string;
use birp::rpc::{decode_reply, make_envelope, BrpClient, BrpResponse, Request};

fn convert(value: &serde_json::Value) -> Json {
    match value {
        serde_json::Value::Null => Json::Null,
        serde_json::Value::Bool(b) => Json::Bool(*b),
        serde_json::Value::Number(n) => Json::Number(n.to_string()),
        serde_json::Value::String(s) => Json::String(s.clone()),
        serde_json::Value::Array(items) => Json::Array(items.iter().map(convert).collect()),
        serde_json::Value::Object(members) => {
            Json::Object(members.iter().map(|(k, v)| (k.clone(), convert(v))).collect())
        }
    }
}

fn json(text: &str) -> Json {
    convert(&serde_json::from_str::<serde_json::Value>(text).unwrap())
}

fn params(request: &Request) -> String {
    to_compact_string(request.params.as_ref().unwrap())
}

fn server_error(code: i16, message: &str) -> ClientError {
    ClientError::ServerError(BrpError { code, message: message.to_string(), data: None })
}

fn summary_list() -> String {
    let names: Vec<String> = summary_components().iter().map(|name| format!("\"{name}\"")).collect();
    format!("[{}]", names.join(","))
}

#[test]
fn the_envelope_names_method_identifier_version_and_parameters() {
    let request = get_resource_request("my::Resource");
    assert_eq!(
        to_compact_string(&make_envelope(&request, 7)),
        r#"{"id":7,"jsonrpc":"2.0","method":"world.get_resources","params":{"resource":"my::Resource"}}"#
    );
    assert_eq!(
        to_compact_string(&make_envelope(&ping_request(), 0)),
        r#"{"id":0,"jsonrpc":"2.0","method":"rpc.discover","params":null}"#
    );
    assert_eq!(
        to_compact_string(&make_envelope(&ping_request(), u32::MAX)),
        r#"{"id":4294967295,"jsonrpc":"2.0","method":"rpc.discover","params":null}"#
    );
}

#[test]
fn call_identifiers_count_up() {
    let mut client = BrpClient::new("http://127.0.0.1:15702".to_string());
    assert_eq!(client.url(), "http://127.0.0.1:15702");
    assert_eq!(client.next_call_id(), 0);
    assert_eq!(client.next_call_id(), 1);
    let envelope = client.envelope(&ping_request());
    assert_eq!(envelope.get("id"), Some(&Json::from_u64(2)));
    assert_eq!(client.next_call_id(), 3);
}

#[test]
fn clients_are_the_same_where_their_address_is() {
    let a = BrpClient::new("http://a".to_string());
    let mut b = BrpClient::new("http://a".to_string());
    b.next_call_id();
    assert!(a.same_endpoint(&b));
    assert!(!a.same_endpoint(&BrpClient::new("http://b".to_string())));
}

#[test]
fn a_reply_with_a_result_gives_the_result() {
    assert_eq!(decode_reply(&json(r#"{"id": 1, "result": {"a": 1}}"#)), Ok(json(r#"{"a": 1}"#)));
    assert_eq!(decode_reply(&json(r#"{"id": 1, "result": null}"#)), Ok(Json::Null));
    assert_eq!(decode_reply(&json(r#"{"jsonrpc": "2.0", "id": 99, "result": []}"#)), Ok(json("[]")));
    assert_eq!(
        decode_reply(&json(r#"{"id": 1, "result": 5, "error": {"code": 1, "message": "m"}}"#)),
        Ok(json("5"))
    );
}

#[test]
fn a_reply_with_an_error_gives_a_server_error() {
    assert_eq!(
        decode_reply(&json(r#"{"id": 1, "error": {"code": -32601, "message": "Method not found"}}"#)),
        Err(server_error(-32601, "Method not found"))
    );
    assert_eq!(
        decode_reply(&json(r#"{"id": 1, "error": {"code": 5, "message": "m", "data": [1]}}"#)),
        Err(ClientError::ServerError(BrpError { code: 5, message: "m".to_string(), data: Some(json("[1]")) }))
    );
    assert_eq!(
        decode_reply(&json(r#"{"id": 1, "error": {"code": 5, "message": "m", "data": null}}"#)),
        Err(server_error(5, "m"))
    );
}

#[test]
fn any_other_reply_is_a_parse_error() {
    let parse_error = Err(ClientError::ParseError(
        "reply is neither a result nor an error".to_string(),
    ));
    for text in [
        r#"{"result": 1}"#,
        r#"{"id": null, "result": 1}"#,
        r#"{"id": "1", "result": 1}"#,
        r#"{"id": -1, "result": 1}"#,
        r#"{"id": 4294967296, "result": 1}"#,
        r#"{"id": 1.0, "result": 1}"#,
        r#"{"id": 1}"#,
        r#"{"id": 1, "error": {"code": 40000, "message": "m"}}"#,
        r#"{"id": 1, "error": {"code": 1.5, "message": "m"}}"#,
        r#"{"id": 1, "error": {"code": 1}}"#,
        r#"{"id": 1, "error": {"code": 1, "message": 2}}"#,
        r#"{"id": 1, "error": "failed"}"#,
        r#"[]"#,
        r#"null"#,
        r#""text""#,
    ] {
        assert_eq!(decode_reply(&json(text)), parse_error, "{text}");
    }
}

#[test]
fn the_identifier_of_a_reply_is_not_compared() {
    assert_eq!(decode_reply(&json(r#"{"id": 4294967295, "result": true}"#)), Ok(Json::Bool(true)));
    assert_eq!(decode_reply(&json(r#"{"id": 0, "result": true}"#)), Ok(Json::Bool(true)));
}

#[test]
fn requests_without_parameters() {
    assert_eq!(ping_request(), Request { method: "rpc.discover".to_string(), params: None });
    assert_eq!(list_resources_request(), Request { method: "world.list_resources".to_string(), params: None });
    assert_eq!(get_schema_request(), Request { method: "registry.schema".to_string(), params: None });
}

#[test]
fn requests_with_parameters() {
    let request = list_components_request(4294967297);
    assert_eq!(request.method, "world.list_components");
    assert_eq!(params(&request), r#"{"entity":4294967297}"#);

    let request = get_components_request(3, json(r#"["a::A", "b::B"]"#));
    assert_eq!(request.method, "world.get_components");
    assert_eq!(params(&request), r#"{"components":["a::A","b::B"],"entity":3}"#);

    let request = get_resource_request("bevy_time::time::Time");
    assert_eq!(request.method, "world.get_resources");
    assert_eq!(params(&request), r#"{"resource":"bevy_time::time::Time"}"#);

    let request = mutate_component_request(5, "bevy_ui::ui_node::Node", ".width", json(r#"{"Px": 10.0}"#));
    assert_eq!(request.method, "world.mutate_components");
    assert_eq!(
        params(&request),
        r#"{"component":"bevy_ui::ui_node::Node","entity":5,"path":".width","value":{"Px":10.0}}"#
    );
}

#[test]
fn an_edit_becomes_a_request() {
    let edit = MutateData::new("glam::Vec3".to_string(), "[2].position".to_string(), Json::Bool(true));
    assert_eq!(edit.type_path, "glam::Vec3");
    assert_eq!(edit.path, "[2].position");
    assert_eq!(edit.value, Json::Bool(true));
    assert_eq!(edit.request(8), mutate_component_request(8, "glam::Vec3", "[2].position", Json::Bool(true)));
}

#[test]
fn the_summary_asks_for_name_children_parent_and_kind() {
    let list = summary_components();
    assert_eq!(
        list,
        vec![
            component::NAME,
            component::CHILDREN,
            component::CHILD_OF,
            component::CAMERA,
            component::LIGHT_DIRECTIONAL,
            component::LIGHT_POINT,
            component::LIGHT_SPOT,
            component::MESH_2D,
            component::MESH_3D,
            component::MONITOR,
            component::TEXT,
            component::NODE,
            component::OBSERVER_STATE,
            component::POINTER_ID,
            component::SYSTEM_ID_MARKER,
            component::WINDOW,
        ]
    );
    assert_eq!(&list[..3], &[component::NAME, component::CHILDREN, component::CHILD_OF]);
    assert_eq!(list[3], component::CAMERA);
    let request = summary_request(6);
    assert_eq!(request.method, "world.get_components");
    assert_eq!(params(&request), format!(r#"{{"components":{},"entity":6}}"#, summary_list()));
}

#[test]
fn the_roots_are_asked_for_in_one_query() {
    let request = get_children_request(None);
    assert_eq!(request, roots_request());
    assert_eq!(request.method, "world.query");
    let value = request.params.unwrap();
    let data = value.get("data").unwrap();
    assert_eq!(
        to_compact_string(data.get("option").unwrap()),
        format!(r#"["{}","{}","{}"]"#, component::NAME, component::CHILDREN, component::CHILD_OF)
    );
    let has: Vec<Json> = KIND_COMPONENTS.iter().map(|name| Json::from_text(name)).collect();
    assert_eq!(data.get("has"), Some(&Json::Array(has)));
    assert_eq!(
        to_compact_string(value.get("filter").unwrap()),
        format!(r#"{{"without":["{}"]}}"#, component::CHILD_OF)
    );
}

#[test]
fn the_children_of_an_entity_are_asked_of_the_entity() {
    let request = get_children_request(Some(5));
    assert_eq!(request.method, "world.get_components");
    assert_eq!(params(&request), format!(r#"{{"components":["{}"],"entity":5}}"#, component::CHILDREN));
}

#[test]
fn roots_come_from_the_rows() {
    let reply: Reply = Ok(json(&format!(
        r#"[{{"entity": 1, "components": {{}}, "has": {{"{}": true}}}}, {{"entity": 2, "components": {{"{}": "Two"}}}}]"#,
        component::CAMERA,
        component::NAME
    )));
    match get_children_next(None, reply) {
        ChildrenStep::Done(Ok(items)) => {
            assert_eq!(items.len(), 2);
            assert_eq!(items[0].id, 1);
            assert_eq!(EntityKind::of(&items[0]), EntityKind::Camera);
            assert_eq!(items[0].components.get(component::CAMERA), Some(&None));
            assert_eq!(items[0].components.len(), 1);
            assert_eq!(items[1].id, 2);
            assert_eq!(items[1].name(), Some("Two".to_string()));
        }
        other => panic!("{other:?}"),
    }
}

#[test]
fn a_failed_query_fails_the_lookup_of_roots() {
    match get_children_next(None, Err(ClientError::HttpError("refused".to_string()))) {
        ChildrenStep::Done(Err(error)) => assert_eq!(error, ClientError::HttpError("refused".to_string())),
        other => panic!("{other:?}"),
    }
    match get_children_next(None, Ok(json(r#"{"not": "rows"}"#))) {
        ChildrenStep::Done(Err(error)) => {
            assert_eq!(error, ClientError::ParseError("reply is not a list of query rows".to_string()))
        }
        other => panic!("{other:?}"),
    }
    assert_eq!(rows_result(Ok(json("[]"))).unwrap().len(), 0);
}

#[test]
fn a_failed_lookup_of_the_parent_names_no_child() {
    match get_children_next(Some(5), Err(server_error(-23401, "Entity not found"))) {
        ChildrenStep::Done(Err(error)) => assert_eq!(error, server_error(-23401, "Entity not found")),
        other => panic!("{other:?}"),
    }
    match get_children_next(Some(5), Ok(json("[1, 2]"))) {
        ChildrenStep::Done(Err(error)) => assert_eq!(
            error,
            ClientError::ParseError(
                "reply is no set of components".to_string()
            )
        ),
        other => panic!("{other:?}"),
    }
}

#[test]
fn the_children_are_fetched_in_the_order_of_the_list() {
    let reply: Reply = Ok(json(&format!(
        r#"{{"components": {{"{}": [9, 3, 7]}}, "errors": {{}}}}"#,
        component::CHILDREN
    )));
    match get_children_next(Some(5), reply) {
        ChildrenStep::Fetch(requests) => {
            assert_eq!(requests.len(), 3);
            let ids: Vec<u64> = requests.iter().map(|(id, _)| *id).collect();
            assert_eq!(ids, vec![9, 3, 7]);
            for (id, request) in &requests {
                assert_eq!(request, &summary_request(*id));
            }
        }
        other => panic!("{other:?}"),
    }
}

#[test]
fn an_entity_without_children_fetches_nothing() {
    match get_children_next(Some(5), Ok(json("{}"))) {
        ChildrenStep::Fetch(requests) => assert!(requests.is_empty()),
        other => panic!("{other:?}"),
    }
    assert_eq!(summary_requests(&vec![]), vec![]);
    assert_eq!(get_many_result(&vec![]), Ok(vec![]));
}

#[test]
fn summaries_come_in_the_order_of_the_calls() {
    let replies: Vec<(u64, Reply)> = vec![
        (9, Ok(json(&format!(r#"{{"{}": "Nine"}}"#, component::NAME)))),
        (3, Ok(json(r#"{"components": {}, "errors": {}}"#))),
        (7, Ok(json(&format!(r#"{{"{}": [1]}}"#, component::CHILDREN)))),
    ];
    let items = get_many_result(&replies).unwrap();
    assert_eq!(items.len(), 3);
    assert_eq!(items[0].id, 9);
    assert_eq!(items[0].name(), Some("Nine".to_string()));
    assert_eq!(items[1].id, 3);
    assert!(items[1].components.is_empty());
    assert_eq!(items[2].id, 7);
    assert_eq!(items[2].children(), vec![1]);
}

#[test]
fn one_failed_summary_fails_them_all() {
    let replies: Vec<(u64, Reply)> = vec![
        (9, Ok(json("{}"))),
        (3, Err(server_error(1, "first"))),
        (7, Err(ClientError::HttpError("second".to_string()))),
        (8, Ok(json("{}"))),
    ];
    assert_eq!(get_many_result(&replies), Err(server_error(1, "first")));
    let replies: Vec<(u64, Reply)> = vec![(9, Ok(json("{}"))), (3, Ok(json("3")))];
    assert_eq!(
        get_many_result(&replies),
        Err(ClientError::ParseError(
            "reply is no set of components".to_string()
        ))
    );
}

#[test]
fn an_entity_is_read_whole_in_two_calls() {
    let first = list_components_request(4);
    assert_eq!(first.method, "world.list_components");
    let second = get_followup(4, Ok(json(r#"["a::A", "b::B"]"#))).unwrap();
    assert_eq!(second, get_components_request(4, json(r#"["a::A", "b::B"]"#)));
    assert_eq!(get_followup(4, Err(server_error(2, "gone"))), Err(server_error(2, "gone")));
    let item = entity_result(4, Ok(json(r#"{"a::A": 1, "b::B": 2}"#))).unwrap();
    assert_eq!(item.id, 4);
    assert_eq!(item.components.len(), 2);
    assert_eq!(entity_result(4, Err(server_error(2, "gone"))), Err(server_error(2, "gone")));
}

#[test]
fn lists_of_resources() {
    assert_eq!(
        list_resources_result(Ok(json(r#"["b::B", "a::A"]"#))),
        Ok(vec!["b::B".to_string(), "a::A".to_string()])
    );
    assert_eq!(list_resources_result(Ok(json("[]"))), Ok(vec![]));
    assert_eq!(
        list_resources_result(Ok(json(r#"["a", 1]"#))),
        Err(ClientError::ParseError("reply is not a list of strings".to_string()))
    );
    assert_eq!(
        list_resources_result(Ok(json(r#"{}"#))),
        Err(ClientError::ParseError("reply is not a list of strings".to_string()))
    );
    assert_eq!(
        list_resources_result(Err(ClientError::HttpError("down".to_string()))),
        Err(ClientError::HttpError("down".to_string()))
    );
}

#[test]
fn calls_whose_result_does_not_matter() {
    assert_eq!(unit_result(Ok(json(r#"{"anything": true}"#))), Ok(()));
    assert_eq!(unit_result(Err(server_error(3, "no"))), Err(server_error(3, "no")));
}

#[test]
fn the_registry_comes_from_the_reply() {
    let reply = json(
        r#"{"a::Marker": {"shortPath": "Marker", "typePath": "a::Marker", "kind": "Struct", "type": "object", "additionalProperties": false}}"#,
    );
    let schema = get_schema_result(Ok(reply)).unwrap();
    assert_eq!(schema.len(), 1);
    assert!(schema.get("a::Marker").unwrap().is_marker());
    assert_eq!(
        get_schema_result(Ok(json(r#"{"a": {"typePath": "a"}}"#))).err(),
        Some(ClientError::ParseError("reply is not a registry of types".to_string()))
    );
    assert_eq!(
        get_schema_result(Err(ClientError::HttpError("down".to_string()))).err(),
        Some(ClientError::HttpError("down".to_string()))
    );
}

#[test]
fn errors_in_words() {
    assert_eq!(
        BrpError { code: -23402, message: "Component error".to_string(), data: None }.describe(),
        "Component error (code=-23402)"
    );
    assert_eq!(BrpError { code: 0, message: String::new(), data: Some(Json::Null) }.describe(), " (code=0)");
    assert_eq!(BrpError { code: i16::MIN, message: "m".to_string(), data: None }.describe(), "m (code=-32768)");
    assert_eq!(ClientError::HttpError("timed out".to_string()).describe(), "HTTP request failed: timed out");
    assert_eq!(
        ClientError::ParseError("expected value".to_string()).describe(),
        "failed to parse response: expected value"
    );
    assert_eq!(server_error(7, "nope").describe(), "server error: nope (code=7)");
    assert_eq!(server_error(7, "nope").duplicate(), server_error(7, "nope"));
}

#[test]
fn error_objects() {
    assert_eq!(
        BrpError::decode(&json(r#"{"code": -23402, "message": "m", "data": {"x": 1}, "extra": 0}"#)),
        Some(BrpError { code: -23402, message: "m".to_string(), data: Some(json(r#"{"x": 1}"#)) })
    );
    assert_eq!(BrpError::decode(&json(r#"{"code": 32767, "message": ""}"#)).unwrap().code, 32767);
    assert_eq!(BrpError::decode(&json(r#"{"code": -32768, "message": ""}"#)).unwrap().code, -32768);
    assert_eq!(BrpError::decode(&json(r#"{"code": 32768, "message": ""}"#)), None);
    assert_eq!(BrpError::decode(&json(r#"{"code": -32769, "message": ""}"#)), None);
    assert_eq!(BrpError::decode(&json(r#"{"code": "1", "message": ""}"#)), None);
    assert_eq!(BrpError::decode(&json(r#"{"message": ""}"#)), None);
    assert_eq!(BrpError::decode(&json(r#"{"code": 1}"#)), None);
    assert_eq!(BrpError::decode(&json(r#"{"code": 1, "message": null}"#)), None);
    assert_eq!(BrpError::decode(&json(r#"7"#)), None);
}

#[test]
fn replies_are_told_apart() {
    assert_eq!(
        BrpResponse::decode(&json(r#"{"id": 7, "result": [1]}"#)),
        Some(BrpResponse::Success { id: 7, result: json("[1]") })
    );
    assert_eq!(
        BrpResponse::decode(&json(r#"{"id": 4294967295, "error": {"code": -1, "message": "m"}}"#)),
        Some(BrpResponse::Error {
            id: u32::MAX,
            error: BrpError { code: -1, message: "m".to_string(), data: None },
        })
    );
    assert_eq!(BrpResponse::decode(&json(r#"{"id": 7}"#)), None);
    assert_eq!(BrpResponse::decode(&json(r#"{"result": 1}"#)), None);
    assert_eq!(
        BrpResponse::Success { id: 1, result: Json::Null }.into_result(),
        Ok(Json::Null)
    );
    assert_eq!(
        BrpResponse::Error { id: 1, error: BrpError { code: 2, message: "m".to_string(), data: None } }
            .into_result(),
        Err(server_error(2, "m"))
    );
}
