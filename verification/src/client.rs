//! The calls of the protocol: for each, the request to send and what its
//! reply means. Sending is left to the caller: an operation of several
//! calls hands out the next request and takes the reply back.

use vstd::prelude::*;
use crate::component;
use crate::entity_item::{
    get_components_shape, query_rows_shape, response_component, row_component, row_views,
    EntityItem, GetComponentsResponse, GetComponentsResponseView, QueryRow, QueryRowView,
};
use crate::entity_kind::{kind_components, kind_markers};
use crate::error::{ClientError, ClientErrorView};
use crate::json::{
    decode_strings, member_views, string_views, strings_of, text_values, Json, JsonView,
};
use crate::rpc::{outcome_view, Request, RequestView};
use crate::schema::{decode_schema, describes_schema, is_schema, Schema};

verus! {

/// The outcome of a call: the result of the reply, or why there is none.
pub type Reply = Result<Json, ClientError>;

/// The request that asks whether the remote side is there.
pub fn ping_request() -> (r: Request)
    ensures
        r@ == (RequestView { method: "rpc.discover"@, params: None }),
{
    Request { method: "rpc.discover".to_owned(), params: None }
}

/// The request for the list of resources.
pub fn list_resources_request() -> (r: Request)
    ensures
        r@ == (RequestView { method: "world.list_resources"@, params: None }),
{
    Request { method: "world.list_resources".to_owned(), params: None }
}

/// The request for the registry of types.
pub fn get_schema_request() -> (r: Request)
    ensures
        r@ == (RequestView { method: "registry.schema"@, params: None }),
{
    Request { method: "registry.schema".to_owned(), params: None }
}

/// The request for the value of the resource `resource`.
pub fn get_resource_request(resource: &str) -> (r: Request)
    ensures
        r@ == (RequestView {
            method: "world.get_resources"@,
            params: Some(JsonView::Object(seq![("resource"@, JsonView::String(resource@))])),
        }),
{
    let mut members: Vec<(String, Json)> = Vec::new();
    members.push(("resource".to_owned(), Json::from_text(resource)));
    let params = Json::object(members);
    assert(member_views(members@) =~= seq![("resource"@, JsonView::String(resource@))]);
    Request { method: "world.get_resources".to_owned(), params: Some(params) }
}

/// The request for the names of the components of the entity `id`.
pub fn list_components_request(id: u64) -> (r: Request)
    ensures
        r@ == (RequestView {
            method: "world.list_components"@,
            params: Some(JsonView::Object(seq![("entity"@, JsonView::of_nat(id as nat))])),
        }),
{
    let mut members: Vec<(String, Json)> = Vec::new();
    members.push(("entity".to_owned(), Json::from_u64(id)));
    let params = Json::object(members);
    assert(member_views(members@) =~= seq![("entity"@, JsonView::of_nat(id as nat))]);
    Request { method: "world.list_components".to_owned(), params: Some(params) }
}

/// The request for the components `components` of the entity `id`.
pub fn get_components_request(id: u64, components: Json) -> (r: Request)
    ensures
        r@ == (RequestView {
            method: "world.get_components"@,
            params: Some(
                JsonView::Object(
                    seq![("components"@, components@), ("entity"@, JsonView::of_nat(id as nat))],
                ),
            ),
        }),
{
    let mut members: Vec<(String, Json)> = Vec::new();
    members.push(("components".to_owned(), components));
    members.push(("entity".to_owned(), Json::from_u64(id)));
    let params = Json::object(members);
    assert(member_views(members@) =~= seq![
        ("components"@, components@),
        ("entity"@, JsonView::of_nat(id as nat)),
    ]);
    Request { method: "world.get_components".to_owned(), params: Some(params) }
}

/// The request that writes `value` to the place `path` in the component
/// `component` of the entity `id`.
pub fn mutate_component_request(id: u64, component: &str, path: &str, value: Json) -> (r: Request)
    ensures
        r@ == (RequestView {
            method: "world.mutate_components"@,
            params: Some(
                JsonView::Object(
                    seq![
                        ("component"@, JsonView::String(component@)),
                        ("entity"@, JsonView::of_nat(id as nat)),
                        ("path"@, JsonView::String(path@)),
                        ("value"@, value@),
                    ],
                ),
            ),
        }),
{
    let mut members: Vec<(String, Json)> = Vec::new();
    members.push(("component".to_owned(), Json::from_text(component)));
    members.push(("entity".to_owned(), Json::from_u64(id)));
    members.push(("path".to_owned(), Json::from_text(path)));
    members.push(("value".to_owned(), value));
    let params = Json::object(members);
    assert(member_views(members@) =~= seq![
        ("component"@, JsonView::String(component@)),
        ("entity"@, JsonView::of_nat(id as nat)),
        ("path"@, JsonView::String(path@)),
        ("value"@, value@),
    ]);
    Request { method: "world.mutate_components".to_owned(), params: Some(params) }
}

/// The components that are asked for of every entity of the hierarchy:
/// its name, its children, its parent, and every marker that tells its
/// kind.
pub open spec fn summary_list() -> Seq<&'static str> {
    seq![
        component::NAME,
        component::CHILDREN,
        component::CHILD_OF,
        component::CAMERA,
        component::LIGHT_DIRECTIONAL,
        component::LIGHT_POINT,
        component::LIGHT_SPOT,
        component::MESH_2D,
        component::MESH_3D,
        component::MONITOR,
        component::TEXT,
        component::NODE,
        component::OBSERVER_STATE,
        component::POINTER_ID,
        component::SYSTEM_ID_MARKER,
        component::WINDOW,
    ]
}

/// The components that are asked for of every entity of the hierarchy.
pub fn summary_components() -> (r: Vec<&'static str>)
    ensures
        r@ == summary_list(),
{
    let mut list: Vec<&'static str> = vec![component::NAME, component::CHILDREN, component::CHILD_OF];
    let mut kinds = kind_components();
    list.append(&mut kinds);
    assert(list@ =~= summary_list());
    list
}

/// The parameters that ask for the components `components` of the entity
/// `id`.
pub open spec fn components_params(id: u64, components: JsonView) -> JsonView {
    JsonView::Object(seq![("components"@, components), ("entity"@, JsonView::of_nat(id as nat))])
}

/// The request for the summary of the entity `id`.
pub fn summary_request(id: u64) -> (r: Request)
    ensures
        r@ == (RequestView {
            method: "world.get_components"@,
            params: Some(components_params(id, JsonView::Array(text_values(summary_list())))),
        }),
{
    let list = summary_components();
    get_components_request(id, Json::texts(&list))
}

/// The parameters of the query for the entities without a parent: the
/// name, the children and the parent are asked for where they are there,
/// every marker that tells the kind only for its presence.
pub open spec fn roots_params() -> JsonView {
    JsonView::Object(
        seq![
            (
                "data"@,
                JsonView::Object(
                    seq![
                        ("has"@, JsonView::Array(text_values(kind_markers()))),
                        (
                            "option"@,
                            JsonView::Array(
                                text_values(
                                    seq![component::NAME, component::CHILDREN, component::CHILD_OF],
                                ),
                            ),
                        ),
                    ],
                ),
            ),
            (
                "filter"@,
                JsonView::Object(
                    seq![("without"@, JsonView::Array(text_values(seq![component::CHILD_OF])))],
                ),
            ),
        ],
    )
}

/// The request for the entities without a parent.
pub fn roots_request() -> (r: Request)
    ensures
        r@ == (RequestView { method: "world.query"@, params: Some(roots_params()) }),
{
    let kinds = kind_components();
    let option: Vec<&'static str> = vec![component::NAME, component::CHILDREN, component::CHILD_OF];
    let without: Vec<&'static str> = vec![component::CHILD_OF];
    let mut data: Vec<(String, Json)> = Vec::new();
    data.push(("has".to_owned(), Json::texts(&kinds)));
    data.push(("option".to_owned(), Json::texts(&option)));
    let mut filter: Vec<(String, Json)> = Vec::new();
    filter.push(("without".to_owned(), Json::texts(&without)));
    let mut members: Vec<(String, Json)> = Vec::new();
    let data_value = Json::object(data);
    let filter_value = Json::object(filter);
    proof {
        assert(kinds@ =~= kind_markers());
        assert(option@ =~= seq![component::NAME, component::CHILDREN, component::CHILD_OF]);
        assert(without@ =~= seq![component::CHILD_OF]);
        assert(member_views(data@) =~= seq![
            ("has"@, JsonView::Array(text_values(kind_markers()))),
            (
                "option"@,
                JsonView::Array(
                    text_values(seq![component::NAME, component::CHILDREN, component::CHILD_OF]),
                ),
            ),
        ]);
        assert(member_views(filter@) =~= seq![
            ("without"@, JsonView::Array(text_values(seq![component::CHILD_OF]))),
        ]);
    }
    members.push(("data".to_owned(), data_value));
    members.push(("filter".to_owned(), filter_value));
    let params = Json::object(members);
    proof {
        let want = match roots_params() {
            JsonView::Object(m) => m,
            _ => Seq::empty(),
        };
        assert(member_views(members@) =~= want);
    }
    Request { method: "world.query".to_owned(), params: Some(params) }
}

/// The request with which the children of `parent_id` are looked up: for
/// an entity, the one for its component of children; without a parent, the
/// one for the entities that have none.
pub fn get_children_request(parent_id: Option<u64>) -> (r: Request)
    ensures
        r@ == (match parent_id {
            Some(id) => RequestView {
                method: "world.get_components"@,
                params: Some(
                    components_params(
                        id,
                        JsonView::Array(text_values(seq![component::CHILDREN])),
                    ),
                ),
            },
            None => RequestView { method: "world.query"@, params: Some(roots_params()) },
        }),
{
    match parent_id {
        Some(id) => {
            let list: Vec<&'static str> = vec![component::CHILDREN];
            assert(list@ =~= seq![component::CHILDREN]);
            get_components_request(id, Json::texts(&list))
        },
        None => roots_request(),
    }
}

/// The text of the error for a reply to a request for components that has
/// neither of the two shapes.
pub open spec fn no_components() -> Seq<char> {
    "reply is no set of components"@
}

/// The text of the error for a reply to a query that is no list of rows.
pub open spec fn no_rows() -> Seq<char> {
    "reply is not a list of query rows"@
}

/// The text of the error for a reply that is no list of strings.
pub open spec fn no_strings() -> Seq<char> {
    "reply is not a list of strings"@
}

/// Why the outcome of a request for components gives no entity, if it
/// gives none: the call's own error, or a parse error where the reply has
/// neither shape.
pub open spec fn entity_failure(reply: Result<JsonView, ClientErrorView>) -> Option<
    ClientErrorView,
> {
    match reply {
        Err(e) => Some(e),
        Ok(v) => if get_components_shape(v) is None {
            Some(ClientErrorView::ParseError(no_components()))
        } else {
            None
        },
    }
}

/// The reply to a request for components that the outcome holds.
pub open spec fn components_reply(reply: Result<JsonView, ClientErrorView>) -> GetComponentsResponseView
    recommends
        entity_failure(reply) is None,
{
    get_components_shape(reply->Ok_0).unwrap()
}

/// Whether `item` is the entity `id` as the reply `response` describes it.
pub open spec fn describes(item: EntityItem, id: u64, response: GetComponentsResponseView) -> bool {
    item.id == id && forall|k: Seq<char>|
        #[trigger] item.component(k) == response_component(response, k)
}

/// Whether `item` is the entity that the row `row` describes.
pub open spec fn describes_row(item: EntityItem, row: QueryRowView) -> bool {
    item.id == row.entity && forall|k: Seq<char>|
        #[trigger] item.component(k) == row_component(row, k)
}

/// The entity `id` that the outcome of a request for its components
/// describes.
pub fn entity_result(id: u64, reply: Reply) -> (r: Result<EntityItem, ClientError>)
    ensures
        match entity_failure(outcome_view(reply)) {
            Some(e) => r matches Err(err) && err@ == e,
            None => r matches Ok(item) && describes(
                item,
                id,
                components_reply(outcome_view(reply)),
            ),
        },
{
    match reply {
        Err(e) => Err(e),
        Ok(value) => match GetComponentsResponse::decode(&value) {
            Some(response) => Ok(EntityItem::from_get_components(id, &response)),
            None => Err(ClientError::ParseError("reply is no set of components".to_owned())),
        },
    }
}

/// The second request of the two that read an entity whole: the one for
/// the components that the reply to the first one lists.
pub fn get_followup(id: u64, reply: Reply) -> (r: Result<Request, ClientError>)
    ensures
        match reply {
            Ok(components) => r matches Ok(request) && request@ == (RequestView {
                method: "world.get_components"@,
                params: Some(components_params(id, components@)),
            }),
            Err(e) => r matches Err(err) && err@ == e@,
        },
{
    match reply {
        Ok(components) => Ok(get_components_request(id, components)),
        Err(e) => Err(e),
    }
}

/// The identifiers that a reply gives as an entity's children.
pub open spec fn children_in(response: GetComponentsResponseView) -> Seq<u64> {
    match response_component(response, component::CHILDREN@) {
        Some(Some(v)) => match crate::entity_item::entities_of(v) {
            Some(ids) => ids,
            None => Seq::empty(),
        },
        _ => Seq::empty(),
    }
}

/// What comes after the first call of a lookup of children.
#[derive(Debug)]
pub enum ChildrenStep {
    /// The lookup is over, with the children or with an error.
    Done(Result<Vec<EntityItem>, ClientError>),
    /// The children are known by their identifiers; these requests, one
    /// for each child and in the children's order, fetch their summaries.
    Fetch(Vec<(u64, Request)>),
}

/// The requests for the summaries of the entities `ids`, each with the
/// identifier it is for, in the order of `ids`.
pub fn summary_requests(ids: &Vec<u64>) -> (r: Vec<(u64, Request)>)
    ensures
        r.len() == ids.len(),
        forall|i: int|
            0 <= i < r.len() ==> (#[trigger] r[i]).0 == ids[i] && r[i].1@ == (RequestView {
                method: "world.get_components"@,
                params: Some(
                    components_params(ids[i], JsonView::Array(text_values(summary_list()))),
                ),
            }),
{
    let mut out: Vec<(u64, Request)> = Vec::new();
    let mut i: usize = 0;
    while i < ids.len()
        invariant
            i <= ids.len(),
            out.len() == i,
            forall|j: int|
                0 <= j < i ==> (#[trigger] out[j]).0 == ids[j] && out[j].1@ == (RequestView {
                    method: "world.get_components"@,
                    params: Some(
                        components_params(ids[j], JsonView::Array(text_values(summary_list()))),
                    ),
                }),
        decreases ids.len() - i,
    {
        out.push((ids[i], summary_request(ids[i])));
        i += 1;
    }
    out
}

/// Why the outcome of a query gives no rows, if it gives none.
pub open spec fn rows_failure(reply: Result<JsonView, ClientErrorView>) -> Option<ClientErrorView> {
    match reply {
        Err(e) => Some(e),
        Ok(v) => if query_rows_shape(v) is None {
            Some(ClientErrorView::ParseError(no_rows()))
        } else {
            None
        },
    }
}

/// The entities that the outcome of a query describes, one for each row
/// and in the order of the rows.
pub fn rows_result(reply: Reply) -> (r: Result<Vec<EntityItem>, ClientError>)
    ensures
        match rows_failure(outcome_view(reply)) {
            Some(e) => r matches Err(err) && err@ == e,
            None => r matches Ok(items) && items.len() == query_rows_shape(reply->Ok_0@).unwrap().len()
                && forall|i: int|
                0 <= i < items.len() ==> describes_row(
                    #[trigger] items[i],
                    query_rows_shape(reply->Ok_0@).unwrap()[i],
                ),
        },
{
    match reply {
        Err(e) => Err(e),
        Ok(value) => match QueryRow::decode_all(&value) {
            Some(rows) => {
                let ghost shape = query_rows_shape(value@).unwrap();
                let mut items: Vec<EntityItem> = Vec::new();
                let mut i: usize = 0;
                while i < rows.len()
                    invariant
                        i <= rows.len(),
                        items.len() == i,
                        row_views(rows@) == shape,
                        forall|j: int| 0 <= j < i ==> describes_row(#[trigger] items[j], shape[j]),
                    decreases rows.len() - i,
                {
                    let item = EntityItem::from_query_row(&rows[i]);
                    assert(shape[i as int] == rows[i as int]@);
                    items.push(item);
                    i += 1;
                }
                Ok(items)
            },
            None => Err(ClientError::ParseError("reply is not a list of query rows".to_owned())),
        },
    }
}

/// What follows the reply to the first call of a lookup of the children of
/// `parent_id`. Without a parent the reply holds the entities themselves.
/// With one it holds the parent's list of children, whose summaries are
/// then to be fetched; where the call failed, the lookup fails with the
/// call's error and names no child.
pub fn get_children_next(parent_id: Option<u64>, reply: Reply) -> (r: ChildrenStep)
    ensures
        match parent_id {
            None => r matches ChildrenStep::Done(done) && (match rows_failure(outcome_view(reply)) {
                Some(e) => done matches Err(err) && err@ == e,
                None => done matches Ok(items) && items.len() == query_rows_shape(
                    reply->Ok_0@,
                ).unwrap().len() && forall|i: int|
                    0 <= i < items.len() ==> describes_row(
                        #[trigger] items[i],
                        query_rows_shape(reply->Ok_0@).unwrap()[i],
                    ),
            }),
            Some(id) => match entity_failure(outcome_view(reply)) {
                Some(e) => r matches ChildrenStep::Done(Err(err)) && err@ == e,
                None => r matches ChildrenStep::Fetch(requests) && ({
                    let ids = children_in(components_reply(outcome_view(reply)));
                    &&& requests.len() == ids.len()
                    &&& forall|i: int|
                        0 <= i < requests.len() ==> (#[trigger] requests[i]).0 == ids[i]
                            && requests[i].1@ == (RequestView {
                            method: "world.get_components"@,
                            params: Some(
                                components_params(
                                    ids[i],
                                    JsonView::Array(text_values(summary_list())),
                                ),
                            ),
                        })
                }),
            },
        },
{
    match parent_id {
        None => ChildrenStep::Done(rows_result(reply)),
        Some(id) => match entity_result(id, reply) {
            Err(e) => ChildrenStep::Done(Err(e)),
            Ok(parent) => {
                let ids = parent.children();
                ChildrenStep::Fetch(summary_requests(&ids))
            },
        },
    }
}

/// The contents of the outcomes of the calls for a list of entities.
pub open spec fn reply_views(replies: Seq<(u64, Reply)>) -> Seq<
    (u64, Result<JsonView, ClientErrorView>),
> {
    Seq::new(replies.len(), |i: int| (replies[i].0, outcome_view(replies[i].1)))
}

/// Whether the call at position `i` is the first that gives no entity.
pub open spec fn is_first_failure(
    replies: Seq<(u64, Result<JsonView, ClientErrorView>)>,
    i: int,
) -> bool {
    &&& 0 <= i < replies.len()
    &&& entity_failure(replies[i].1) is Some
    &&& forall|j: int| 0 <= j < i ==> entity_failure((#[trigger] replies[j]).1) is None
}

/// The entities that the outcomes of the calls for their summaries
/// describe, in the order of the calls, whatever the order in which the
/// replies came. One call that gives no entity fails them all: the error
/// is that of the first such call in the list.
pub fn get_many_result(replies: &Vec<(u64, Reply)>) -> (r: Result<Vec<EntityItem>, ClientError>)
    ensures
        r matches Err(e) ==> exists|i: int|
            is_first_failure(reply_views(replies@), i) && Some(e@) == entity_failure(
                #[trigger] reply_views(replies@)[i].1,
            ),
        r matches Ok(items) ==> items.len() == replies.len() && forall|i: int|
            0 <= i < items.len() ==> entity_failure(reply_views(replies@)[i].1) is None
                && describes(
                #[trigger] items[i],
                replies[i].0,
                components_reply(reply_views(replies@)[i].1),
            ),
{
    let ghost all = reply_views(replies@);
    let mut items: Vec<EntityItem> = Vec::new();
    let mut i: usize = 0;
    while i < replies.len()
        invariant
            i <= replies.len(),
            items.len() == i,
            all == reply_views(replies@),
            forall|j: int|
                0 <= j < i ==> entity_failure((#[trigger] all[j]).1) is None && describes(
                    items[j],
                    replies[j].0,
                    components_reply(all[j].1),
                ),
        decreases replies.len() - i,
    {
        let id = replies[i].0;
        let outcome: Reply = match &replies[i].1 {
            Ok(value) => Ok(value.duplicate()),
            Err(e) => Err(e.duplicate()),
        };
        assert(outcome_view(outcome) == all[i as int].1);
        match entity_result(id, outcome) {
            Ok(item) => {
                items.push(item);
            },
            Err(e) => {
                assert(is_first_failure(all, i as int));
                return Err(e);
            },
        }
        i += 1;
    }
    Ok(items)
}

/// The names of the resources that the outcome of the request for them
/// holds.
pub fn list_resources_result(reply: Reply) -> (r: Result<Vec<String>, ClientError>)
    ensures
        match outcome_view(reply) {
            Err(e) => r matches Err(err) && err@ == e,
            Ok(v) => match strings_of(v) {
                Some(names) => r matches Ok(list) && string_views(list@) == names,
                None => r matches Err(err) && err@ == ClientErrorView::ParseError(no_strings()),
            },
        },
{
    match reply {
        Err(e) => Err(e),
        Ok(value) => match decode_strings(&value) {
            Some(list) => Ok(list),
            None => Err(ClientError::ParseError("reply is not a list of strings".to_owned())),
        },
    }
}

/// The text of the error for a reply that is no registry.
pub open spec fn no_schema() -> Seq<char> {
    "reply is not a registry of types"@
}

/// The registry that the outcome of the request for it holds.
pub fn get_schema_result(reply: Reply) -> (r: Result<Schema, ClientError>)
    ensures
        match outcome_view(reply) {
            Err(e) => r matches Err(err) && err@ == e,
            Ok(v) => if is_schema(v) {
                r matches Ok(schema) && describes_schema(schema, v)
            } else {
                r matches Err(err) && err@ == ClientErrorView::ParseError(no_schema())
            },
        },
{
    match reply {
        Err(e) => Err(e),
        Ok(value) => match decode_schema(&value) {
            Some(schema) => Ok(schema),
            None => Err(ClientError::ParseError("reply is not a registry of types".to_owned())),
        },
    }
}

/// The outcome of a call whose result does not matter: that it succeeded,
/// or why it did not.
pub fn unit_result(reply: Reply) -> (r: Result<(), ClientError>)
    ensures
        match reply {
            Ok(_) => r is Ok,
            Err(e) => r matches Err(err) && err@ == e@,
        },
{
    match reply {
        Ok(_) => Ok(()),
        Err(e) => Err(e),
    }
}

/// An edit: the component, the place in it, and the value to write there.
#[derive(Debug, PartialEq, Eq)]
pub struct MutateData {
    /// Component type path, e.g. `bevy_ui::ui_node::Node`
    pub type_path: String,
    /// Path to the field in the component, e.g. `.align_content`
    pub path: String,
    pub value: Json,
}

impl MutateData {
    /// The edit that writes `value` to the place `path` of the component
    /// `type_path`.
    pub fn new(type_path: String, path: String, value: Json) -> (r: MutateData)
        ensures
            r.type_path == type_path,
            r.path == path,
            r.value == value,
    {
        MutateData { type_path, path, value }
    }

    /// The request that makes the edit on the entity `id`.
    pub fn request(&self, id: u64) -> (r: Request)
        ensures
            r@ == (RequestView {
                method: "world.mutate_components"@,
                params: Some(
                    JsonView::Object(
                        seq![
                            ("component"@, JsonView::String(self.type_path@)),
                            ("entity"@, JsonView::of_nat(id as nat)),
                            ("path"@, JsonView::String(self.path@)),
                            ("value"@, self.value@),
                        ],
                    ),
                ),
            }),
    {
        mutate_component_request(
            id,
            self.type_path.as_str(),
            self.path.as_str(),
            self.value.duplicate(),
        )
    }
}

} // verus!
