//! Values shown as they are, without a schema: an object as the list of
//! its members, an array as the list of its items, a scalar as itself.
//! Every member and item carries the path that leads to it.

use vstd::prelude::*;
use crate::json::{lemma_array_view, lemma_object_view, member_views, views, Json, JsonView};
use crate::paths::{array_path, get_array_path, get_object_path, object_path, path_view};
use crate::text::{chars_of, decimal, decimal_string};

verus! {

/// A value as it is shown.
#[derive(Debug, PartialEq, Eq)]
pub enum RawNode {
    Null,
    Bool(bool),
    /// A number by its literal; `negative` where it has a minus sign.
    Number { text: String, negative: bool },
    Text(String),
    /// The items of an array: for each its index, its path and itself.
    Array(Vec<(String, String, RawNode)>),
    /// The members of an object: for each its name, its path and itself.
    /// `nested` says whether some member is an array or an object.
    Object { nested: bool, members: Vec<(String, String, RawNode)> },
}

/// The content of a [`RawNode`].
pub enum RawNodeView {
    Null,
    Bool(bool),
    Number { text: Seq<char>, negative: bool },
    Text(Seq<char>),
    Array(Seq<(Seq<char>, Seq<char>, RawNodeView)>),
    Object { nested: bool, members: Seq<(Seq<char>, Seq<char>, RawNodeView)> },
}

/// The content of a node.
pub open spec fn raw_node_view(node: RawNode) -> RawNodeView
    decreases node,
{
    match node {
        RawNode::Null => RawNodeView::Null,
        RawNode::Bool(b) => RawNodeView::Bool(b),
        RawNode::Number { text, negative } => RawNodeView::Number { text: text@, negative },
        RawNode::Text(s) => RawNodeView::Text(s@),
        RawNode::Array(entries) => RawNodeView::Array(
            Seq::new(
                entries.len() as nat,
                |i: int|
                    if 0 <= i < entries.len() {
                        (entries[i].0@, entries[i].1@, raw_node_view(entries[i].2))
                    } else {
                        (Seq::empty(), Seq::empty(), RawNodeView::Null)
                    },
            ),
        ),
        RawNode::Object { nested, members } => RawNodeView::Object {
            nested,
            members: Seq::new(
                members.len() as nat,
                |i: int|
                    if 0 <= i < members.len() {
                        (members[i].0@, members[i].1@, raw_node_view(members[i].2))
                    } else {
                        (Seq::empty(), Seq::empty(), RawNodeView::Null)
                    },
            ),
        },
    }
}

impl View for RawNode {
    type V = RawNodeView;

    open spec fn view(&self) -> RawNodeView {
        raw_node_view(*self)
    }
}

/// The contents of a list of entries.
pub open spec fn entry_views(entries: Seq<(String, String, RawNode)>) -> Seq<
    (Seq<char>, Seq<char>, RawNodeView),
> {
    Seq::new(entries.len(), |i: int| (entries[i].0@, entries[i].1@, entries[i].2@))
}

/// The content of an array node is the contents of its entries.
pub proof fn lemma_raw_array_view(entries: Vec<(String, String, RawNode)>)
    ensures
        RawNode::Array(entries)@ == RawNodeView::Array(entry_views(entries@)),
{
    let a = match RawNode::Array(entries)@ {
        RawNodeView::Array(e) => e,
        _ => Seq::empty(),
    };
    assert(a =~= entry_views(entries@));
}

/// The content of an object node is the contents of its entries.
pub proof fn lemma_raw_object_view(nested: bool, members: Vec<(String, String, RawNode)>)
    ensures
        (RawNode::Object { nested, members })@ == (RawNodeView::Object {
            nested,
            members: entry_views(members@),
        }),
{
    let a = match (RawNode::Object { nested, members })@ {
        RawNodeView::Object { members: m, .. } => m,
        _ => Seq::empty(),
    };
    assert(a =~= entry_views(members@));
}

/// Whether a value is an array or an object.
pub open spec fn is_container(v: JsonView) -> bool {
    v is Array || v is Object
}

/// Whether some member is an array or an object.
pub open spec fn has_subobjects(members: Seq<(Seq<char>, JsonView)>) -> bool {
    exists|i: int| 0 <= i < members.len() && is_container((#[trigger] members[i]).1)
}

/// The value `v` as it is shown, where `parent` is the path that leads to
/// it. The item `i` of an array has the path of `parent` with `[i]` after
/// it, the member `name` of an object that with `.name` after it.
pub open spec fn raw_view(v: JsonView, parent: Option<Seq<char>>) -> RawNodeView
    decreases v, 0nat,
{
    match v {
        JsonView::Null => RawNodeView::Null,
        JsonView::Bool(b) => RawNodeView::Bool(b),
        JsonView::Number(n) => RawNodeView::Number {
            text: n,
            negative: n.len() > 0 && n[0] == '-',
        },
        JsonView::String(s) => RawNodeView::Text(s),
        JsonView::Array(items) => RawNodeView::Array(raw_items(items, items.len(), parent)),
        JsonView::Object(members) => RawNodeView::Object {
            nested: has_subobjects(members),
            members: raw_members(members, members.len(), parent),
        },
    }
}

/// The first `n` items of an array as they are shown.
pub open spec fn raw_items(items: Seq<JsonView>, n: nat, parent: Option<Seq<char>>) -> Seq<
    (Seq<char>, Seq<char>, RawNodeView),
>
    decreases items, n,
{
    if n == 0 || n > items.len() {
        Seq::empty()
    } else {
        let index = decimal((n - 1) as nat);
        let path = array_path(parent, index);
        raw_items(items, (n - 1) as nat, parent).push(
            (index, path, raw_view(items[n - 1], Some(path))),
        )
    }
}

/// The first `n` members of an object as they are shown.
pub open spec fn raw_members(
    members: Seq<(Seq<char>, JsonView)>,
    n: nat,
    parent: Option<Seq<char>>,
) -> Seq<(Seq<char>, Seq<char>, RawNodeView)>
    decreases members, n,
{
    if n == 0 || n > members.len() {
        Seq::empty()
    } else {
        let name = members[n - 1].0;
        let path = object_path(parent, name);
        raw_members(members, (n - 1) as nat, parent).push(
            (name, path, raw_view(members[n - 1].1, Some(path))),
        )
    }
}

/// There are as many entries as items, and the entry at `i` is the item at
/// `i` under the path `[i]`.
pub proof fn lemma_raw_items(items: Seq<JsonView>, n: nat, parent: Option<Seq<char>>, i: int)
    requires
        0 <= i < n <= items.len(),
    ensures
        raw_items(items, n, parent).len() == n,
        raw_items(items, n, parent)[i] == (
            decimal(i as nat),
            array_path(parent, decimal(i as nat)),
            raw_view(items[i], Some(array_path(parent, decimal(i as nat)))),
        ),
    decreases n,
{
    lemma_raw_items_len(items, n, parent);
    if i < n - 1 {
        lemma_raw_items(items, (n - 1) as nat, parent, i);
    } else {
        lemma_raw_items_len(items, (n - 1) as nat, parent);
    }
}

/// There are as many entries as items.
pub proof fn lemma_raw_items_len(items: Seq<JsonView>, n: nat, parent: Option<Seq<char>>)
    requires
        n <= items.len(),
    ensures
        raw_items(items, n, parent).len() == n,
    decreases n,
{
    if n > 0 {
        lemma_raw_items_len(items, (n - 1) as nat, parent);
    }
}

/// There are as many entries as members.
pub proof fn lemma_raw_members_len(
    members: Seq<(Seq<char>, JsonView)>,
    n: nat,
    parent: Option<Seq<char>>,
)
    requires
        n <= members.len(),
    ensures
        raw_members(members, n, parent).len() == n,
    decreases n,
{
    if n > 0 {
        lemma_raw_members_len(members, (n - 1) as nat, parent);
    }
}

/// The entry at `i` is the member at `i` under the path of its name.
pub proof fn lemma_raw_members(
    members: Seq<(Seq<char>, JsonView)>,
    n: nat,
    parent: Option<Seq<char>>,
    i: int,
)
    requires
        0 <= i < n <= members.len(),
    ensures
        raw_members(members, n, parent).len() == n,
        raw_members(members, n, parent)[i] == (
            members[i].0,
            object_path(parent, members[i].0),
            raw_view(members[i].1, Some(object_path(parent, members[i].0))),
        ),
    decreases n,
{
    lemma_raw_members_len(members, n, parent);
    if i < n - 1 {
        lemma_raw_members(members, (n - 1) as nat, parent, i);
    } else {
        lemma_raw_members_len(members, (n - 1) as nat, parent);
    }
}

fn is_container_value(value: &Json) -> (r: bool)
    ensures
        r == is_container(value@),
{
    match value {
        Json::Array(_) => true,
        Json::Object(_) => true,
        _ => false,
    }
}

fn any_container(members: &Vec<(String, Json)>) -> (r: bool)
    ensures
        r == has_subobjects(member_views(members@)),
{
    let mut i: usize = 0;
    while i < members.len()
        invariant
            i <= members.len(),
            forall|j: int| 0 <= j < i ==> !is_container((#[trigger] member_views(members@)[j]).1),
        decreases members.len() - i,
    {
        if is_container_value(&members[i].1) {
            assert(is_container(member_views(members@)[i as int].1));
            return true;
        }
        i += 1;
    }
    false
}

/// The value `value` as it is shown, where `parent_path` is the path that
/// leads to it.
#[verifier::loop_isolation(false)]
pub fn render_raw(value: &Json, parent_path: &Option<String>) -> (r: RawNode)
    ensures
        r@ == raw_view(value@, path_view(*parent_path)),
    decreases value,
{
    let ghost parent = path_view(*parent_path);
    match value {
        Json::Null => RawNode::Null,
        Json::Bool(b) => RawNode::Bool(*b),
        Json::Number(n) => {
            let text = chars_of(n.as_str());
            let negative = text.len() > 0 && text[0] == '-';
            RawNode::Number { text: n.clone(), negative }
        },
        Json::String(s) => RawNode::Text(s.clone()),
        Json::Array(items) => {
            proof {
                lemma_array_view(*items);
            }
            let ghost all = views(items@);
            let mut entries: Vec<(String, String, RawNode)> = Vec::new();
            let mut i: usize = 0;
            while i < items.len()
                invariant
                    i <= items.len(),
                    entry_views(entries@) == raw_items(all, i as nat, parent),
                decreases items.len() - i,
            {
                let index = decimal_string(i as u64);
                let path = get_array_path(parent_path, index.as_str());
                let child_parent = Some(path.clone());
                let node = render_raw(&items[i], &child_parent);
                let ghost before = entry_views(entries@);
                entries.push((index, path, node));
                proof {
                    assert(all[i as int] == items[i as int]@);
                    assert(entry_views(entries@) =~= before.push(
                        (index@, path@, node@),
                    ));
                }
                i += 1;
            }
            proof {
                lemma_raw_array_view(entries);
            }
            RawNode::Array(entries)
        },
        Json::Object(members) => {
            proof {
                lemma_object_view(*members);
            }
            let ghost all = member_views(members@);
            let nested = any_container(members);
            let mut entries: Vec<(String, String, RawNode)> = Vec::new();
            let mut i: usize = 0;
            while i < members.len()
                invariant
                    i <= members.len(),
                    entry_views(entries@) == raw_members(all, i as nat, parent),
                decreases members.len() - i,
            {
                let name = members[i].0.clone();
                let path = get_object_path(parent_path, name.as_str());
                let child_parent = Some(path.clone());
                let node = render_raw(&members[i].1, &child_parent);
                let ghost before = entry_views(entries@);
                entries.push((name, path, node));
                proof {
                    assert(all[i as int] == (members[i as int].0@, members[i as int].1@));
                    assert(entry_views(entries@) =~= before.push((name@, path@, node@)));
                }
                i += 1;
            }
            proof {
                lemma_raw_object_view(nested, entries);
            }
            RawNode::Object { nested, members: entries }
        },
    }
}

} // verus!
