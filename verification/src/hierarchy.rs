//! One level of the tree of entities as it is kept between refreshes:
//! the entities by their identifiers, and which of them are unfolded.

use std::collections::BTreeMap;
use vstd::prelude::*;
use crate::entity_item::EntityItem;

verus! {

broadcast use vstd::std_specs::btree::group_btree_axioms;

/// An entity of the tree, and whether its children are shown.
#[derive(Debug, PartialEq, Eq)]
pub struct HierarchyItem {
    pub entity: EntityItem,
    pub expanded: bool,
}

/// The last of `children` with the identifier `id`.
pub open spec fn last_with(children: Seq<EntityItem>, id: u64) -> Option<EntityItem>
    decreases children.len(),
{
    if children.len() == 0 {
        None
    } else if children.last().id == id {
        Some(children.last())
    } else {
        last_with(children.drop_last(), id)
    }
}

/// Whether the entity `id` is unfolded in `items`; an entity that is not
/// there is not.
pub open spec fn is_unfolded(items: Map<u64, HierarchyItem>, id: u64) -> bool {
    items.contains_key(id) && items[id].expanded
}

/// The level that shows `children`, where `old_items` is the level as it
/// was shown before: each child under its identifier, the last of an
/// identifier, unfolded exactly where the entity of that identifier was
/// unfolded before.
pub open spec fn reconciled(old_items: Map<u64, HierarchyItem>, children: Seq<EntityItem>) -> Map<
    u64,
    HierarchyItem,
> {
    Map::new(
        |id: u64| last_with(children, id) is Some,
        |id: u64|
            HierarchyItem {
                entity: last_with(children, id).unwrap(),
                expanded: is_unfolded(old_items, id),
            },
    )
}

/// A child is found by its identifier exactly where some child has that
/// identifier.
pub proof fn lemma_last_with(children: Seq<EntityItem>, id: u64)
    ensures
        last_with(children, id) is Some <==> exists|i: int|
            0 <= i < children.len() && (#[trigger] children[i]).id == id,
        last_with(children, id) matches Some(child) ==> child.id == id,
    decreases children.len(),
{
    if children.len() > 0 {
        let rest = children.drop_last();
        lemma_last_with(rest, id);
        if children.last().id == id {
            assert(children[children.len() - 1].id == id);
        } else {
            if exists|i: int| 0 <= i < rest.len() && (#[trigger] rest[i]).id == id {
                let i = choose|i: int| 0 <= i < rest.len() && (#[trigger] rest[i]).id == id;
                assert(children[i] == rest[i]);
            }
            if exists|i: int| 0 <= i < children.len() && (#[trigger] children[i]).id == id {
                let i = choose|i: int| 0 <= i < children.len() && (#[trigger] children[i]).id == id;
                assert(rest[i] == children[i]);
            }
        }
    }
}

/// The new level holds the children and no other entity, each under its
/// own identifier, and an entity is unfolded in it exactly where it is a
/// child and was unfolded before.
pub proof fn lemma_reconciled(old_items: Map<u64, HierarchyItem>, children: Seq<EntityItem>, id: u64)
    ensures
        reconciled(old_items, children).contains_key(id) <==> exists|i: int|
            0 <= i < children.len() && (#[trigger] children[i]).id == id,
        reconciled(old_items, children).contains_key(id) ==> reconciled(
            old_items,
            children,
        )[id].entity.id == id,
        is_unfolded(reconciled(old_items, children), id) <==> is_unfolded(old_items, id)
            && reconciled(old_items, children).contains_key(id),
{
    lemma_last_with(children, id);
}

/// The level that shows `children` in place of `old_items`: an entity
/// that stays keeps being folded or unfolded, a new one starts folded.
pub fn reconcile(old_items: &BTreeMap<u64, HierarchyItem>, children: Vec<EntityItem>) -> (r:
    BTreeMap<u64, HierarchyItem>)
    ensures
        r@ == reconciled(old_items@, children@),
{
    let mut children = children;
    let ghost all = children@;
    let mut items: BTreeMap<u64, HierarchyItem> = BTreeMap::new();
    proof {
        assert(all.take(0) =~= Seq::empty());
        assert(items@ =~= reconciled(old_items@, all.take(0)));
    }
    let mut rest: Vec<EntityItem> = Vec::new();
    // Turn the list round, so that the children leave it first to last.
    while children.len() > 0
        invariant
            children@.len() + rest@.len() == all.len(),
            forall|i: int| 0 <= i < children@.len() ==> children@[i] == all[i],
            forall|i: int| 0 <= i < rest@.len() ==> rest@[i] == all[all.len() - 1 - i],
        decreases children.len(),
    {
        let child = children.pop().unwrap();
        rest.push(child);
    }
    let ghost count = all.len();
    while rest.len() > 0
        invariant
            rest@.len() <= count,
            count == all.len(),
            forall|i: int| 0 <= i < rest@.len() ==> rest@[i] == all[count - 1 - i],
            items@ == reconciled(old_items@, all.take(count - rest@.len())),
        decreases rest.len(),
    {
        let ghost done = all.take(count - rest@.len());
        let child = rest.pop().unwrap();
        let id = child.id;
        let expanded = match old_items.get(&id) {
            Some(item) => item.expanded,
            None => false,
        };
        proof {
            let next = all.take(count - rest@.len());
            assert(next.drop_last() =~= done);
            assert(next.last() == child);
            assert(reconciled(old_items@, next) =~= reconciled(old_items@, done).insert(
                id,
                HierarchyItem { entity: child, expanded },
            ));
        }
        items.insert(id, HierarchyItem { entity: child, expanded });
    }
    assert(all.take(count as int) =~= all);
    items
}

/// Whether the entity `id` is unfolded in `items`.
pub fn is_expanded(items: &BTreeMap<u64, HierarchyItem>, id: u64) -> (r: bool)
    ensures
        r == is_unfolded(items@, id),
{
    match items.get(&id) {
        Some(item) => item.expanded,
        None => false,
    }
}

/// The level after a click on the row of `id`: the entity is folded where
/// it was unfolded and unfolded where it was folded, if it is there and
/// has children; otherwise nothing changes.
pub open spec fn clicked(items: Map<u64, HierarchyItem>, id: u64) -> Map<u64, HierarchyItem> {
    if items.contains_key(id) && items[id].entity.children_of().len() > 0 {
        items.insert(
            id,
            HierarchyItem { entity: items[id].entity, expanded: !items[id].expanded },
        )
    } else {
        items
    }
}

/// Takes a click on the row of the entity `id`.
pub fn row_click(items: &mut BTreeMap<u64, HierarchyItem>, id: u64)
    ensures
        final(items)@ == clicked(old(items)@, id),
{
    match items.remove(&id) {
        Some(item) => {
            let has_children = item.entity.children().len() > 0;
            let expanded = if has_children {
                !item.expanded
            } else {
                item.expanded
            };
            items.insert(id, HierarchyItem { entity: item.entity, expanded });
            assert(items@ =~= clicked(old(items)@, id));
        },
        None => {
            assert(items@ =~= old(items)@);
        },
    }
}

} // verus!
