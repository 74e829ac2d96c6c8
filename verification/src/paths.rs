//! Paths into the value of a component: `.name` for a member and
//! `[index]` for an item, one after the other from the component's root.

use vstd::prelude::*;
use crate::text::{chars_of, push_str, string_of};

verus! {

/// The text of the path `parent`: empty where there is none.
pub open spec fn path_text(parent: Option<Seq<char>>) -> Seq<char> {
    match parent {
        Some(p) => p,
        None => Seq::empty(),
    }
}

/// The path of the item `key` of what `parent` leads to.
pub open spec fn array_path(parent: Option<Seq<char>>, key: Seq<char>) -> Seq<char> {
    path_text(parent) + seq!['['] + key + seq![']']
}

/// The path of the member `key` of what `parent` leads to.
pub open spec fn object_path(parent: Option<Seq<char>>, key: Seq<char>) -> Seq<char> {
    path_text(parent) + seq!['.'] + key
}

/// The content of a path that may be missing.
pub open spec fn path_view(parent: Option<String>) -> Option<Seq<char>> {
    match parent {
        Some(p) => Some(p@),
        None => None,
    }
}

/// The path of the item `key` of what `parent_path` leads to.
pub fn get_array_path(parent_path: &Option<String>, key: &str) -> (r: String)
    ensures
        r@ == array_path(path_view(*parent_path), key@),
{
    let mut out: Vec<char> = match parent_path {
        Some(p) => chars_of(p.as_str()),
        None => Vec::new(),
    };
    out.push('[');
    push_str(&mut out, key);
    out.push(']');
    assert(out@ =~= array_path(path_view(*parent_path), key@));
    string_of(&out)
}

/// The path of the member `key` of what `parent_path` leads to.
pub fn get_object_path(parent_path: &Option<String>, key: &str) -> (r: String)
    ensures
        r@ == object_path(path_view(*parent_path), key@),
{
    let mut out: Vec<char> = match parent_path {
        Some(p) => chars_of(p.as_str()),
        None => Vec::new(),
    };
    out.push('.');
    push_str(&mut out, key);
    assert(out@ =~= object_path(path_view(*parent_path), key@));
    string_of(&out)
}

/// The path of a member of an item at the root is the index in brackets,
/// a dot, and the member's name.
pub proof fn lemma_member_of_item_path(index: Seq<char>, member: Seq<char>)
    ensures
        object_path(Some(array_path(None, index)), member) == seq!['['] + index + seq![']', '.']
            + member,
{
    assert(object_path(Some(array_path(None, index)), member) =~= seq!['['] + index + seq![
        ']',
        '.',
    ] + member);
}

/// A path extends the one it was made from.
pub proof fn lemma_path_extends(parent: Option<Seq<char>>, key: Seq<char>)
    ensures
        array_path(parent, key).take(path_text(parent).len() as int) == path_text(parent),
        object_path(parent, key).take(path_text(parent).len() as int) == path_text(parent),
        array_path(parent, key).len() == path_text(parent).len() + key.len() + 2,
        object_path(parent, key).len() == path_text(parent).len() + key.len() + 1,
{
    assert(array_path(parent, key).take(path_text(parent).len() as int) =~= path_text(parent));
    assert(object_path(parent, key).take(path_text(parent).len() as int) =~= path_text(parent));
}

} // verus!
