//! Vectors and quaternions arrive as arrays of numbers; the schema
//! describes them as objects with named fields. This module turns the one
//! into the other.

use vstd::prelude::*;
use crate::bevy_type;
use crate::json::{height, lemma_array_view, lemma_object_view, member_views, members_height, views, Json, JsonView};
use crate::text::text_eq;

verus! {

/// The literal of the double that stands for the number written as
/// `literal`; `None` where `literal` is no number.
pub uninterp spec fn float_literal(literal: Seq<char>) -> Option<Seq<char>>;

/// `serde_json::Number::as_f64` on plain text: the literal is parsed as a
/// number (`serde_json::from_str`), read as a double (`as_f64`), and the
/// double is made a number again (`Number::from_f64`) and written
/// (`to_string`). What comes back depends on the literal alone.
#[verifier::external_body]
fn widen(literal: &str) -> (r: Option<String>)
    ensures
        r is Some == float_literal(literal@) is Some,
        r matches Some(s) ==> Some(s@) == float_literal(literal@),
{
    serde_json::from_str::<serde_json::Number>(literal)
        .ok()
        .and_then(|number| number.as_f64())
        .and_then(serde_json::Number::from_f64)
        .map(|number| number.to_string())
}

/// The item at position `i`, if there is one.
pub open spec fn item_at(items: Seq<JsonView>, i: int) -> Option<JsonView> {
    if 0 <= i < items.len() {
        Some(items[i])
    } else {
        None
    }
}

/// The field made of `item`: the number as a double, and the number
/// written as `default` where `item` is missing or no number.
pub open spec fn field_of(item: Option<JsonView>, default: Seq<char>) -> JsonView {
    match item {
        Some(JsonView::Number(literal)) => match float_literal(literal) {
            Some(double) => JsonView::Number(double),
            None => JsonView::Number(default),
        },
        _ => JsonView::Number(default),
    }
}

/// The value `value` of the type `type_path` in the shape that the schema
/// describes. An array that is a quaternion becomes an object with the
/// fields `x`, `y`, `z` and `w`, a vector one with `x`, `y` and, in three
/// dimensions, `z`, each field the item at its position. A missing item
/// counts as zero, the `w` of a quaternion as one. Anything else is left
/// as it is. The fields stand in the order of their names.
pub open spec fn coerced(type_path: Seq<char>, value: JsonView) -> JsonView {
    match value {
        JsonView::Array(items) => if type_path == bevy_type::GLAM_QUAT@ {
            JsonView::Object(
                seq![
                    ("w"@, field_of(item_at(items, 3), "1.0"@)),
                    ("x"@, field_of(item_at(items, 0), "0.0"@)),
                    ("y"@, field_of(item_at(items, 1), "0.0"@)),
                    ("z"@, field_of(item_at(items, 2), "0.0"@)),
                ],
            )
        } else if type_path == bevy_type::GLAM_VEC2@ {
            JsonView::Object(
                seq![
                    ("x"@, field_of(item_at(items, 0), "0.0"@)),
                    ("y"@, field_of(item_at(items, 1), "0.0"@)),
                ],
            )
        } else if type_path == bevy_type::GLAM_VEC3@ || type_path == bevy_type::GLAM_VEC3A@ {
            JsonView::Object(
                seq![
                    ("x"@, field_of(item_at(items, 0), "0.0"@)),
                    ("y"@, field_of(item_at(items, 1), "0.0"@)),
                    ("z"@, field_of(item_at(items, 2), "0.0"@)),
                ],
            )
        } else {
            value
        },
        _ => value,
    }
}

/// Whether values of the type `type_path` arrive as arrays of numbers.
pub open spec fn is_vector_type(type_path: Seq<char>) -> bool {
    type_path == bevy_type::GLAM_QUAT@ || type_path == bevy_type::GLAM_VEC2@ || type_path
        == bevy_type::GLAM_VEC3@ || type_path == bevy_type::GLAM_VEC3A@
}

fn field(items: &Vec<Json>, i: usize, name: &str, default: &str) -> (r: (String, Json))
    ensures
        r.0@ == name@,
        r.1@ == field_of(item_at(views(items@), i as int), default@),
{
    let number = if i < items.len() {
        match &items[i] {
            Json::Number(literal) => match widen(literal.as_str()) {
                Some(double) => double,
                None => default.to_owned(),
            },
            _ => default.to_owned(),
        }
    } else {
        default.to_owned()
    };
    (name.to_owned(), Json::Number(number))
}

/// The value in the shape that the schema describes, or nothing where it
/// has that shape already.
pub fn coerce(bevy_type: &str, value: &Json) -> (r: Option<Json>)
    ensures
        match r {
            Some(v) => v@ == coerced(bevy_type@, value@),
            None => value@ == coerced(bevy_type@, value@),
        },
{
    match value {
        Json::Array(items) => {
            proof {
                lemma_array_view(*items);
            }
            let mut members: Vec<(String, Json)> = Vec::new();
            if text_eq(bevy_type, bevy_type::GLAM_QUAT) {
                members.push(field(items, 3, "w", "1.0"));
                members.push(field(items, 0, "x", "0.0"));
                members.push(field(items, 1, "y", "0.0"));
                members.push(field(items, 2, "z", "0.0"));
            } else if text_eq(bevy_type, bevy_type::GLAM_VEC2) {
                members.push(field(items, 0, "x", "0.0"));
                members.push(field(items, 1, "y", "0.0"));
            } else if text_eq(bevy_type, bevy_type::GLAM_VEC3) || text_eq(
                bevy_type,
                bevy_type::GLAM_VEC3A,
            ) {
                members.push(field(items, 0, "x", "0.0"));
                members.push(field(items, 1, "y", "0.0"));
                members.push(field(items, 2, "z", "0.0"));
            } else {
                return None;
            }
            proof {
                lemma_object_view(members);
                let got = member_views(members@);
                let want = coerced(bevy_type@, value@)->Object_0;
                assert(got =~= want);
            }
            Some(Json::Object(members))
        },
        _ => None,
    }
}

/// The value `value` of the type `bevy_type` in the shape that the schema
/// describes.
pub fn map_value(bevy_type: &str, value: Json) -> (r: Json)
    ensures
        r@ == coerced(bevy_type@, value@),
{
    match coerce(bevy_type, &value) {
        Some(v) => v,
        None => value,
    }
}

/// The fields of a vector or quaternion made from an array are the items
/// of the array: `x` the first, `y` the second, `z` the third and `w` the
/// fourth, each as a double, the `w` that a quaternion lacks being one.
pub proof fn lemma_coerced_fields(type_path: Seq<char>, items: Seq<JsonView>)
    requires
        is_vector_type(type_path),
    ensures
        coerced(type_path, JsonView::Array(items)).member("x"@) == Some(
            field_of(item_at(items, 0), "0.0"@),
        ),
        coerced(type_path, JsonView::Array(items)).member("y"@) == Some(
            field_of(item_at(items, 1), "0.0"@),
        ),
        type_path != bevy_type::GLAM_VEC2@ ==> coerced(type_path, JsonView::Array(items)).member(
            "z"@,
        ) == Some(field_of(item_at(items, 2), "0.0"@)),
        type_path == bevy_type::GLAM_QUAT@ ==> coerced(type_path, JsonView::Array(items)).member(
            "w"@,
        ) == Some(field_of(item_at(items, 3), "1.0"@)),
        type_path == bevy_type::GLAM_QUAT@ && items.len() < 4 ==> coerced(
            type_path,
            JsonView::Array(items),
        ).member("w"@) == Some(JsonView::Number("1.0"@)),
{
    reveal_strlit("w");
    reveal_strlit("x");
    reveal_strlit("y");
    reveal_strlit("z");
    let members = coerced(type_path, JsonView::Array(items))->Object_0;
    assert("x"@[0] != "w"@[0]);
    assert("y"@[0] != "w"@[0]);
    assert("y"@[0] != "x"@[0]);
    assert("z"@[0] != "w"@[0]);
    assert("z"@[0] != "x"@[0]);
    assert("z"@[0] != "y"@[0]);
    let skip_w = type_path == bevy_type::GLAM_QUAT@;
    let base: int = if skip_w {
        1
    } else {
        0
    };
    crate::assoc::lemma_find_at(members, "x"@, base);
    crate::assoc::lemma_find_at(members, "y"@, base + 1);
    if type_path != bevy_type::GLAM_VEC2@ {
        crate::assoc::lemma_find_at(members, "z"@, base + 2);
    }
    if skip_w {
        crate::assoc::lemma_find_at(members, "w"@, 0);
    }
}

/// A field made from a number that is written as a double is that number:
/// the array's numbers come back from the fields unchanged.
pub proof fn lemma_field_round_trip(items: Seq<JsonView>, i: int, default: Seq<char>)
    requires
        0 <= i < items.len(),
        items[i] matches JsonView::Number(literal) && float_literal(literal) == Some(literal),
    ensures
        field_of(item_at(items, i), default) == items[i],
{
}

/// Reshaping a value does not make it nest more deeply.
pub proof fn lemma_coerced_height(type_path: Seq<char>, value: JsonView)
    ensures
        height(coerced(type_path, value)) <= height(value),
{
    match value {
        JsonView::Array(items) => {
            if is_vector_type(type_path) {
                let members = coerced(type_path, value)->Object_0;
                assert forall|i: int| 0 <= i < members.len() implies height(
                    (#[trigger] members[i]).1,
                ) == 0 by {}
                lemma_flat_members(members, members.len());
            }
        },
        _ => {},
    }
}

/// Members whose values are scalars have the height zero.
proof fn lemma_flat_members(members: Seq<(Seq<char>, JsonView)>, n: nat)
    requires
        n <= members.len(),
        forall|i: int| 0 <= i < members.len() ==> height((#[trigger] members[i]).1) == 0,
    ensures
        members_height(members, n) == 0,
    decreases n,
{
    if n > 0 {
        lemma_flat_members(members, (n - 1) as nat);
    }
}

} // verus!
