//! JSON values as plain data.
//!
//! A number is held as its literal, in the shortest form that round-trips:
//! `3`, `-2` and `1.5` are three numbers, and so are `1` and `1.0`.

use vstd::prelude::*;
use crate::assoc::{find, lemma_find_skip};
use crate::text::{chars_of, chars_eq, decimal, decimal_string, digits_value, is_decimal, parse_decimal};

verus! {

/// A JSON value.
#[derive(Debug, PartialEq, Eq)]
pub enum Json {
    Null,
    Bool(bool),
    /// A number, as its literal.
    Number(String),
    String(String),
    Array(Vec<Json>),
    /// The members of an object, in order. A lookup finds the first member
    /// of a name.
    Object(Vec<(String, Json)>),
}

/// The mathematical content of a [`Json`] value.
pub enum JsonView {
    Null,
    Bool(bool),
    Number(Seq<char>),
    String(Seq<char>),
    Array(Seq<JsonView>),
    Object(Seq<(Seq<char>, JsonView)>),
}

/// The content of a value.
pub open spec fn json_view(j: Json) -> JsonView
    decreases j,
{
    match j {
        Json::Null => JsonView::Null,
        Json::Bool(b) => JsonView::Bool(b),
        Json::Number(n) => JsonView::Number(n@),
        Json::String(s) => JsonView::String(s@),
        Json::Array(items) => JsonView::Array(
            Seq::new(
                items.len() as nat,
                |i: int|
                    if 0 <= i < items.len() {
                        json_view(items[i])
                    } else {
                        JsonView::Null
                    },
            ),
        ),
        Json::Object(members) => JsonView::Object(
            Seq::new(
                members.len() as nat,
                |i: int|
                    if 0 <= i < members.len() {
                        (members[i].0@, json_view(members[i].1))
                    } else {
                        (Seq::empty(), JsonView::Null)
                    },
            ),
        ),
    }
}

impl View for Json {
    type V = JsonView;

    open spec fn view(&self) -> JsonView {
        json_view(*self)
    }
}

/// The contents of a sequence of values.
pub open spec fn views(items: Seq<Json>) -> Seq<JsonView> {
    Seq::new(items.len(), |i: int| items[i]@)
}

/// The contents of a sequence of named values.
pub open spec fn member_views(members: Seq<(String, Json)>) -> Seq<(Seq<char>, JsonView)> {
    Seq::new(members.len(), |i: int| (members[i].0@, members[i].1@))
}

/// The strings of the texts `texts`.
pub open spec fn text_values(texts: Seq<&str>) -> Seq<JsonView> {
    Seq::new(texts.len(), |i: int| JsonView::String(texts[i]@))
}

/// The content of an array is the contents of its items.
pub proof fn lemma_array_view(items: Vec<Json>)
    ensures
        Json::Array(items)@ == JsonView::Array(views(items@)),
{
    let a = Json::Array(items)@->Array_0;
    assert(a =~= views(items@));
}

/// The content of an object is the names and contents of its members.
pub proof fn lemma_object_view(members: Vec<(String, Json)>)
    ensures
        Json::Object(members)@ == JsonView::Object(member_views(members@)),
{
    let j = Json::Object(members);
    assert(j@ is Object);
    let a = match j@ {
        JsonView::Object(m) => m,
        _ => Seq::empty(),
    };
    let b = member_views(members@);
    assert(a.len() == members.len());
    assert(a.len() == b.len());
    assert forall|i: int| 0 <= i < a.len() implies a[i] == b[i] by {
        assert(a[i] == (members[i].0@, members[i].1@));
        assert(b[i] == (members@[i].0@, members@[i].1@));
    }
    assert(a =~= b);
}

/// The integer that a number literal denotes: a decimal numeral, or a
/// minus sign before the numeral of a positive number.
pub open spec fn literal_int(s: Seq<char>) -> Option<int> {
    if is_decimal(s) {
        Some(digits_value(s) as int)
    } else if s.len() > 1 && s[0] == '-' && is_decimal(s.skip(1)) && digits_value(s.skip(1)) > 0 {
        Some(-(digits_value(s.skip(1)) as int))
    } else {
        None
    }
}

/// How deeply a value nests: zero for a scalar, and one more than its
/// deepest item or member for an array or an object.
pub open spec fn height(v: JsonView) -> nat
    decreases v, 0nat,
{
    match v {
        JsonView::Array(items) => 1 + items_height(items, items.len()),
        JsonView::Object(members) => 1 + members_height(members, members.len()),
        _ => 0,
    }
}

/// The greatest height among the first `n` of `items`.
pub open spec fn items_height(items: Seq<JsonView>, n: nat) -> nat
    decreases items, n,
{
    if n == 0 || n > items.len() {
        0
    } else {
        let last = height(items[n - 1]);
        let rest = items_height(items, (n - 1) as nat);
        if last > rest {
            last
        } else {
            rest
        }
    }
}

/// The greatest height among the values of the first `n` of `members`.
pub open spec fn members_height(members: Seq<(Seq<char>, JsonView)>, n: nat) -> nat
    decreases members, n,
{
    if n == 0 || n > members.len() {
        0
    } else {
        let last = height(members[n - 1].1);
        let rest = members_height(members, (n - 1) as nat);
        if last > rest {
            last
        } else {
            rest
        }
    }
}

/// An item of an array nests less deeply than the array.
pub proof fn lemma_item_height(items: Seq<JsonView>, i: int)
    requires
        0 <= i < items.len(),
    ensures
        height(items[i]) < height(JsonView::Array(items)),
{
    lemma_items_height_bound(items, items.len(), i);
}

/// No item among the first `n` is higher than their greatest height.
pub proof fn lemma_items_height_bound(items: Seq<JsonView>, n: nat, i: int)
    requires
        0 <= i < n <= items.len(),
    ensures
        height(items[i]) <= items_height(items, n),
    decreases n,
{
    if i < n - 1 {
        lemma_items_height_bound(items, (n - 1) as nat, i);
    }
}

/// The value of a member of an object nests less deeply than the object.
pub proof fn lemma_member_height(members: Seq<(Seq<char>, JsonView)>, i: int)
    requires
        0 <= i < members.len(),
    ensures
        height(members[i].1) < height(JsonView::Object(members)),
{
    lemma_members_height_bound(members, members.len(), i);
}

/// No value among the first `n` members is higher than their greatest
/// height.
pub proof fn lemma_members_height_bound(members: Seq<(Seq<char>, JsonView)>, n: nat, i: int)
    requires
        0 <= i < n <= members.len(),
    ensures
        height(members[i].1) <= members_height(members, n),
    decreases n,
{
    if i < n - 1 {
        lemma_members_height_bound(members, (n - 1) as nat, i);
    }
}

/// A member that a lookup finds nests less deeply than the value.
pub proof fn lemma_found_member_height(v: JsonView, key: Seq<char>)
    requires
        v.member(key) is Some,
    ensures
        height(v.member(key).unwrap()) < height(v),
{
    let members = v->Object_0;
    let k = crate::assoc::lemma_find_index(members, key);
    lemma_member_height(members, k);
}

impl JsonView {
    /// The member `key` of an object; `None` for a missing member and for
    /// what is no object.
    pub open spec fn member(self, key: Seq<char>) -> Option<JsonView> {
        match self {
            JsonView::Object(members) => find(members, key),
            _ => None,
        }
    }

    /// The items of an array.
    pub open spec fn items(self) -> Option<Seq<JsonView>> {
        match self {
            JsonView::Array(items) => Some(items),
            _ => None,
        }
    }

    /// The text of a string.
    pub open spec fn text(self) -> Option<Seq<char>> {
        match self {
            JsonView::String(s) => Some(s),
            _ => None,
        }
    }

    /// The integer that a number denotes, if it is written as one.
    pub open spec fn integer(self) -> Option<int> {
        match self {
            JsonView::Number(n) => literal_int(n),
            _ => None,
        }
    }

    /// A number as an unsigned 64-bit integer.
    pub open spec fn as_u64(self) -> Option<u64> {
        match self.integer() {
            Some(n) => if 0 <= n <= u64::MAX {
                Some(n as u64)
            } else {
                None
            },
            None => None,
        }
    }

    /// A number as a signed 64-bit integer.
    pub open spec fn as_i64(self) -> Option<i64> {
        match self.integer() {
            Some(n) => if i64::MIN <= n <= i64::MAX {
                Some(n as i64)
            } else {
                None
            },
            None => None,
        }
    }

    /// The number of the unsigned integer `n`.
    pub open spec fn of_nat(n: nat) -> JsonView {
        JsonView::Number(decimal(n))
    }
}

impl Json {
    /// The number of the unsigned integer `n`.
    pub fn from_u64(n: u64) -> (r: Json)
        ensures
            r@ == JsonView::of_nat(n as nat),
    {
        Json::Number(decimal_string(n))
    }

    /// The string of the text `s`.
    pub fn from_text(s: &str) -> (r: Json)
        ensures
            r@ == JsonView::String(s@),
    {
        Json::String(s.to_owned())
    }

    /// The array of the items `items`.
    pub fn array(items: Vec<Json>) -> (r: Json)
        ensures
            r@ == JsonView::Array(views(items@)),
    {
        proof {
            lemma_array_view(items);
        }
        Json::Array(items)
    }

    /// The object of the members `members`.
    pub fn object(members: Vec<(String, Json)>) -> (r: Json)
        ensures
            r@ == JsonView::Object(member_views(members@)),
    {
        proof {
            lemma_object_view(members);
        }
        Json::Object(members)
    }

    /// The array of the strings `texts`.
    pub fn texts(texts: &Vec<&str>) -> (r: Json)
        ensures
            r@ == JsonView::Array(text_values(texts@)),
    {
        let mut items: Vec<Json> = Vec::new();
        let mut i: usize = 0;
        while i < texts.len()
            invariant
                i <= texts.len(),
                items.len() == i,
                forall|j: int| 0 <= j < i ==> items[j]@ == JsonView::String(texts[j]@),
            decreases texts.len() - i,
        {
            items.push(Json::from_text(texts[i]));
            i += 1;
        }
        assert(views(items@) =~= text_values(texts@));
        Json::array(items)
    }

    /// Whether this is `null`.
    pub fn is_null(&self) -> (r: bool)
        ensures
            r == (self@ == JsonView::Null),
    {
        match self {
            Json::Null => true,
            _ => false,
        }
    }

    /// The boolean, if this is one.
    pub fn as_bool(&self) -> (r: Option<bool>)
        ensures
            r == (match self@ {
                JsonView::Bool(b) => Some(b),
                _ => None,
            }),
    {
        match self {
            Json::Bool(b) => Some(*b),
            _ => None,
        }
    }

    /// The text, if this is a string.
    pub fn as_str(&self) -> (r: Option<&String>)
        ensures
            r is Some == self@.text() is Some,
            r matches Some(s) ==> Some(s@) == self@.text(),
    {
        match self {
            Json::String(s) => Some(s),
            _ => None,
        }
    }

    /// The items, if this is an array.
    pub fn as_array(&self) -> (r: Option<&Vec<Json>>)
        ensures
            r is Some == self@.items() is Some,
            r matches Some(items) ==> Some(views(items@)) == self@.items(),
    {
        match self {
            Json::Array(items) => {
                proof {
                    lemma_array_view(*items);
                }
                Some(items)
            },
            _ => None,
        }
    }

    /// The members, if this is an object.
    pub fn as_object(&self) -> (r: Option<&Vec<(String, Json)>>)
        ensures
            r is Some == self@ is Object,
            r matches Some(members) ==> self@ == JsonView::Object(member_views(members@)),
    {
        match self {
            Json::Object(members) => {
                proof {
                    lemma_object_view(*members);
                }
                Some(members)
            },
            _ => None,
        }
    }

    /// The member `key` of an object.
    #[verifier::loop_isolation(false)]
    pub fn get(&self, key: &str) -> (r: Option<&Json>)
        ensures
            r is Some == self@.member(key@) is Some,
            r matches Some(v) ==> Some(v@) == self@.member(key@),
    {
        match self {
            Json::Object(members) => {
                proof {
                    lemma_object_view(*members);
                }
                let wanted = chars_of(key);
                let ghost all = member_views(members@);
                let mut i: usize = 0;
                while i < members.len()
                    invariant
                        i <= members.len(),
                        wanted@ == key@,
                        all == member_views(members@),
                        forall|j: int| 0 <= j < i ==> (#[trigger] all[j]).0 != key@,
                    decreases members.len() - i,
                {
                    let name = chars_of(members[i].0.as_str());
                    if chars_eq(&name, &wanted) {
                        proof {
                            lemma_find_skip(all, key@, i as int);
                            assert(all.skip(i as int)[0] == all[i as int]);
                        }
                        return Some(&members[i].1);
                    }
                    i += 1;
                }
                proof {
                    lemma_find_skip(all, key@, all.len() as int);
                    assert(all.skip(all.len() as int).len() == 0);
                }
                None
            },
            _ => None,
        }
    }

    /// The number as an unsigned 64-bit integer, if it is written as one.
    pub fn as_u64(&self) -> (r: Option<u64>)
        ensures
            r == self@.as_u64(),
    {
        match self {
            Json::Number(n) => parse_decimal(&chars_of(n.as_str())),
            _ => None,
        }
    }

    /// The number as a signed 64-bit integer, if it is written as one.
    pub fn as_i64(&self) -> (r: Option<i64>)
        ensures
            r == self@.as_i64(),
    {
        match self {
            Json::Number(n) => {
                let s = chars_of(n.as_str());
                if s.len() > 1 && s[0] == '-' {
                    let mut rest: Vec<char> = Vec::new();
                    let mut i: usize = 1;
                    while i < s.len()
                        invariant
                            1 <= i <= s.len(),
                            rest@ == s@.subrange(1, i as int),
                        decreases s.len() - i,
                    {
                        rest.push(s[i]);
                        i += 1;
                    }
                    assert(rest@ == s@.skip(1));
                    assert(!is_decimal(s@)) by {
                        if is_decimal(s@) {
                            assert(crate::text::is_digit(s@[0]));
                        }
                    }
                    match parse_decimal(&rest) {
                        Some(m) => {
                            if m == 0 || m > 0x8000_0000_0000_0000 {
                                None
                            } else if m == 0x8000_0000_0000_0000 {
                                Some(i64::MIN)
                            } else {
                                Some(-(m as i64))
                            }
                        },
                        None => None,
                    }
                } else {
                    assert(literal_int(s@) is Some ==> is_decimal(s@));
                    match parse_decimal(&s) {
                        Some(m) => {
                            if m > 0x7fff_ffff_ffff_ffff {
                                None
                            } else {
                                Some(m as i64)
                            }
                        },
                        None => None,
                    }
                }
            },
            _ => None,
        }
    }

    /// A copy of this value.
    #[verifier::loop_isolation(false)]
    pub fn duplicate(&self) -> (r: Json)
        ensures
            r@ == self@,
        decreases self,
    {
        match self {
            Json::Null => Json::Null,
            Json::Bool(b) => Json::Bool(*b),
            Json::Number(n) => Json::Number(n.clone()),
            Json::String(s) => Json::String(s.clone()),
            Json::Array(items) => {
                let mut out: Vec<Json> = Vec::new();
                let mut i: usize = 0;
                while i < items.len()
                    invariant
                        i <= items.len(),
                        out.len() == i,
                        forall|j: int| 0 <= j < i ==> out[j]@ == items[j]@,
                    decreases items.len() - i,
                {
                    out.push(items[i].duplicate());
                    i += 1;
                }
                proof {
                    lemma_array_view(*items);
                    lemma_array_view(out);
                    assert(views(out@) =~= views(items@));
                }
                Json::Array(out)
            },
            Json::Object(members) => {
                let mut out: Vec<(String, Json)> = Vec::new();
                let mut i: usize = 0;
                while i < members.len()
                    invariant
                        i <= members.len(),
                        out.len() == i,
                        forall|j: int|
                            0 <= j < i ==> out[j].0@ == members[j].0@ && out[j].1@ == members[j].1@,
                    decreases members.len() - i,
                {
                    out.push((members[i].0.clone(), members[i].1.duplicate()));
                    i += 1;
                }
                proof {
                    lemma_object_view(*members);
                    lemma_object_view(out);
                    assert(member_views(out@) =~= member_views(members@));
                }
                Json::Object(out)
            },
        }
    }
}

/// A copy of a list of named values.
pub fn duplicate_members(members: &Vec<(String, Json)>) -> (r: Vec<(String, Json)>)
    ensures
        member_views(r@) == member_views(members@),
{
    let mut out: Vec<(String, Json)> = Vec::new();
    let mut i: usize = 0;
    while i < members.len()
        invariant
            i <= members.len(),
            out.len() == i,
            forall|j: int| 0 <= j < i ==> out[j].0@ == members[j].0@ && out[j].1@ == members[j].1@,
        decreases members.len() - i,
    {
        out.push((members[i].0.clone(), members[i].1.duplicate()));
        i += 1;
    }
    assert(member_views(out@) =~= member_views(members@));
    out
}

/// The strings that a value holds: an array of them.
pub open spec fn strings_of(v: JsonView) -> Option<Seq<Seq<char>>> {
    match v {
        JsonView::Array(items) => if forall|i: int|
            0 <= i < items.len() ==> (#[trigger] items[i]) is String {
            Some(Seq::new(items.len(), |i: int| items[i]->String_0))
        } else {
            None
        },
        _ => None,
    }
}

/// The contents of a list of strings.
pub open spec fn string_views(list: Seq<String>) -> Seq<Seq<char>> {
    Seq::new(list.len(), |i: int| list[i]@)
}

/// Reads a list of strings.
#[verifier::loop_isolation(false)]
pub fn decode_strings(value: &Json) -> (r: Option<Vec<String>>)
    ensures
        r is Some == strings_of(value@) is Some,
        r matches Some(list) ==> Some(string_views(list@)) == strings_of(value@),
{
    match value.as_array() {
        Some(items) => {
            let mut out: Vec<String> = Vec::new();
            let mut i: usize = 0;
            while i < items.len()
                invariant
                    i <= items.len(),
                    out.len() == i,
                    forall|j: int|
                        0 <= j < i ==> (#[trigger] views(items@)[j]) == JsonView::String(out[j]@),
                decreases items.len() - i,
            {
                match items[i].as_str() {
                    Some(s) => {
                        out.push(s.clone());
                    },
                    None => {
                        assert(!(views(items@)[i as int] is String));
                        return None;
                    },
                }
                i += 1;
            }
            assert(string_views(out@) =~= strings_of(value@).unwrap());
            Some(out)
        },
        None => None,
    }
}

impl Clone for Json {
    fn clone(&self) -> (r: Json)
        ensures
            r@ == self@,
    {
        self.duplicate()
    }
}

} // verus!
