//! JSON values as text, in the compact form: no space between tokens, the
//! members of an object in the order in which it holds them.
//!
//! `serde_json` writes values of its own type, and a value of this library
//! is none. So each string is handed to `serde_json` to be quoted, a
//! number is its literal, and what stands between the parts (brackets,
//! braces, commas and colons) is written here.

use vstd::prelude::*;
use crate::json::{lemma_array_view, lemma_object_view, member_views, views, Json, JsonView};
use crate::text::{digit_char, push_str, string_of};

verus! {

/// The character of the hexadecimal digit `d`, in lower case.
pub open spec fn hex_digit(d: nat) -> char
    recommends
        d < 16,
{
    if d < 10 {
        digit_char(d)
    } else {
        (d + 87) as u8 as char
    }
}

/// How one character of a string is written: the quote, the backslash and
/// the control characters are escaped, the rest stands as it is.
pub open spec fn escaped(c: char) -> Seq<char> {
    let code = c as u32;
    if code == 0x22 {
        seq!['\\', '"']
    } else if code == 0x5c {
        seq!['\\', '\\']
    } else if code == 0x08 {
        seq!['\\', 'b']
    } else if code == 0x09 {
        seq!['\\', 't']
    } else if code == 0x0a {
        seq!['\\', 'n']
    } else if code == 0x0c {
        seq!['\\', 'f']
    } else if code == 0x0d {
        seq!['\\', 'r']
    } else if code < 0x20 {
        seq!['\\', 'u', '0', '0', hex_digit((code / 16) as nat), hex_digit((code % 16) as nat)]
    } else {
        seq![c]
    }
}

/// The characters of `s`, each written as in a string.
pub open spec fn escaped_text(s: Seq<char>) -> Seq<char>
    decreases s.len(),
{
    if s.len() == 0 {
        Seq::empty()
    } else {
        escaped_text(s.drop_last()) + escaped(s.last())
    }
}

/// The string `s` as written in JSON, between quotes.
pub open spec fn quoted(s: Seq<char>) -> Seq<char> {
    seq!['"'] + escaped_text(s) + seq!['"']
}

/// `serde_json`'s `Display` for `Value`, on a string: the string between
/// quotes, where the quote and the backslash stand behind a backslash,
/// backspace, tab, line feed, form feed and carriage return are written
/// `\b`, `\t`, `\n`, `\f` and `\r`, every other character below the space
/// is written `\u00` and its two hexadecimal digits in lower case, and
/// every other character stands as it is.
#[verifier::external_body]
fn quote(s: &str) -> (r: String)
    ensures
        r@ == quoted(s@),
{
    serde_json::Value::String(s.to_owned()).to_string()
}

/// The compact text of a value.
pub open spec fn compact(v: JsonView) -> Seq<char>
    decreases v, 0nat,
{
    match v {
        JsonView::Null => "null"@,
        JsonView::Bool(b) => if b {
            "true"@
        } else {
            "false"@
        },
        JsonView::Number(n) => n,
        JsonView::String(s) => quoted(s),
        JsonView::Array(items) => seq!['['] + items_text(items, items.len()) + seq![']'],
        JsonView::Object(members) => seq!['{'] + members_text(members, members.len()) + seq!['}'],
    }
}

/// The compact texts of the first `n` of `items`, with commas between.
pub open spec fn items_text(items: Seq<JsonView>, n: nat) -> Seq<char>
    decreases items, n,
{
    if n == 0 || n > items.len() {
        Seq::empty()
    } else if n == 1 {
        compact(items[0])
    } else {
        items_text(items, (n - 1) as nat) + seq![','] + compact(items[n - 1])
    }
}

/// The first `n` of `members`, each as its quoted name, a colon and the
/// compact text of its value, with commas between.
pub open spec fn members_text(members: Seq<(Seq<char>, JsonView)>, n: nat) -> Seq<char>
    decreases members, n,
{
    if n == 0 || n > members.len() {
        Seq::empty()
    } else if n == 1 {
        quoted(members[0].0) + seq![':'] + compact(members[0].1)
    } else {
        members_text(members, (n - 1) as nat) + seq![','] + quoted(members[n - 1].0) + seq![':']
            + compact(members[n - 1].1)
    }
}

/// The text that stands for a value where it is shown or edited as text:
/// a string's own text, and the compact text of any other value.
pub open spec fn display_text(v: JsonView) -> Seq<char> {
    match v {
        JsonView::String(s) => s,
        _ => compact(v),
    }
}

fn push_quoted(out: &mut Vec<char>, s: &str)
    ensures
        final(out)@ == old(out)@ + quoted(s@),
{
    let text = quote(s);
    push_str(out, text.as_str());
}

/// Appends the compact text of `value` to `out`.
#[verifier::loop_isolation(false)]
pub fn push_compact(out: &mut Vec<char>, value: &Json)
    ensures
        final(out)@ == old(out)@ + compact(value@),
    decreases value,
{
    match value {
        Json::Null => {
            push_str(out, "null");
        },
        Json::Bool(b) => {
            if *b {
                push_str(out, "true");
            } else {
                push_str(out, "false");
            }
        },
        Json::Number(n) => {
            push_str(out, n.as_str());
        },
        Json::String(s) => {
            push_quoted(out, s.as_str());
        },
        Json::Array(items) => {
            proof {
                lemma_array_view(*items);
            }
            let ghost all = views(items@);
            out.push('[');
            let ghost start = out@;
            let mut i: usize = 0;
            while i < items.len()
                invariant
                    i <= items.len(),
                    out@ == start + items_text(all, i as nat),
                decreases items.len() - i,
            {
                if i > 0 {
                    out.push(',');
                }
                push_compact(out, &items[i]);
                proof {
                    assert(all[i as int] == items[i as int]@);
                    assert(out@ =~= start + items_text(all, (i + 1) as nat));
                }
                i += 1;
            }
            out.push(']');
            assert(out@ =~= old(out)@ + compact(value@));
        },
        Json::Object(members) => {
            proof {
                lemma_object_view(*members);
            }
            let ghost all = member_views(members@);
            out.push('{');
            let ghost start = out@;
            let mut i: usize = 0;
            while i < members.len()
                invariant
                    i <= members.len(),
                    out@ == start + members_text(all, i as nat),
                decreases members.len() - i,
            {
                if i > 0 {
                    out.push(',');
                }
                push_quoted(out, members[i].0.as_str());
                out.push(':');
                push_compact(out, &members[i].1);
                proof {
                    assert(all[i as int] == (members[i as int].0@, members[i as int].1@));
                    assert(out@ =~= start + members_text(all, (i + 1) as nat));
                }
                i += 1;
            }
            out.push('}');
            assert(out@ =~= old(out)@ + compact(value@));
        },
    }
}

/// The compact text of `value`.
pub fn to_compact_string(value: &Json) -> (r: String)
    ensures
        r@ == compact(value@),
{
    let mut out: Vec<char> = Vec::new();
    push_compact(&mut out, value);
    assert(out@ =~= compact(value@));
    string_of(&out)
}

/// The text that stands for `value` where it is shown or edited as text:
/// a string's own text, and the compact text of any other value.
pub fn value_to_string(value: &Json) -> (r: String)
    ensures
        r@ == display_text(value@),
{
    match value {
        Json::String(s) => s.clone(),
        _ => to_compact_string(value),
    }
}

} // verus!
