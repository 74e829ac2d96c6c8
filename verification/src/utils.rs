//! Names of types as they are shown: the last segment of each path, with
//! the type's arguments treated the same way.

use vstd::prelude::*;
use vstd::string::{StrSliceExecFns, StringSliceAdditionalSpecFns};
use vstd::utf8::{char_is_scalar, encode_scalar, encode_utf8};
use crate::text::{chars_of, push_chars, slice_of, string_of};

verus! {

/// Whether `c` has the Unicode property `Lowercase`.
pub uninterp spec fn is_lowercase_char(c: char) -> bool;

/// Whether `c` has the Unicode property `Uppercase`.
pub uninterp spec fn is_uppercase_char(c: char) -> bool;

/// `char::is_lowercase`: whether the character has the Unicode property
/// `Lowercase`.
#[verifier::external_body]
fn is_lowercase(c: char) -> (r: bool)
    ensures
        r == is_lowercase_char(c),
{
    c.is_lowercase()
}

/// `char::is_uppercase`: whether the character has the Unicode property
/// `Uppercase`.
#[verifier::external_body]
fn is_uppercase(c: char) -> (r: bool)
    ensures
        r == is_uppercase_char(c),
{
    c.is_uppercase()
}

/// The zero-width space.
pub open spec fn zero_width_space() -> char {
    '\u{200B}'
}

/// What stands between the neighbours `prev` and `next`: one zero-width
/// space after an opening angle bracket, one where a lowercase letter
/// meets an uppercase one, and nothing otherwise. An angle bracket is no
/// letter, so it is not asked whether it is lowercase.
pub open spec fn gap(prev: char, next: char) -> Seq<char> {
    if prev == '<' {
        seq![zero_width_space()]
    } else if is_lowercase_char(prev) && is_uppercase_char(next) {
        seq![zero_width_space()]
    } else {
        Seq::empty()
    }
}

/// Between two characters stands at most one zero-width space, and after
/// an opening angle bracket exactly one.
pub proof fn lemma_gap(prev: char, next: char)
    ensures
        gap(prev, next).len() <= 1,
        prev == '<' ==> gap(prev, next) == seq![zero_width_space()],
        gap(prev, next).len() == 1 ==> gap(prev, next)[0] == zero_width_space(),
{
}

/// The text `s` with a place to break the line after each opening angle
/// bracket and wherever a lowercase letter meets an uppercase one.
pub open spec fn spaced(s: Seq<char>) -> Seq<char>
    decreases s.len(),
{
    if s.len() <= 1 {
        s
    } else {
        spaced(s.drop_last()) + gap(s[s.len() - 2], s[s.len() - 1]) + seq![s.last()]
    }
}

/// The text `value` with zero-width spaces where a line may break: after
/// each opening angle bracket and wherever a lowercase letter meets an
/// uppercase one.
pub fn add_zero_width_spaces(value: &str) -> (r: String)
    ensures
        r@ == spaced(value@),
{
    let text = chars_of(value);
    let mut out: Vec<char> = Vec::new();
    if text.len() == 0 {
        return string_of(&out);
    }
    out.push(text[0]);
    let mut i: usize = 1;
    assert(out@ =~= spaced(text@.take(1))) by {
        assert(text@.take(1) =~= seq![text@[0]]);
    }
    while i < text.len()
        invariant
            1 <= i <= text.len(),
            out@ == spaced(text@.take(i as int)),
        decreases text.len() - i,
    {
        let prev = text[i - 1];
        let next = text[i];
        let ghost before = out@;
        if prev == '<' {
            out.push('\u{200B}');
        } else if is_lowercase(prev) && is_uppercase(next) {
            out.push('\u{200B}');
        }
        out.push(next);
        proof {
            let now = text@.take(i + 1);
            assert(now.drop_last() =~= text@.take(i as int));
            assert(now[now.len() - 2] == prev);
            assert(now.last() == next);
            assert(out@ =~= before + gap(prev, next) + seq![next]);
        }
        i += 1;
    }
    assert(text@.take(text.len() as int) =~= text@);
    string_of(&out)
}

/// The position of the closing angle bracket that matches an opening one
/// before the text, found from position `k` on, where `open` brackets
/// opened since then are not yet closed.
pub open spec fn matching_from(s: Seq<char>, k: int, open: nat) -> Option<int>
    decreases s.len() - k,
{
    if k < 0 || k >= s.len() {
        None
    } else if s[k] == '<' {
        matching_from(s, k + 1, open + 1)
    } else if s[k] == '>' {
        if open == 0 {
            Some(k)
        } else {
            matching_from(s, k + 1, (open - 1) as nat)
        }
    } else {
        matching_from(s, k + 1, open)
    }
}

/// The position in `s` of the closing angle bracket that matches an
/// opening one before `s`: the first `>` before which every `<` of `s` is
/// closed.
pub open spec fn matching_bracket(s: Seq<char>) -> Option<int> {
    matching_from(s, 0, 0)
}

/// The matching bracket is a closing angle bracket of the text.
pub proof fn lemma_matching_is_bracket(s: Seq<char>, k: int, open: nat)
    requires
        0 <= k,
    ensures
        matching_from(s, k, open) matches Some(e) ==> k <= e < s.len() && s[e] == '>',
    decreases s.len() - k,
{
    if k < s.len() {
        if s[k] == '<' {
            lemma_matching_is_bracket(s, k + 1, open + 1);
        } else if s[k] == '>' {
            if open > 0 {
                lemma_matching_is_bracket(s, k + 1, (open - 1) as nat);
            }
        } else {
            lemma_matching_is_bracket(s, k + 1, open);
        }
    }
}

/// How many more `<` than `>` stand among the first `k` characters of `s`.
pub open spec fn balance(s: Seq<char>, k: int) -> int
    decreases k,
{
    if k <= 0 || k > s.len() {
        0
    } else if s[k - 1] == '<' {
        balance(s, k - 1) + 1
    } else if s[k - 1] == '>' {
        balance(s, k - 1) - 1
    } else {
        balance(s, k - 1)
    }
}

/// Whether a `>` stands at position `e` of `s` with as many `<` as `>`
/// before it.
pub open spec fn closes_at(s: Seq<char>, e: int) -> bool {
    0 <= e < s.len() && s[e] == '>' && balance(s, e) == 0
}

/// The search from position `k` finds the first `>` with as many `<` as
/// `>` before it, where none stands before `k` and `open` is the balance
/// there.
pub proof fn lemma_matching_from(s: Seq<char>, k: int, open: nat)
    requires
        0 <= k <= s.len(),
        open == balance(s, k),
        forall|j: int| 0 <= j < k ==> !closes_at(s, j),
    ensures
        match matching_from(s, k, open) {
            Some(e) => closes_at(s, e) && forall|j: int| 0 <= j < e ==> !closes_at(s, j),
            None => forall|j: int| 0 <= j < s.len() ==> !closes_at(s, j),
        },
    decreases s.len() - k,
{
    if k < s.len() {
        assert(balance(s, k + 1) == balance(s, k) + (if s[k] == '<' {
            1int
        } else if s[k] == '>' {
            -1int
        } else {
            0int
        }));
        if s[k] == '<' {
            lemma_matching_from(s, k + 1, open + 1);
        } else if s[k] == '>' {
            if open > 0 {
                lemma_matching_from(s, k + 1, (open - 1) as nat);
            }
        } else {
            lemma_matching_from(s, k + 1, open);
        }
    }
}

/// The matching bracket is the first `>` of the text that has as many `<`
/// as `>` before it, and there is none where no `>` has.
pub proof fn lemma_matching_bracket(s: Seq<char>)
    ensures
        match matching_bracket(s) {
            Some(e) => closes_at(s, e) && forall|j: int| 0 <= j < e ==> !closes_at(s, j),
            None => forall|j: int| 0 <= j < s.len() ==> !closes_at(s, j),
        },
{
    lemma_matching_from(s, 0, 0);
}

fn matching_in(text: &Vec<char>) -> (r: Option<usize>)
    ensures
        r is Some == matching_bracket(text@) is Some,
        r matches Some(e) ==> matching_bracket(text@) == Some(e as int) && e < text.len()
            && text@[e as int] == '>',
{
    let mut open: usize = 0;
    let mut i: usize = 0;
    while i < text.len()
        invariant
            i <= text.len(),
            open <= i,
            matching_bracket(text@) == matching_from(text@, i as int, open as nat),
        decreases text.len() - i,
    {
        let c = text[i];
        if c == '<' {
            open += 1;
        } else if c == '>' {
            if open == 0 {
                return Some(i);
            }
            open -= 1;
        }
        i += 1;
    }
    None
}

/// The number of bytes that the character `c` takes in UTF-8.
pub open spec fn utf8_len(c: char) -> nat {
    let code = c as u32;
    if code < 0x80 {
        1
    } else if code < 0x800 {
        2
    } else if code < 0x10000 {
        3
    } else {
        4
    }
}

/// The offset in bytes of the position `k` of the text `s`: the number of
/// bytes that the `k` characters before it take in UTF-8.
pub open spec fn byte_offset(s: Seq<char>, k: int) -> nat
    decreases k,
{
    if k <= 0 || k > s.len() {
        0
    } else {
        byte_offset(s, k - 1) + utf8_len(s[k - 1])
    }
}

/// The byte offset of the bracket that [`matching_bracket`] finds.
pub open spec fn matching_offset(s: Seq<char>) -> Option<nat> {
    match matching_bracket(s) {
        Some(e) => Some(byte_offset(s, e)),
        None => None,
    }
}

/// A character takes as many bytes as its encoding has.
pub proof fn lemma_utf8_len(c: char)
    ensures
        encode_scalar(c as u32).len() == utf8_len(c),
        1 <= utf8_len(c) <= 4,
{
    char_is_scalar(c);
}

/// The offset of a position is that of the position in what follows the
/// first character, behind the bytes of that character.
pub proof fn lemma_byte_offset_shift(s: Seq<char>, k: int)
    requires
        1 <= k <= s.len(),
    ensures
        byte_offset(s, k) == utf8_len(s[0]) + byte_offset(s.drop_first(), k - 1),
    decreases k,
{
    if k > 1 {
        lemma_byte_offset_shift(s, k - 1);
        assert(s.drop_first()[k - 2] == s[k - 1]);
    } else {
        assert(byte_offset(s, 0) == 0);
        assert(byte_offset(s.drop_first(), 0) == 0);
    }
}

/// No position lies behind the end of the text: its offset is at most the
/// number of bytes of the text, which is the offset of the end.
pub proof fn lemma_byte_offset_fits(s: Seq<char>, k: int)
    requires
        0 <= k <= s.len(),
    ensures
        byte_offset(s, k) <= byte_offset(s, s.len() as int),
        byte_offset(s, s.len() as int) == encode_utf8(s).len(),
    decreases s.len() - k,
{
    lemma_byte_length(s);
    if k < s.len() {
        lemma_byte_offset_fits(s, k + 1);
    }
}

/// The offset of the end of a text is the number of its bytes.
pub proof fn lemma_byte_length(s: Seq<char>)
    ensures
        byte_offset(s, s.len() as int) == encode_utf8(s).len(),
    decreases s.len(),
{
    if s.len() > 0 {
        lemma_byte_length(s.drop_first());
        lemma_byte_offset_shift(s, s.len() as int);
        lemma_utf8_len(s[0]);
    }
}

/// On a text of ASCII characters the offset of a position is the position.
pub proof fn lemma_byte_offset_ascii(s: Seq<char>, k: int)
    requires
        0 <= k <= s.len(),
        forall|i: int| 0 <= i < k ==> (#[trigger] s[i]) as u32 <= 0x7f,
    ensures
        byte_offset(s, k) == k,
    decreases k,
{
    if k > 0 {
        lemma_byte_offset_ascii(s, k - 1);
    }
}

fn char_len(c: char) -> (r: usize)
    ensures
        r == utf8_len(c),
{
    let code: u32 = c as u32;
    if code < 0x80 {
        1
    } else if code < 0x800 {
        2
    } else if code < 0x10000 {
        3
    } else {
        4
    }
}

/// The offset in bytes, within `text`, of the closing angle bracket that
/// matches an opening one before `text`: the offset of the first `>`
/// before which every `<` of `text` is closed.
pub fn find_matching_bracket(text: &str) -> (r: Option<usize>)
    ensures
        r is Some == matching_bracket(text@) is Some,
        r matches Some(offset) ==> Some(offset as nat) == matching_offset(text@),
{
    let chars = chars_of(text);
    match matching_in(&chars) {
        Some(end) => {
            let length = text.as_bytes().len();
            proof {
                lemma_byte_length(chars@);
                assert(length == byte_offset(chars@, chars.len() as int));
            }
            let mut offset: usize = 0;
            let mut i: usize = 0;
            while i < end
                invariant
                    i <= end < chars.len(),
                    offset == byte_offset(chars@, i as int),
                    length == byte_offset(chars@, chars.len() as int),
                decreases end - i,
            {
                proof {
                    lemma_byte_offset_fits(chars@, i + 1);
                }
                offset += char_len(chars[i]);
                i += 1;
            }
            Some(offset)
        },
        None => None,
    }
}

/// The arguments that the text `s` lists from position `k` on, where the
/// argument at hand began at `start` and `depth` says how many angle
/// brackets are open: the text is cut at each comma outside angle
/// brackets, and what follows the last cut is an argument unless it is
/// empty.
pub open spec fn arguments_from(s: Seq<char>, start: int, k: int, depth: int) -> Seq<Seq<char>>
    decreases s.len() - k,
{
    if k < 0 || start < 0 || start > k {
        Seq::empty()
    } else if k >= s.len() {
        if start < s.len() {
            seq![s.subrange(start, s.len() as int)]
        } else {
            Seq::empty()
        }
    } else if s[k] == '<' {
        arguments_from(s, start, k + 1, depth + 1)
    } else if s[k] == '>' {
        arguments_from(s, start, k + 1, depth - 1)
    } else if s[k] == ',' && depth == 0 {
        seq![s.subrange(start, k)] + arguments_from(s, k + 1, k + 1, depth)
    } else {
        arguments_from(s, start, k + 1, depth)
    }
}

/// The arguments that the text `s` lists: its parts between the commas
/// that stand outside angle brackets.
pub open spec fn top_level_arguments(s: Seq<char>) -> Seq<Seq<char>> {
    arguments_from(s, 0, 0, 0)
}

/// Whether a comma stands at position `k` of `s` outside angle brackets:
/// with as many `<` as `>` before it.
pub open spec fn is_cut(s: Seq<char>, k: int) -> bool {
    0 <= k < s.len() && s[k] == ',' && balance(s, k) == 0
}

/// The texts `list` with a comma between each two.
pub open spec fn joined(list: Seq<Seq<char>>) -> Seq<char>
    decreases list.len(),
{
    if list.len() == 0 {
        Seq::empty()
    } else if list.len() == 1 {
        list[0]
    } else {
        list[0] + seq![','] + joined(list.drop_first())
    }
}

/// Where the text that the arguments make up ends: before the last
/// character where that is a comma outside angle brackets, and at the end
/// of the text otherwise.
pub open spec fn arguments_end(s: Seq<char>) -> int {
    if is_cut(s, s.len() - 1) {
        s.len() - 1
    } else {
        s.len() as int
    }
}

/// From a position before the end of the text there is an argument, and
/// the arguments with the commas between them are the text from where the
/// argument at hand began.
pub proof fn lemma_arguments_from(s: Seq<char>, start: int, k: int)
    requires
        0 <= start <= k <= s.len(),
        start < s.len(),
        forall|j: int| start <= j < k ==> !is_cut(s, j),
    ensures
        arguments_from(s, start, k, balance(s, k)).len() > 0,
        joined(arguments_from(s, start, k, balance(s, k))) == s.subrange(start, arguments_end(s)),
    decreases s.len() - k,
{
    let depth = balance(s, k);
    let all = arguments_from(s, start, k, depth);
    if k >= s.len() {
        assert(all =~= seq![s.subrange(start, s.len() as int)]);
        assert(!is_cut(s, s.len() - 1));
    } else {
        assert(balance(s, k + 1) == depth + (if s[k] == '<' {
            1int
        } else if s[k] == '>' {
            -1int
        } else {
            0int
        }));
        if s[k] == '<' {
            lemma_arguments_from(s, start, k + 1);
        } else if s[k] == '>' {
            lemma_arguments_from(s, start, k + 1);
        } else if s[k] == ',' && depth == 0 {
            let first = s.subrange(start, k);
            let rest = arguments_from(s, k + 1, k + 1, depth);
            assert(all =~= seq![first] + rest);
            if k + 1 < s.len() {
                lemma_arguments_from(s, k + 1, k + 1);
                assert(all.drop_first() =~= rest);
                assert(all[0] == first);
                assert(joined(all) == first + seq![','] + joined(rest));
                assert(first + seq![','] + s.subrange(k + 1, arguments_end(s)) =~= s.subrange(
                    start,
                    arguments_end(s),
                ));
            } else {
                assert(rest =~= Seq::<Seq<char>>::empty());
                assert(all =~= seq![first]);
                assert(is_cut(s, s.len() - 1));
            }
        } else {
            assert(!is_cut(s, k));
            lemma_arguments_from(s, start, k + 1);
        }
    }
}

/// The arguments of a text, with the commas between them again, are the
/// text, but for a comma outside angle brackets at its very end.
pub proof fn lemma_arguments_rejoin(s: Seq<char>)
    ensures
        joined(top_level_arguments(s)) == s.subrange(0, arguments_end(s)),
        s.len() > 0 ==> top_level_arguments(s).len() > 0,
{
    if s.len() > 0 {
        lemma_arguments_from(s, 0, 0);
    } else {
        assert(s.subrange(0, 0) =~= Seq::<char>::empty());
    }
}

/// Whether no text of `list` is longer than `limit`.
pub open spec fn all_within(list: Seq<Seq<char>>, limit: nat) -> bool {
    forall|i: int| 0 <= i < list.len() ==> (#[trigger] list[i]).len() <= limit
}

/// No argument is longer than the text.
pub proof fn lemma_arguments_fit(s: Seq<char>, start: int, k: int, depth: int)
    ensures
        all_within(arguments_from(s, start, k, depth), s.len()),
    decreases s.len() - k,
{
    let all = arguments_from(s, start, k, depth);
    if k < 0 || start < 0 || start > k {
    } else if k >= s.len() {
        if start < s.len() {
            assert(all[0] == s.subrange(start, s.len() as int));
        }
    } else if s[k] == '<' {
        lemma_arguments_fit(s, start, k + 1, depth + 1);
        assert(all == arguments_from(s, start, k + 1, depth + 1));
    } else if s[k] == '>' {
        lemma_arguments_fit(s, start, k + 1, depth - 1);
        assert(all == arguments_from(s, start, k + 1, depth - 1));
    } else if s[k] == ',' && depth == 0 {
        lemma_arguments_fit(s, k + 1, k + 1, depth);
        let rest = arguments_from(s, k + 1, k + 1, depth);
        assert(all =~= seq![s.subrange(start, k)] + rest);
        assert forall|i: int| 0 <= i < all.len() implies (#[trigger] all[i]).len() <= s.len() by {
            if i > 0 {
                assert(all[i] == rest[i - 1]);
            } else {
                assert(all[0] == s.subrange(start, k));
            }
        }
    } else {
        lemma_arguments_fit(s, start, k + 1, depth);
        assert(all == arguments_from(s, start, k + 1, depth));
    }
}

fn arguments_in(text: &Vec<char>) -> (r: Vec<(usize, usize)>)
    ensures
        r.len() == top_level_arguments(text@).len(),
        forall|i: int|
            0 <= i < r.len() ==> (#[trigger] r[i]).0 <= r[i].1 <= text.len() && text@.subrange(
                r[i].0 as int,
                r[i].1 as int,
            ) == top_level_arguments(text@)[i],
{
    let mut out: Vec<(usize, usize)> = Vec::new();
    let mut start: usize = 0;
    let mut depth: i128 = 0;
    let mut i: usize = 0;
    let ghost all = top_level_arguments(text@);
    while i < text.len()
        invariant
            start <= i <= text.len(),
            -(i as int) <= depth <= i as int,
            all == top_level_arguments(text@),
            all == char_ranges(text@, out@) + arguments_from(
                text@,
                start as int,
                i as int,
                depth as int,
            ),
            forall|j: int| 0 <= j < out.len() ==> (#[trigger] out[j]).0 <= out[j].1 <= text.len(),
        decreases text.len() - i,
    {
        let c = text[i];
        if c == '<' {
            depth += 1;
        } else if c == '>' {
            depth -= 1;
        } else if c == ',' && depth == 0 {
            let ghost before = char_ranges(text@, out@);
            out.push((start, i));
            assert(char_ranges(text@, out@) =~= before.push(
                text@.subrange(start as int, i as int),
            ));
            assert(all =~= char_ranges(text@, out@) + arguments_from(
                text@,
                i + 1,
                i + 1,
                depth as int,
            ));
            start = i + 1;
        }
        i += 1;
    }
    if start < text.len() {
        let ghost before = char_ranges(text@, out@);
        out.push((start, text.len()));
        assert(char_ranges(text@, out@) =~= before.push(
            text@.subrange(start as int, text.len() as int),
        ));
    }
    assert(all =~= char_ranges(text@, out@));
    assert forall|j: int| 0 <= j < out.len() implies text@.subrange(
        (#[trigger] out[j]).0 as int,
        out[j].1 as int,
    ) == all[j] by {
        assert(char_ranges(text@, out@)[j] == text@.subrange(out[j].0 as int, out[j].1 as int));
    }
    out
}

/// The parts of `s` that the ranges `ranges` mark.
pub open spec fn char_ranges(s: Seq<char>, ranges: Seq<(usize, usize)>) -> Seq<Seq<char>> {
    Seq::new(ranges.len(), |i: int| s.subrange(ranges[i].0 as int, ranges[i].1 as int))
}

/// The contents of a list of slices.
pub open spec fn slice_views(list: Seq<&str>) -> Seq<Seq<char>> {
    Seq::new(list.len(), |i: int| list[i]@)
}

/// The arguments that `text` lists: its parts between the commas that
/// stand outside angle brackets. What follows the last comma is left out
/// where it is empty.
pub fn split_top_level_args(text: &str) -> (r: Vec<&str>)
    ensures
        slice_views(r@) == top_level_arguments(text@),
{
    let chars = chars_of(text);
    let ranges = arguments_in(&chars);
    let mut out: Vec<&str> = Vec::new();
    let mut i: usize = 0;
    while i < ranges.len()
        invariant
            i <= ranges.len(),
            out.len() == i,
            chars@ == text@,
            ranges.len() == top_level_arguments(text@).len(),
            forall|j: int|
                0 <= j < ranges.len() ==> (#[trigger] ranges[j]).0 <= ranges[j].1 <= chars.len()
                    && chars@.subrange(ranges[j].0 as int, ranges[j].1 as int)
                    == top_level_arguments(text@)[j],
            forall|j: int| 0 <= j < i ==> (#[trigger] out[j])@ == top_level_arguments(text@)[j],
        decreases ranges.len() - i,
    {
        let (from, to) = ranges[i];
        out.push(text.substring_char(from, to));
        i += 1;
    }
    assert(slice_views(out@) =~= top_level_arguments(text@));
    out
}

/// Whether `c` is white space: a character with the Unicode property
/// `White_Space`.
pub open spec fn is_white_space(c: char) -> bool {
    let code = c as u32;
    ||| 0x09 <= code <= 0x0d
    ||| code == 0x20
    ||| code == 0x85
    ||| code == 0xa0
    ||| code == 0x1680
    ||| 0x2000 <= code <= 0x200a
    ||| code == 0x2028
    ||| code == 0x2029
    ||| code == 0x202f
    ||| code == 0x205f
    ||| code == 0x3000
}

fn is_space(c: char) -> (r: bool)
    ensures
        r == is_white_space(c),
{
    let code: u32 = c as u32;
    (0x09 <= code && code <= 0x0d) || code == 0x20 || code == 0x85 || code == 0xa0 || code
        == 0x1680 || (0x2000 <= code && code <= 0x200a) || code == 0x2028 || code == 0x2029
        || code == 0x202f || code == 0x205f || code == 0x3000
}

/// How many characters at the start of `s` are white space.
pub open spec fn leading_space(s: Seq<char>) -> nat
    decreases s.len(),
{
    if s.len() > 0 && is_white_space(s[0]) {
        1 + leading_space(s.drop_first())
    } else {
        0
    }
}

/// How many characters at the end of `s` are white space.
pub open spec fn trailing_space(s: Seq<char>) -> nat
    decreases s.len(),
{
    if s.len() > 0 && is_white_space(s.last()) {
        1 + trailing_space(s.drop_last())
    } else {
        0
    }
}

/// The text `s` without the white space at its start and at its end.
pub open spec fn trimmed(s: Seq<char>) -> Seq<char> {
    let from = leading_space(s);
    let rest = s.skip(from as int);
    rest.take(rest.len() - trailing_space(rest))
}

/// The white space at either end is no longer than the text.
pub proof fn lemma_space_fits(s: Seq<char>)
    ensures
        leading_space(s) <= s.len(),
        trailing_space(s) <= s.len(),
        trimmed(s).len() <= s.len(),
    decreases s.len(),
{
    if s.len() > 0 {
        lemma_space_fits(s.drop_first());
        lemma_space_fits(s.drop_last());
    }
    let rest = s.skip(leading_space(s) as int);
    lemma_trailing_fits(rest);
}

/// The white space at the end is no longer than the text.
pub proof fn lemma_trailing_fits(s: Seq<char>)
    ensures
        trailing_space(s) <= s.len(),
    decreases s.len(),
{
    if s.len() > 0 {
        lemma_trailing_fits(s.drop_last());
    }
}

fn trim(text: &Vec<char>) -> (r: Vec<char>)
    ensures
        r@ == trimmed(text@),
{
    let mut from: usize = 0;
    assert(text@.skip(0) =~= text@);
    while from < text.len() && is_space(text[from])
        invariant
            from <= text.len(),
            leading_space(text@) == from + leading_space(text@.skip(from as int)),
        decreases text.len() - from,
    {
        proof {
            let rest = text@.skip(from as int);
            assert(rest[0] == text@[from as int]);
            assert(rest.drop_first() =~= text@.skip(from + 1));
        }
        from += 1;
    }
    proof {
        let rest = text@.skip(from as int);
        if from < text.len() {
            assert(rest[0] == text@[from as int]);
        }
        assert(leading_space(rest) == 0);
    }
    let ghost rest = text@.skip(from as int);
    let mut to: usize = text.len();
    assert(rest.take(text.len() - from) =~= rest);
    while to > from && is_space(text[to - 1])
        invariant
            from <= to <= text.len(),
            rest == text@.skip(from as int),
            trailing_space(rest) == (text.len() - to) + trailing_space(rest.take(to - from)),
        decreases to,
    {
        proof {
            let part = rest.take(to - from);
            assert(part.last() == text@[to - 1]);
            assert(part.drop_last() =~= rest.take(to - 1 - from));
        }
        to -= 1;
    }
    proof {
        let part = rest.take(to - from);
        if to > from {
            assert(part.last() == text@[to - 1]);
        }
        assert(trailing_space(part) == 0);
        assert(rest.take(rest.len() - trailing_space(rest)) =~= text@.subrange(
            from as int,
            to as int,
        ));
    }
    slice_of(text, from, to)
}

/// The position of the first opening angle bracket in `s`, or the length
/// of `s` where it has none.
pub open spec fn first_bracket(s: Seq<char>) -> int
    decreases s.len(),
{
    if s.len() == 0 || s[0] == '<' {
        0
    } else {
        1 + first_bracket(s.drop_first())
    }
}

/// The position at which the last segment of the path `s` begins: behind
/// the last `::`, or zero where the path has none.
pub open spec fn segment_start(s: Seq<char>) -> int
    decreases s.len(),
{
    if s.len() < 2 {
        0
    } else if s[s.len() - 2] == ':' && s[s.len() - 1] == ':' {
        s.len() as int
    } else {
        segment_start(s.drop_last())
    }
}

/// The last segment of the path `s`.
pub open spec fn last_segment(s: Seq<char>) -> Seq<char> {
    s.skip(segment_start(s))
}

/// The short name of the type `s`: the last segment of its path; where the
/// type has arguments, the short names of the arguments follow in angle
/// brackets, with a comma and a space between them.
pub open spec fn short_name(s: Seq<char>) -> Seq<char>
    decreases s.len(), 2nat, 0nat,
{
    let k = first_bracket(s);
    let name = last_segment(s.take(k));
    if 0 <= k < s.len() {
        with_arguments(name, s.skip(k))
    } else {
        name
    }
}

/// The name `name` with the arguments that `generics` lists, each by its
/// short name. `generics` begins with the opening angle bracket; what
/// follows the matching closing one is left out. Where the brackets do not
/// match, the name stands alone.
pub open spec fn with_arguments(name: Seq<char>, generics: Seq<char>) -> Seq<char>
    decreases generics.len(), 1nat, 0nat,
{
    if generics.len() < 2 || generics[0] != '<' {
        name
    } else {
        match matching_bracket(generics.skip(1)) {
            Some(end) => if 0 <= end < generics.len() - 1 {
                let arguments = top_level_arguments(generics.skip(1).take(end));
                name + seq!['<'] + short_names(arguments, arguments.len(), generics.len())
                    + seq!['>']
            } else {
                name
            },
            None => name,
        }
    }
}

/// The short names of the first `n` of `arguments`, with a comma and a
/// space between them. Every argument is shorter than `limit`.
pub open spec fn short_names(arguments: Seq<Seq<char>>, n: nat, limit: nat) -> Seq<char>
    decreases limit, 0nat, n,
{
    if n == 0 || n > arguments.len() {
        Seq::empty()
    } else {
        let argument = trimmed(arguments[n - 1]);
        let last = if argument.len() < limit {
            short_name(argument)
        } else {
            argument
        };
        if n == 1 {
            last
        } else {
            short_names(arguments, (n - 1) as nat, limit) + seq![',', ' '] + last
        }
    }
}

fn first_bracket_in(text: &Vec<char>) -> (r: usize)
    ensures
        r == first_bracket(text@),
        r <= text.len(),
{
    let mut i: usize = 0;
    assert(text@.skip(0) =~= text@);
    while i < text.len() && text[i] != '<'
        invariant
            i <= text.len(),
            first_bracket(text@) == i + first_bracket(text@.skip(i as int)),
        decreases text.len() - i,
    {
        proof {
            let rest = text@.skip(i as int);
            assert(rest[0] == text@[i as int]);
            assert(rest.drop_first() =~= text@.skip(i + 1));
        }
        i += 1;
    }
    proof {
        let rest = text@.skip(i as int);
        if i < text.len() {
            assert(rest[0] == text@[i as int]);
        }
    }
    i
}

fn segment_start_in(text: &Vec<char>) -> (r: usize)
    ensures
        r == segment_start(text@),
        r <= text.len(),
{
    let mut n: usize = text.len();
    assert(text@.take(text.len() as int) =~= text@);
    while n >= 2 && !(text[n - 2] == ':' && text[n - 1] == ':')
        invariant
            n <= text.len(),
            segment_start(text@) == segment_start(text@.take(n as int)),
        decreases n,
    {
        proof {
            let part = text@.take(n as int);
            assert(part[part.len() - 2] == text@[n - 2]);
            assert(part[part.len() - 1] == text@[n - 1]);
            assert(part.drop_last() =~= text@.take(n - 1));
        }
        n -= 1;
    }
    proof {
        let part = text@.take(n as int);
        assert(text@.take(text.len() as int) =~= text@);
        if n >= 2 {
            assert(part[part.len() - 2] == text@[n - 2]);
            assert(part[part.len() - 1] == text@[n - 1]);
        }
    }
    if n >= 2 {
        n
    } else {
        0
    }
}

fn short_name_of(text: &Vec<char>) -> (r: Vec<char>)
    ensures
        r@ == short_name(text@),
    decreases text.len(), 2nat,
{
    let k = first_bracket_in(text);
    let base = slice_of(text, 0, k);
    assert(base@ =~= text@.take(k as int));
    let from = segment_start_in(&base);
    let name = slice_of(&base, from, base.len());
    assert(name@ =~= last_segment(text@.take(k as int)));
    if k < text.len() {
        let generics = slice_of(text, k, text.len());
        assert(generics@ =~= text@.skip(k as int));
        with_arguments_of(&name, &generics)
    } else {
        name
    }
}

#[verifier::loop_isolation(false)]
fn with_arguments_of(name: &Vec<char>, generics: &Vec<char>) -> (r: Vec<char>)
    ensures
        r@ == with_arguments(name@, generics@),
    decreases generics.len(), 1nat,
{
    if generics.len() < 2 || generics[0] != '<' {
        return slice_of(name, 0, name.len());
    }
    let inner = slice_of(generics, 1, generics.len());
    assert(inner@ =~= generics@.skip(1));
    let end = match matching_in(&inner) {
        Some(end) => end,
        None => {
            assert(name@.subrange(0, name.len() as int) =~= name@);
            return slice_of(name, 0, name.len());
        },
    };
    let content = slice_of(&inner, 0, end);
    assert(content@ =~= generics@.skip(1).take(end as int));
    let ranges = arguments_in(&content);
    let ghost arguments = top_level_arguments(content@);
    proof {
        lemma_arguments_fit(content@, 0, 0, 0);
    }
    let mut out = slice_of(name, 0, name.len());
    assert(out@ =~= name@);
    out.push('<');
    let ghost start = out@;
    let mut i: usize = 0;
    while i < ranges.len()
        invariant
            i <= ranges.len(),
            out@ == start + short_names(arguments, i as nat, generics.len() as nat),
        decreases ranges.len() - i,
    {
        let (from, to) = ranges[i];
        let argument = slice_of(&content, from, to);
        let argument = trim(&argument);
        proof {
            lemma_space_fits(arguments[i as int]);
            assert(argument@ == trimmed(arguments[i as int]));
            assert(arguments[i as int].len() <= content.len());
            assert(argument.len() < generics.len());
        }
        let shown = short_name_of(&argument);
        if i > 0 {
            out.push(',');
            out.push(' ');
        }
        let ghost before = out@;
        push_chars(&mut out, &shown);
        proof {
            assert(out@ =~= start + short_names(arguments, (i + 1) as nat, generics.len() as nat));
        }
        i += 1;
    }
    out.push('>');
    assert(out@ =~= with_arguments(name@, generics@));
    out
}

/// The name `name` with the arguments that `generic_part` lists, each
/// by its short name.
pub fn process_generic_part(name: &str, generic_part: &str) -> (r: String)
    ensures
        r@ == with_arguments(name@, generic_part@),
{
    let name = chars_of(name);
    let generics = chars_of(generic_part);
    string_of(&with_arguments_of(&name, &generics))
}

/// The short name of the type `full_path`: the last segment of its path,
/// and in angle brackets the short names of its arguments.
pub fn get_short_type_name(full_path: &str) -> (r: String)
    ensures
        r@ == short_name(full_path@),
{
    string_of(&short_name_of(&chars_of(full_path)))
}

/// Every argument between the brackets of `generics` is shorter than
/// `generics`, so the short name of each is taken: with `generics` as the
/// limit, [`short_names`] leaves no argument as it is for its length.
pub proof fn lemma_arguments_are_shorter(generics: Seq<char>, end: int)
    requires
        generics.len() >= 2,
        0 <= end < generics.len() - 1,
    ensures
        forall|i: int|
            0 <= i < top_level_arguments(generics.skip(1).take(end)).len() ==> trimmed(
                #[trigger] top_level_arguments(generics.skip(1).take(end))[i],
            ).len() < generics.len(),
{
    let content = generics.skip(1).take(end);
    let arguments = top_level_arguments(content);
    lemma_arguments_fit(content, 0, 0, 0);
    assert forall|i: int| 0 <= i < arguments.len() implies trimmed(#[trigger] arguments[i]).len()
        < generics.len() by {
        lemma_space_fits(arguments[i]);
    }
}

/// In a path without angle brackets the short name is the last segment.
pub proof fn lemma_short_name_plain(s: Seq<char>)
    requires
        forall|i: int| 0 <= i < s.len() ==> s[i] != '<',
    ensures
        short_name(s) == last_segment(s),
{
    lemma_no_bracket(s);
    assert(s.take(s.len() as int) =~= s);
}

/// A text without an opening angle bracket has its first bracket at its
/// end.
pub proof fn lemma_no_bracket(s: Seq<char>)
    requires
        forall|i: int| 0 <= i < s.len() ==> s[i] != '<',
    ensures
        first_bracket(s) == s.len(),
    decreases s.len(),
{
    if s.len() > 0 {
        assert forall|i: int| 0 <= i < s.drop_first().len() implies s.drop_first()[i] != '<' by {
            assert(s.drop_first()[i] == s[i + 1]);
        }
        lemma_no_bracket(s.drop_first());
    }
}

} // verus!
