//! Questions about algorithm names and lists of them.

use vstd::prelude::*;
use vstd::string::*;

verus! {

/// A list of strings as the sequence of their character sequences.
pub open spec fn names(list: Seq<String>) -> Seq<Seq<char>> {
    list.map_values(|name: String| name@)
}

/// Some entry of `list` ends in `suffix`.
pub open spec fn some_ends_with(list: Seq<Seq<char>>, suffix: Seq<char>) -> bool {
    exists|i: int| 0 <= i < list.len() && suffix.is_suffix_of(#[trigger] list[i])
}

/// Whether `name` occurs in `list`.
pub fn contains_name(list: &Vec<String>, name: &str) -> (found: bool)
    ensures
        found == names(list@).contains(name@),
{
    let wanted = String::from_str(name);
    let mut i: usize = 0;
    while i < list.len()
        invariant
            i <= list.len(),
            wanted@ == name@,
            forall|j: int| 0 <= j < i ==> names(list@)[j] != name@,
        decreases list.len() - i,
    {
        if list[i] == wanted {
            assert(names(list@)[i as int] == name@);
            return true;
        }
        i += 1;
    }
    false
}

/// Whether `name` ends in `suffix`, compared character by character.
pub fn has_suffix(name: &str, suffix: &str) -> (found: bool)
    ensures
        found == suffix@.is_suffix_of(name@),
{
    let name_len = name.unicode_len();
    let suffix_len = suffix.unicode_len();
    if name_len < suffix_len {
        return false;
    }
    let start = name_len - suffix_len;
    let mut i: usize = 0;
    while i < suffix_len
        invariant
            i <= suffix_len,
            name_len == name@.len(),
            suffix_len == suffix@.len(),
            start == name_len - suffix_len,
            forall|j: int| 0 <= j < i ==> name@[start + j] == suffix@[j],
        decreases suffix_len - i,
    {
        if name.get_char(start + i) != suffix.get_char(i) {
            assert(name@.subrange(start as int, name_len as int)[i as int] != suffix@[i as int]);
            return false;
        }
        i += 1;
    }
    assert(suffix@ =~= name@.subrange(start as int, name_len as int));
    true
}

/// Whether `text` begins with `prefix`, compared character by character.
pub fn has_prefix(text: &str, prefix: &str) -> (found: bool)
    ensures
        found == prefix@.is_prefix_of(text@),
{
    let text_len = text.unicode_len();
    let prefix_len = prefix.unicode_len();
    if text_len < prefix_len {
        return false;
    }
    let mut i: usize = 0;
    while i < prefix_len
        invariant
            i <= prefix_len <= text_len,
            text_len == text@.len(),
            prefix_len == prefix@.len(),
            forall|j: int| 0 <= j < i ==> text@[j] == prefix@[j],
        decreases prefix_len - i,
    {
        if text.get_char(i) != prefix.get_char(i) {
            assert(text@.subrange(0, prefix_len as int)[i as int] != prefix@[i as int]);
            return false;
        }
        i += 1;
    }
    assert(prefix@ =~= text@.subrange(0, prefix_len as int));
    true
}

/// The characters that count as white space: those with the Unicode
/// property `White_Space`.
pub open spec fn is_white_space(c: char) -> bool {
    let code = c as u32;
    ||| 0x09 <= code <= 0x0d
    ||| code == 0x20
    ||| code == 0x85
    ||| code == 0xa0
    ||| code == 0x1680
    ||| 0x2000 <= code <= 0x200a
    ||| code == 0x2028
    ||| code == 0x2029
    ||| code == 0x202f
    ||| code == 0x205f
    ||| code == 0x3000
}

/// `text` without the white space at its end.
pub open spec fn trimmed(text: Seq<char>) -> Seq<char>
    decreases text.len(),
{
    if text.len() > 0 && is_white_space(text.last()) {
        trimmed(text.drop_last())
    } else {
        text
    }
}

/// Whether `c` is white space.
pub fn is_whitespace(c: char) -> (found: bool)
    ensures
        found == is_white_space(c),
{
    let code = c as u32;
    (0x09 <= code && code <= 0x0d) || code == 0x20 || code == 0x85 || code == 0xa0 || code
        == 0x1680 || (0x2000 <= code && code <= 0x200a) || code == 0x2028 || code == 0x2029
        || code == 0x202f || code == 0x205f || code == 0x3000
}

/// A copy of `text` without the white space at its end.
pub fn trim_end(text: &str) -> (result: String)
    ensures
        result@ == trimmed(text@),
{
    let mut end = text.unicode_len();
    assert(text@.take(end as int) =~= text@);
    while end > 0 && is_whitespace(text.get_char(end - 1))
        invariant
            end <= text@.len(),
            trimmed(text@) == trimmed(text@.take(end as int)),
        decreases end,
    {
        assert(text@.take(end as int).drop_last() =~= text@.take(end - 1));
        end -= 1;
    }
    String::from_str(text.substring_char(0, end))
}

/// Whether some entry of `list` ends in `suffix`.
pub fn any_has_suffix(list: &Vec<String>, suffix: &str) -> (found: bool)
    ensures
        found == some_ends_with(names(list@), suffix@),
{
    let mut i: usize = 0;
    while i < list.len()
        invariant
            i <= list.len(),
            forall|j: int| 0 <= j < i ==> !suffix@.is_suffix_of(#[trigger] names(list@)[j]),
        decreases list.len() - i,
    {
        if has_suffix(list[i].as_str(), suffix) {
            assert(suffix@.is_suffix_of(names(list@)[i as int]));
            return true;
        }
        i += 1;
    }
    false
}

} // verus!
