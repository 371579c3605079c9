//! How an envelope is laid out as text: one member per line, indented by two
//! spaces, the items of a list one per line, indented by four.

use vstd::prelude::*;
use crate::hex::digit_char;

verus! {

/// What a member of an envelope holds.
pub enum Field {
    Text(Seq<char>),
    List(Seq<Seq<char>>),
}

/// A member of an envelope: a key and what it holds.
pub struct Member {
    pub key: Seq<char>,
    pub value: Field,
}

/// How one character of a string appears between the quotes: the quote and
/// the backslash behind a backslash, the control characters below the space
/// by their short escape where there is one and as `\u00` and two lowercase
/// hexadecimal digits where there is none, every other character as itself.
pub open spec fn escaped(c: char) -> Seq<char> {
    let u = c as u32;
    if u == 0x22 {
        seq!['\\', '"']
    } else if u == 0x5c {
        seq!['\\', '\\']
    } else if u == 0x08 {
        seq!['\\', 'b']
    } else if u == 0x09 {
        seq!['\\', 't']
    } else if u == 0x0a {
        seq!['\\', 'n']
    } else if u == 0x0c {
        seq!['\\', 'f']
    } else if u == 0x0d {
        seq!['\\', 'r']
    } else if u < 0x20 {
        seq!['\\', 'u', '0', '0', digit_char((u / 16) as nat), digit_char((u % 16) as nat)]
    } else {
        seq![c]
    }
}

/// The characters of `s` from index `from` on, each as it appears between
/// the quotes.
pub open spec fn escaped_from(s: Seq<char>, from: int) -> Seq<char>
    decreases s.len() - from,
{
    if from < 0 || from >= s.len() {
        Seq::empty()
    } else {
        escaped(s[from]) + escaped_from(s, from + 1)
    }
}

/// The string literal for `s`.
pub open spec fn quoted(s: Seq<char>) -> Seq<char> {
    seq!['"'] + escaped_from(s, 0) + seq!['"']
}

/// What stands before an item of a list or a member of an object: a line
/// break, after a comma unless the item is the first, and the indentation.
pub open spec fn line_start(first: bool, indent: Seq<char>) -> Seq<char> {
    if first {
        seq!['\n'] + indent
    } else {
        seq![',', '\n'] + indent
    }
}

/// The indentation of an item of a list: four spaces.
pub open spec fn item_indent() -> Seq<char> {
    seq![' ', ' ', ' ', ' ']
}

/// The indentation of a member of an object: two spaces.
pub open spec fn member_indent() -> Seq<char> {
    seq![' ', ' ']
}

/// The items of a list from index `from` on, each on a line of its own.
pub open spec fn items_from(items: Seq<Seq<char>>, from: int) -> Seq<char>
    decreases items.len() - from,
{
    if from < 0 || from >= items.len() {
        Seq::empty()
    } else {
        line_start(from == 0, item_indent()) + quoted(items[from]) + items_from(items, from + 1)
    }
}

/// A list of strings as the value of a member.
pub open spec fn list_text(items: Seq<Seq<char>>) -> Seq<char> {
    if items.len() == 0 {
        seq!['[', ']']
    } else {
        seq!['['] + items_from(items, 0) + seq!['\n', ' ', ' ', ']']
    }
}

/// The text of what a member holds.
pub open spec fn field_text(value: Field) -> Seq<char> {
    match value {
        Field::Text(s) => quoted(s),
        Field::List(items) => list_text(items),
    }
}

/// One member on its line: key, colon, space, value.
pub open spec fn member_text(first: bool, member: Member) -> Seq<char> {
    line_start(first, member_indent()) + quoted(member.key) + seq![':', ' '] + field_text(
        member.value,
    )
}

/// The members of an object from index `from` on.
pub open spec fn members_from(members: Seq<Member>, from: int) -> Seq<char>
    decreases members.len() - from,
{
    if from < 0 || from >= members.len() {
        Seq::empty()
    } else {
        member_text(from == 0, members[from]) + members_from(members, from + 1)
    }
}

/// The text of the object that holds `members`, in their order.
pub open spec fn object_text(members: Seq<Member>) -> Seq<char> {
    if members.len() == 0 {
        seq!['{', '}']
    } else {
        seq!['{'] + members_from(members, 0) + seq!['\n', '}']
    }
}

} // verus!
