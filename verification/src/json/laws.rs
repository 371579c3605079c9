//! What is written is read back: a string, a list of strings and an object
//! are read from their text as what they were written from.

use vstd::prelude::*;
use crate::hex::{digit_char, digit_value};
use crate::json::grammar::{
    document, entries_tail, escape_at, field_at, has_at, hex4, is_space, list_at, list_tail,
    object_at, skip_space, string_at, string_tail, unicode_escape_at, Entry,
};
use crate::json::layout::{
    escaped, escaped_from, field_text, item_indent, items_from, line_start, list_text,
    member_indent, member_text, members_from, object_text, quoted, Field, Member,
};

verus! {

/// The members as they are read back: each with its value.
pub open spec fn as_entries(members: Seq<Member>) -> Seq<Entry> {
    Seq::new(members.len(), |i: int| Entry { key: members[i].key, value: Some(members[i].value) })
}

/// A text that holds `a + b` holds `a`, and `b` behind it.
pub proof fn lemma_has_at_split(s: Seq<char>, i: int, a: Seq<char>, b: Seq<char>)
    requires
        has_at(s, i, a + b),
    ensures
        has_at(s, i, a),
        has_at(s, i + a.len(), b),
{
    let t = a + b;
    assert forall|k: int| 0 <= k < a.len() implies s[i + k] == #[trigger] a[k] by {
        assert(t[k] == a[k]);
    }
    assert forall|k: int| 0 <= k < b.len() implies s[i + a.len() + k] == #[trigger] b[k] by {
        assert(t[a.len() + k] == b[k]);
    }
}

/// A text holds itself from its start.
pub proof fn lemma_has_at_self(s: Seq<char>)
    ensures
        has_at(s, 0, s),
{
}

/// White space of `n` characters before a character that is none, or before
/// the end, is skipped whole.
pub proof fn lemma_skip_space_run(s: Seq<char>, i: int, n: nat)
    requires
        0 <= i,
        i + n <= s.len(),
        forall|k: int| i <= k < i + n ==> is_space(#[trigger] s[k]),
        i + n == s.len() || !is_space(s[i + n]),
    ensures
        skip_space(s, i) == i + n,
    decreases n,
{
    if n > 0 {
        assert(is_space(s[i]));
        lemma_skip_space_run(s, i + 1, (n - 1) as nat);
    }
}

proof fn lemma_digit_value(d: nat)
    requires
        d < 16,
    ensures
        digit_value(digit_char(d)) == Some(d),
{
}

/// One character is read back from its escaped form.
proof fn lemma_escaped_char_read(s: Seq<char>, p: int, c: char)
    requires
        has_at(s, p, escaped(c)),
    ensures
        string_tail(s, p) == match string_tail(s, p + escaped(c).len()) {
            Some((rest, end)) => Some((seq![c] + rest, end)),
            None => None,
        },
{
    let e = escaped(c);
    let u = c as u32;
    vstd::utf8::char_u32_cast(c, u);
    assert(s[p] == e[0]);
    if u == 0x22 || u == 0x5c || u == 0x08 || u == 0x09 || u == 0x0a || u == 0x0c || u == 0x0d {
        assert(s[p + 1] == e[1]);
    } else if u < 0x20 {
        assert(s[p + 1] == e[1]);
        assert(s[p + 2] == e[2]);
        assert(s[p + 3] == e[3]);
        assert(s[p + 4] == e[4]);
        assert(s[p + 5] == e[5]);
        lemma_digit_value(0);
        lemma_digit_value((u / 16) as nat);
        lemma_digit_value((u % 16) as nat);
        assert(digit_char(0) == '0');
        assert(hex4(s, p + 2) == Some(u as nat));
        assert(unicode_escape_at(s, p + 2) == Some((c, p + 6)));
        assert(escape_at(s, p + 1) == Some((c, p + 6)));
    } else {
    }
}

/// The characters of a string from index `from` on are read back from their
/// escaped form and the closing quote.
pub proof fn lemma_string_tail_read(s: Seq<char>, p: int, x: Seq<char>, from: int)
    requires
        0 <= from <= x.len(),
        has_at(s, p, escaped_from(x, from) + seq!['"']),
    ensures
        string_tail(s, p) == Some((x.skip(from), p + escaped_from(x, from).len() + 1)),
    decreases x.len() - from,
{
    let close = seq!['"'];
    if from == x.len() {
        assert((escaped_from(x, from) + close)[0] == '"');
        assert(x.skip(from) =~= Seq::<char>::empty());
    } else {
        let e = escaped(x[from]);
        let rest = escaped_from(x, from + 1) + close;
        assert(escaped_from(x, from) + close =~= e + rest);
        lemma_has_at_split(s, p, e, rest);
        lemma_string_tail_read(s, p + e.len(), x, from + 1);
        lemma_escaped_char_read(s, p, x[from]);
        assert(seq![x[from]] + x.skip(from + 1) =~= x.skip(from));
    }
}

/// A string is read back from its literal.
pub proof fn lemma_quoted_read(s: Seq<char>, p: int, x: Seq<char>)
    requires
        has_at(s, p, quoted(x)),
    ensures
        string_at(s, p) == Some((x, p + quoted(x).len())),
        quoted(x).len() >= 2,
        quoted(x)[0] == '"',
{
    let open = seq!['"'];
    let body = escaped_from(x, 0) + seq!['"'];
    assert(quoted(x) =~= open + body);
    lemma_has_at_split(s, p, open, body);
    assert(s[p] == open[0]);
    lemma_string_tail_read(s, p + 1, x, 0);
    assert(x.skip(0) =~= x);
}

/// The first character of a literal is the quote.
pub proof fn lemma_quoted_first(x: Seq<char>)
    ensures
        quoted(x).len() >= 2,
        quoted(x)[0] == '"',
{
}

spec fn list_close() -> Seq<char> {
    seq!['\n', ' ', ' ', ']']
}

/// The items of a list from index `from` on are read back from their text.
proof fn lemma_list_tail_read(s: Seq<char>, p: int, items: Seq<Seq<char>>, from: int)
    requires
        0 <= from < items.len(),
        has_at(s, p, quoted(items[from]) + items_from(items, from + 1) + list_close()),
    ensures
        list_tail(s, p) == Some(
            (
                items.skip(from),
                p + (quoted(items[from]) + items_from(items, from + 1) + list_close()).len(),
            ),
        ),
    decreases items.len() - from,
{
    let q = quoted(items[from]);
    let following = items_from(items, from + 1);
    lemma_has_at_split(s, p, q + following, list_close());
    lemma_has_at_split(s, p, q, following);
    lemma_quoted_read(s, p, items[from]);
    let j = p + q.len();
    if from + 1 == items.len() {
        assert(following =~= Seq::<char>::empty());
        let c = list_close();
        assert(s[j] == c[0] && s[j + 1] == c[1] && s[j + 2] == c[2] && s[j + 3] == c[3]);
        lemma_skip_space_run(s, j, 3);
        assert(items.skip(from) =~= seq![items[from]]);
    } else {
        let start = line_start(false, item_indent());
        let next = quoted(items[from + 1]);
        let after = items_from(items, from + 2);
        assert(following =~= start + next + after);
        assert(has_at(s, j, start + next + after));
        lemma_has_at_split(s, j, start + next, after);
        lemma_has_at_split(s, j, start, next);
        assert(s[j] == start[0] && s[j + 1] == start[1] && s[j + 2] == start[2] && s[j + 3]
            == start[3] && s[j + 4] == start[4] && s[j + 5] == start[5]);
        lemma_quoted_first(items[from + 1]);
        assert(s[j + 6] == next[0]);
        lemma_skip_space_run(s, j, 0);
        lemma_skip_space_run(s, j + 1, 5);
        assert forall|k: int| 0 <= k < (next + after + list_close()).len() implies s[j + 6 + k]
            == #[trigger] (next + after + list_close())[k] by {
            let whole = q + following + list_close();
            assert(whole[q.len() + 6 + k] == (next + after + list_close())[k]);
        }
        lemma_list_tail_read(s, j + 6, items, from + 1);
        assert(seq![items[from]] + items.skip(from + 1) =~= items.skip(from));
    }
}

/// A list of strings is read back from its text.
pub proof fn lemma_list_read(s: Seq<char>, p: int, items: Seq<Seq<char>>)
    requires
        has_at(s, p, list_text(items)),
    ensures
        list_at(s, p) == Some((items, p + list_text(items).len())),
        string_at(s, p) is None,
        list_text(items).len() >= 2,
        list_text(items)[0] == '[',
{
    let t = list_text(items);
    assert(s[p] == t[0]);
    if items.len() == 0 {
        assert(s[p + 1] == t[1]);
        lemma_skip_space_run(s, p + 1, 0);
        assert(items =~= Seq::<Seq<char>>::empty());
    } else {
        let start = line_start(true, item_indent());
        let first = quoted(items[0]);
        let after = items_from(items, 1);
        let tail = first + after + list_close();
        assert(t =~= seq!['['] + start + tail);
        lemma_has_at_split(s, p, seq!['['] + start, tail);
        lemma_has_at_split(s, p, seq!['['], start);
        assert(s[p + 1] == start[0] && s[p + 2] == start[1] && s[p + 3] == start[2] && s[p + 4]
            == start[3] && s[p + 5] == start[4]);
        lemma_quoted_first(items[0]);
        assert(s[p + 6] == tail[0]);
        lemma_skip_space_run(s, p + 1, 5);
        lemma_list_tail_read(s, p + 6, items, 0);
        assert(items.skip(0) =~= items);
    }
}

/// The value of a member is read back from its text.
pub proof fn lemma_field_read(s: Seq<char>, p: int, value: Field)
    requires
        has_at(s, p, field_text(value)),
    ensures
        field_at(s, p) == Some((Some(value), p + field_text(value).len())),
        field_text(value).len() >= 2,
        !is_space(field_text(value)[0]),
{
    match value {
        Field::Text(text) => {
            lemma_quoted_read(s, p, text);
        },
        Field::List(items) => {
            lemma_list_read(s, p, items);
        },
    }
}

spec fn object_close() -> Seq<char> {
    seq!['\n', '}']
}

spec fn colon() -> Seq<char> {
    seq![':', ' ']
}

/// A member without what stands before its key.
spec fn member_body(member: Member) -> Seq<char> {
    quoted(member.key) + colon() + field_text(member.value)
}

/// The members of an object from index `from` on are read back from their
/// text.
proof fn lemma_entries_tail_read(s: Seq<char>, p: int, members: Seq<Member>, from: int)
    requires
        0 <= from < members.len(),
        has_at(s, p, member_body(members[from]) + members_from(members, from + 1) + object_close()),
    ensures
        entries_tail(s, p) == Some(
            (
                as_entries(members).skip(from),
                p + (member_body(members[from]) + members_from(members, from + 1)
                    + object_close()).len(),
            ),
        ),
    decreases members.len() - from,
{
    let m = members[from];
    let key = quoted(m.key);
    let value = field_text(m.value);
    let body = member_body(m);
    let following = members_from(members, from + 1);
    let whole = body + following + object_close();
    lemma_has_at_split(s, p, body + following, object_close());
    lemma_has_at_split(s, p, body, following);
    lemma_has_at_split(s, p, key + colon(), value);
    lemma_has_at_split(s, p, key, colon());
    lemma_quoted_read(s, p, m.key);
    let j = p + key.len();
    let c = colon();
    assert(s[j] == c[0] && s[j + 1] == c[1]);
    lemma_field_read(s, j + 2, m.value);
    assert(s[j + 2] == value[0]);
    lemma_skip_space_run(s, j, 0);
    lemma_skip_space_run(s, j + 1, 1);
    let e = j + 2 + value.len();
    assert(e == p + body.len());
    let entry = Entry { key: m.key, value: Some(m.value) };
    assert(as_entries(members)[from] == entry);
    if from + 1 == members.len() {
        assert(following =~= Seq::<char>::empty());
        let close = object_close();
        assert(s[e] == close[0] && s[e + 1] == close[1]);
        lemma_skip_space_run(s, e, 1);
        assert(as_entries(members).skip(from) =~= seq![entry]);
    } else {
        let start = line_start(false, member_indent());
        let next = member_body(members[from + 1]);
        let after = members_from(members, from + 2);
        assert(member_text(false, members[from + 1]) =~= start + next);
        assert(following =~= start + next + after);
        assert(has_at(s, e, start + next + after));
        lemma_has_at_split(s, e, start + next, after);
        lemma_has_at_split(s, e, start, next);
        assert(s[e] == start[0] && s[e + 1] == start[1] && s[e + 2] == start[2] && s[e + 3]
            == start[3]);
        lemma_quoted_first(members[from + 1].key);
        assert(next[0] == '"');
        assert(s[e + 4] == next[0]);
        lemma_skip_space_run(s, e, 0);
        lemma_skip_space_run(s, e + 1, 3);
        assert forall|k: int| 0 <= k < (next + after + object_close()).len() implies s[e + 4 + k]
            == #[trigger] (next + after + object_close())[k] by {
            assert(whole[body.len() + 4 + k] == (next + after + object_close())[k]);
        }
        lemma_entries_tail_read(s, e + 4, members, from + 1);
        assert(seq![entry] + as_entries(members).skip(from + 1) =~= as_entries(members).skip(
            from,
        ));
    }
}

/// The text of an object with a member starts with the brace and the first
/// member's line start; the members' bodies and the closing brace follow.
proof fn lemma_object_text_parts(members: Seq<Member>)
    requires
        members.len() > 0,
    ensures
        object_text(members) == seq!['{', '\n', ' ', ' '] + (member_body(members[0])
            + members_from(members, 1) + object_close()),
{
    let start = line_start(true, member_indent());
    let first = member_body(members[0]);
    let after = members_from(members, 1);
    assert(start =~= seq!['\n', ' ', ' ']);
    assert(member_text(true, members[0]) =~= start + first);
    assert(members_from(members, 0) =~= start + first + after);
    assert(object_text(members) =~= seq!['{', '\n', ' ', ' '] + (first + after + object_close()));
}

/// An object is read back from its text, wherever the text stands.
pub proof fn lemma_object_at_read(s: Seq<char>, p: int, members: Seq<Member>)
    requires
        has_at(s, p, object_text(members)),
    ensures
        object_at(s, p) == Some((as_entries(members), p + object_text(members).len())),
{
    let t = object_text(members);
    if members.len() == 0 {
        assert(s[p] == t[0] && s[p + 1] == t[1]);
        lemma_skip_space_run(s, p + 1, 0);
        assert(as_entries(members) =~= Seq::<Entry>::empty());
    } else {
        let head = seq!['{', '\n', ' ', ' '];
        let tail = member_body(members[0]) + members_from(members, 1) + object_close();
        lemma_object_text_parts(members);
        lemma_has_at_split(s, p, head, tail);
        assert(s[p] == head[0] && s[p + 1] == head[1] && s[p + 2] == head[2] && s[p + 3]
            == head[3]);
        lemma_quoted_first(members[0].key);
        assert(tail[0] == quoted(members[0].key)[0]);
        assert(s[p + 4] == tail[0]);
        lemma_skip_space_run(s, p + 1, 3);
        lemma_entries_tail_read(s, p + 4, members, 0);
        assert(as_entries(members).skip(0) =~= as_entries(members));
    }
}

/// An object is read back from its text: the same members, in the same
/// order, each with its value.
pub proof fn lemma_object_read(members: Seq<Member>)
    ensures
        document(object_text(members)) == Some(as_entries(members)),
{
    let s = object_text(members);
    lemma_has_at_self(s);
    lemma_object_at_read(s, 0, members);
    lemma_skip_space_run(s, 0, 0);
    lemma_skip_space_run(s, s.len() as int, 0);
}

} // verus!
