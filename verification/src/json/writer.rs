//! Writing the text of an envelope.

use vstd::prelude::*;
use crate::hex::digit;
use crate::json::layout::{
    escaped, escaped_from, items_from, line_start, list_text, member_indent, member_text, quoted,
    Field, Member,
};
use crate::text::{chars_of, views};

verus! {

fn write_escaped(out: &mut String, c: char)
    ensures
        final(out)@ == old(out)@ + escaped(c),
{
    let u = c as u32;
    if u == 0x22 {
        out.push('\\');
        out.push('"');
    } else if u == 0x5c {
        out.push('\\');
        out.push('\\');
    } else if u == 0x08 {
        out.push('\\');
        out.push('b');
    } else if u == 0x09 {
        out.push('\\');
        out.push('t');
    } else if u == 0x0a {
        out.push('\\');
        out.push('n');
    } else if u == 0x0c {
        out.push('\\');
        out.push('f');
    } else if u == 0x0d {
        out.push('\\');
        out.push('r');
    } else if u < 0x20 {
        out.push('\\');
        out.push('u');
        out.push('0');
        out.push('0');
        out.push(digit((u / 16) as u8));
        out.push(digit((u % 16) as u8));
    } else {
        out.push(c);
    }
}

/// Appends the string literal for `s`.
pub fn write_quoted(out: &mut String, s: &str)
    ensures
        final(out)@ == old(out)@ + quoted(s@),
{
    let chars = chars_of(s);
    out.push('"');
    let mut i: usize = 0;
    while i < chars.len()
        invariant
            i <= chars.len(),
            chars@ == s@,
            out@ + escaped_from(s@, i as int) == old(out)@ + seq!['"'] + escaped_from(s@, 0),
        decreases chars.len() - i,
    {
        write_escaped(out, chars[i]);
        i = i + 1;
    }
    out.push('"');
}

fn write_line_start(out: &mut String, first: bool, indent: &str)
    ensures
        final(out)@ == old(out)@ + line_start(first, indent@),
{
    if !first {
        out.push(',');
    }
    out.push('\n');
    out.append(indent);
}

/// Appends a list of strings as the value of a member.
pub fn write_list(out: &mut String, items: &Vec<String>)
    ensures
        final(out)@ == old(out)@ + list_text(views(items@)),
{
    let ghost texts = views(items@);
    out.push('[');
    if items.len() == 0 {
        out.push(']');
        return;
    }
    let mut i: usize = 0;
    while i < items.len()
        invariant
            i <= items.len(),
            texts == views(items@),
            out@ + items_from(texts, i as int) == old(out)@ + seq!['['] + items_from(texts, 0),
        decreases items.len() - i,
    {
        proof {
            reveal_strlit("    ");
        }
        write_line_start(out, i == 0, "    ");
        write_quoted(out, items[i].as_str());
        i = i + 1;
    }
    out.push('\n');
    out.push(' ');
    out.push(' ');
    out.push(']');
}

/// Appends the start of a member: line break, indentation, key, colon.
fn write_key(out: &mut String, first: bool, key: &str)
    ensures
        final(out)@ == old(out)@ + line_start(first, member_indent()) + quoted(key@) + seq![
            ':',
            ' ',
        ],
{
    proof {
        reveal_strlit("  ");
    }
    write_line_start(out, first, "  ");
    write_quoted(out, key);
    out.push(':');
    out.push(' ');
}

/// Appends a member that holds a string.
pub fn write_text_member(out: &mut String, first: bool, key: &str, value: &str)
    ensures
        final(out)@ == old(out)@ + member_text(
            first,
            Member { key: key@, value: Field::Text(value@) },
        ),
{
    write_key(out, first, key);
    write_quoted(out, value);
}

/// Appends a member that holds a list of strings.
pub fn write_list_member(out: &mut String, first: bool, key: &str, items: &Vec<String>)
    ensures
        final(out)@ == old(out)@ + member_text(
            first,
            Member { key: key@, value: Field::List(views(items@)) },
        ),
{
    write_key(out, first, key);
    write_list(out, items);
}

} // verus!
