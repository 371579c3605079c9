//! Reading the text of an envelope.

use vstd::prelude::*;
use crate::hex::value_of;
use crate::json::grammar;
use crate::json::grammar::{
    at, document, elements_rest, entries_tail, escape_at, field_at, hex4, is_digit, list_at,
    list_tail, number_end, object_at, pairs_rest, passed_key_end, passed_string_tail, string_at,
    string_tail, unicode_escape_at, value_end, word_end, Entry,
};
use crate::json::layout::Field;
use crate::text::{chars_of, lemma_views_push, views};

verus! {

/// What a member holds that was read for its content.
#[derive(Debug, PartialEq, Eq)]
pub enum Value {
    Text(String),
    List(Vec<String>),
}

/// A member of an object that was read: its key and, where the value is a
/// string or a list of strings, what it holds.
#[derive(Debug, PartialEq, Eq)]
pub struct Pair {
    pub key: String,
    pub value: Option<Value>,
}

impl View for Value {
    type V = Field;

    open spec fn view(&self) -> Field {
        match self {
            Value::Text(s) => Field::Text(s@),
            Value::List(items) => Field::List(views(items@)),
        }
    }
}

impl View for Pair {
    type V = Entry;

    open spec fn view(&self) -> Entry {
        Entry {
            key: self.key@,
            value: match self.value {
                Some(v) => Some(v@),
                None => None,
            },
        }
    }
}

/// The members that a list of pairs stands for.
pub open spec fn entries(pairs: Seq<Pair>) -> Seq<Entry> {
    Seq::new(pairs.len(), |i: int| pairs[i]@)
}

fn skip_space(s: &Vec<char>, i: usize) -> (j: usize)
    requires
        i <= s.len(),
    ensures
        j == grammar::skip_space(s@, i as int),
        i <= j <= s.len(),
{
    let mut j: usize = i;
    while j < s.len() && (s[j] == ' ' || s[j] == '\n' || s[j] == '\r' || s[j] == '\t')
        invariant
            i <= j <= s.len(),
            grammar::skip_space(s@, i as int) == grammar::skip_space(s@, j as int),
        decreases s.len() - j,
    {
        j = j + 1;
    }
    j
}

fn digit_at(s: &Vec<char>, i: usize) -> (b: bool)
    ensures
        b == (0 <= i < s.len() && is_digit(s[i as int])),
{
    i < s.len() && 48 <= s[i] as u32 && s[i] as u32 <= 57
}

fn skip_digits(s: &Vec<char>, i: usize) -> (j: usize)
    requires
        i <= s.len(),
    ensures
        j == grammar::skip_digits(s@, i as int),
        i <= j <= s.len(),
{
    let mut j: usize = i;
    while digit_at(s, j)
        invariant
            i <= j <= s.len(),
            grammar::skip_digits(s@, i as int) == grammar::skip_digits(s@, j as int),
        decreases s.len() - j,
    {
        j = j + 1;
    }
    j
}

fn char_at(s: &Vec<char>, i: usize, c: char) -> (b: bool)
    ensures
        b == at(s@, i as int, c),
{
    i < s.len() && s[i] == c
}

fn read_hex4(s: &Vec<char>, i: usize) -> (r: Option<u32>)
    requires
        i <= s.len(),
    ensures
        match r {
            Some(v) => hex4(s@, i as int) == Some(v as nat) && v < 0x10000,
            None => hex4(s@, i as int) is None,
        },
{
    if s.len() - i < 4 {
        return None;
    }
    match (value_of(s[i]), value_of(s[i + 1]), value_of(s[i + 2]), value_of(s[i + 3])) {
        (Some(a), Some(b), Some(c), Some(d)) => {
            let v: u32 = ((a as u32 * 16 + b as u32) * 16 + c as u32) * 16 + d as u32;
            Some(v)
        },
        _ => None,
    }
}

fn read_unicode_escape(s: &Vec<char>, i: usize) -> (r: Option<(char, usize)>)
    requires
        i <= s.len(),
    ensures
        match r {
            Some((c, end)) => unicode_escape_at(s@, i as int) == Some((c, end as int)) && i < end
                <= s.len(),
            None => unicode_escape_at(s@, i as int) is None,
        },
{
    let unit = match read_hex4(s, i) {
        None => {
            return None;
        },
        Some(unit) => unit,
    };
    if unit < 0xD800 || 0xDFFF < unit {
        match char::from_u32(unit) {
            Some(c) => Some((c, i + 4)),
            None => None,
        }
    } else if unit <= 0xDBFF && char_at(s, i + 4, '\\') && char_at(s, i + 5, 'u') {
        match read_hex4(s, i + 6) {
            Some(low) => {
                if 0xDC00 <= low && low <= 0xDFFF {
                    let code: u32 = 0x10000 + (unit - 0xD800) * 0x400 + (low - 0xDC00);
                    match char::from_u32(code) {
                        Some(c) => Some((c, i + 10)),
                        None => None,
                    }
                } else {
                    None
                }
            },
            None => None,
        }
    } else {
        None
    }
}

fn read_escape(s: &Vec<char>, i: usize) -> (r: Option<(char, usize)>)
    requires
        i <= s.len(),
    ensures
        match r {
            Some((c, end)) => escape_at(s@, i as int) == Some((c, end as int)) && i < end
                <= s.len(),
            None => escape_at(s@, i as int) is None,
        },
{
    if i >= s.len() {
        return None;
    }
    let c = s[i];
    if c == '"' || c == '\\' || c == '/' {
        Some((c, i + 1))
    } else if c == 'b' {
        Some((0x08u8 as char, i + 1))
    } else if c == 't' {
        Some((0x09u8 as char, i + 1))
    } else if c == 'n' {
        Some((0x0au8 as char, i + 1))
    } else if c == 'f' {
        Some((0x0cu8 as char, i + 1))
    } else if c == 'r' {
        Some((0x0du8 as char, i + 1))
    } else if c == 'u' {
        read_unicode_escape(s, i + 1)
    } else {
        None
    }
}

fn read_string_tail(s: &Vec<char>, i: usize) -> (r: Option<(String, usize)>)
    requires
        i <= s.len(),
    ensures
        match r {
            Some((text, end)) => string_tail(s@, i as int) == Some((text@, end as int)) && i < end
                <= s.len(),
            None => string_tail(s@, i as int) is None,
        },
{
    let mut out = String::new();
    let mut j: usize = i;
    loop
        invariant
            i <= j <= s.len(),
            string_tail(s@, i as int) == match string_tail(s@, j as int) {
                Some((rest, end)) => Some((out@ + rest, end)),
                None => None,
            },
        decreases s.len() - j,
    {
        if j >= s.len() {
            return None;
        }
        let c = s[j];
        if c == '"' {
            return Some((out, j + 1));
        } else if c == '\\' {
            match read_escape(s, j + 1) {
                None => {
                    return None;
                },
                Some((decoded, next)) => {
                    out.push(decoded);
                    j = next;
                },
            }
        } else if (c as u32) < 0x20 {
            return None;
        } else {
            out.push(c);
            j = j + 1;
        }
    }
}

/// The string that starts at index `i`.
fn read_string(s: &Vec<char>, i: usize) -> (r: Option<(String, usize)>)
    requires
        i <= s.len(),
    ensures
        match r {
            Some((text, end)) => string_at(s@, i as int) == Some((text@, end as int)) && i < end
                <= s.len(),
            None => string_at(s@, i as int) is None,
        },
{
    if char_at(s, i, '"') {
        read_string_tail(s, i + 1)
    } else {
        None
    }
}

/// The list of strings that starts at index `i`.
fn read_list(s: &Vec<char>, i: usize) -> (r: Option<(Vec<String>, usize)>)
    requires
        i <= s.len(),
    ensures
        match r {
            Some((items, end)) => list_at(s@, i as int) == Some((views(items@), end as int)) && i
                < end <= s.len(),
            None => list_at(s@, i as int) is None,
        },
{
    if !char_at(s, i, '[') {
        return None;
    }
    let first = skip_space(s, i + 1);
    let mut items: Vec<String> = Vec::new();
    if char_at(s, first, ']') {
        return Some((items, first + 1));
    }
    let mut j: usize = first;
    loop
        invariant
            i < j <= s.len(),
            list_at(s@, i as int) == match list_tail(s@, j as int) {
                Some((rest, end)) => Some((views(items@) + rest, end)),
                None => None,
            },
        decreases s.len() - j,
    {
        let ghost before = items@;
        let (item, behind) = match read_string(s, j) {
            None => {
                return None;
            },
            Some(read) => read,
        };
        let k = skip_space(s, behind);
        items.push(item);
        proof {
            lemma_views_push(before, items@.last());
        }
        if char_at(s, k, ']') {
            return Some((items, k + 1));
        } else if char_at(s, k, ',') {
            j = skip_space(s, k + 1);
        } else {
            return None;
        }
    }
}

fn skip_number(s: &Vec<char>, i: usize) -> (r: Option<usize>)
    requires
        i <= s.len(),
    ensures
        match r {
            Some(end) => number_end(s@, i as int) == Some(end as int) && i < end <= s.len(),
            None => number_end(s@, i as int) is None,
        },
{
    let a: usize = if char_at(s, i, '-') {
        i + 1
    } else {
        i
    };
    if !digit_at(s, a) {
        return None;
    }
    let b: usize = if s[a] == '0' {
        a + 1
    } else {
        skip_digits(s, a)
    };
    proof {
        grammar::lemma_number_advances(s@, i as int);
    }
    let c: usize = if char_at(s, b, '.') {
        if digit_at(s, b + 1) {
            skip_digits(s, b + 1)
        } else {
            return None;
        }
    } else {
        b
    };
    if char_at(s, c, 'e') || char_at(s, c, 'E') {
        let d: usize = if char_at(s, c + 1, '+') || char_at(s, c + 1, '-') {
            c + 2
        } else {
            c + 1
        };
        if digit_at(s, d) {
            Some(skip_digits(s, d))
        } else {
            None
        }
    } else {
        Some(c)
    }
}

fn skip_word(s: &Vec<char>, i: usize, word: &Vec<char>) -> (r: Option<usize>)
    requires
        i <= s.len(),
    ensures
        match r {
            Some(end) => word_end(s@, i as int, word@) == Some(end as int) && i <= end <= s.len(),
            None => word_end(s@, i as int, word@) is None,
        },
{
    if s.len() - i < word.len() {
        return None;
    }
    let mut k: usize = 0;
    while k < word.len()
        invariant
            k <= word.len(),
            i + word.len() <= s.len(),
            forall|n: int| 0 <= n < k ==> s@[i + n] == #[trigger] word@[n],
        decreases word.len() - k,
    {
        if s[i + k] != word[k] {
            return None;
        }
        k = k + 1;
    }
    Some(i + word.len())
}

fn skip_string_tail(s: &Vec<char>, i: usize) -> (r: Option<usize>)
    requires
        i <= s.len(),
    ensures
        match r {
            Some(end) => passed_string_tail(s@, i as int) == Some(end as int) && i < end
                <= s.len(),
            None => passed_string_tail(s@, i as int) is None,
        },
{
    let mut j: usize = i;
    loop
        invariant
            i <= j <= s.len(),
            passed_string_tail(s@, i as int) == passed_string_tail(s@, j as int),
        decreases s.len() - j,
    {
        if j >= s.len() {
            return None;
        }
        let c = s[j];
        if c == '"' {
            return Some(j + 1);
        } else if c == '\\' {
            if j + 1 >= s.len() {
                return None;
            }
            let e = s[j + 1];
            if e == '"' || e == '\\' || e == '/' || e == 'b' || e == 't' || e == 'n' || e == 'f'
                || e == 'r' {
                j = j + 2;
            } else if e == 'u' {
                match read_hex4(s, j + 2) {
                    Some(_) => {
                        j = j + 6;
                    },
                    None => {
                        return None;
                    },
                }
            } else {
                return None;
            }
        } else if (c as u32) < 0x20 {
            return None;
        } else {
            j = j + 1;
        }
    }
}

/// Passes over the key of a member, the colon and the white space around
/// it.
fn skip_key(s: &Vec<char>, i: usize) -> (r: Option<usize>)
    requires
        i <= s.len(),
    ensures
        match r {
            Some(end) => passed_key_end(s@, i as int) == Some(end as int) && i < end <= s.len(),
            None => passed_key_end(s@, i as int) is None,
        },
{
    if !char_at(s, i, '"') {
        return None;
    }
    let behind = match skip_string_tail(s, i + 1) {
        None => {
            return None;
        },
        Some(behind) => behind,
    };
    let colon = skip_space(s, behind);
    if char_at(s, colon, ':') {
        Some(skip_space(s, colon + 1))
    } else {
        None
    }
}

/// Where the value ends that is neither an array nor an object and starts
/// at index `i`.
fn skip_scalar(s: &Vec<char>, i: usize) -> (r: Option<usize>)
    requires
        i < s.len(),
        s[i as int] != '[',
        s[i as int] != '{',
    ensures
        match r {
            Some(end) => value_end(s@, i as int) == Some(end as int) && i < end <= s.len(),
            None => value_end(s@, i as int) is None,
        },
{
    proof {
        grammar::lemma_value_advances(s@, i as int);
    }
    let c = s[i];
    if c == '"' {
        skip_string_tail(s, i + 1)
    } else if c == 't' {
        let word = vec!['t', 'r', 'u', 'e'];
        skip_word(s, i, &word)
    } else if c == 'f' {
        let word = vec!['f', 'a', 'l', 's', 'e'];
        skip_word(s, i, &word)
    } else if c == 'n' {
        let word = vec!['n', 'u', 'l', 'l'];
        skip_word(s, i, &word)
    } else {
        skip_number(s, i)
    }
}

/// Where the outermost value ends, once a value has ended at index `e`
/// within the arrays and objects that are still open. `open` holds them
/// from the outermost to the innermost, `true` for an array.
spec fn close(s: Seq<char>, e: int, open: Seq<bool>) -> Option<int>
    decreases open.len(),
{
    if open.len() == 0 {
        Some(e)
    } else {
        let rest = if open.last() {
            elements_rest(s, e)
        } else {
            pairs_rest(s, e)
        };
        match rest {
            Some(behind) => close(s, behind, open.drop_last()),
            None => None,
        }
    }
}

/// Where the outermost value ends, once the value at index `i` within the
/// open arrays and objects has been passed over.
spec fn resume(s: Seq<char>, i: int, open: Seq<bool>) -> Option<int> {
    match value_end(s, i) {
        Some(e) => close(s, e, open),
        None => None,
    }
}

/// To pass over the first element of an array is to pass over the array,
/// once the element and the rest of the array are passed over.
proof fn lemma_enter_array(s: Seq<char>, i: int, open: Seq<bool>)
    requires
        at(s, i, '['),
        !at(s, grammar::skip_space(s, i + 1), ']'),
    ensures
        resume(s, i, open) == resume(s, grammar::skip_space(s, i + 1), open.push(true)),
{
    let first = grammar::skip_space(s, i + 1);
    grammar::lemma_value_advances(s, first);
    assert(open.push(true).drop_last() =~= open);
}

/// To pass over the first member of an object is to pass over the object.
proof fn lemma_enter_object(s: Seq<char>, i: int, open: Seq<bool>)
    requires
        at(s, i, '{'),
        !at(s, grammar::skip_space(s, i + 1), '}'),
        passed_key_end(s, grammar::skip_space(s, i + 1)) is Some,
    ensures
        resume(s, i, open) == resume(
            s,
            passed_key_end(s, grammar::skip_space(s, i + 1))->Some_0,
            open.push(false),
        ),
{
    let value = passed_key_end(s, grammar::skip_space(s, i + 1))->Some_0;
    grammar::lemma_value_advances(s, value);
    assert(open.push(false).drop_last() =~= open);
}

/// Passes over the value that starts at index `start`, however deep it
/// nests.
fn skip_value(s: &Vec<char>, start: usize) -> (r: Option<usize>)
    requires
        start <= s.len(),
    ensures
        match r {
            Some(end) => value_end(s@, start as int) == Some(end as int) && start < end
                <= s.len(),
            None => value_end(s@, start as int) is None,
        },
{
    proof {
        grammar::lemma_value_advances(s@, start as int);
    }
    let mut open: Vec<bool> = Vec::new();
    let mut pos: usize = start;
    let mut at_value = true;
    loop
        invariant
            pos <= s.len(),
            value_end(s@, start as int) is Some ==> start < value_end(s@, start as int)->Some_0,
            at_value ==> value_end(s@, start as int) == resume(s@, pos as int, open@),
            !at_value ==> value_end(s@, start as int) == close(s@, pos as int, open@),
        decreases s.len() - pos,
    {
        if at_value {
            if pos >= s.len() {
                return None;
            }
            let c = s[pos];
            if c == '[' {
                let first = skip_space(s, pos + 1);
                if char_at(s, first, ']') {
                    pos = first + 1;
                    at_value = false;
                } else {
                    proof {
                        lemma_enter_array(s@, pos as int, open@);
                    }
                    open.push(true);
                    pos = first;
                }
            } else if c == '{' {
                let first = skip_space(s, pos + 1);
                if char_at(s, first, '}') {
                    pos = first + 1;
                    at_value = false;
                } else {
                    match skip_key(s, first) {
                        None => {
                            return None;
                        },
                        Some(value) => {
                            proof {
                                lemma_enter_object(s@, pos as int, open@);
                            }
                            open.push(false);
                            pos = value;
                        },
                    }
                }
            } else {
                match skip_scalar(s, pos) {
                    None => {
                        return None;
                    },
                    Some(end) => {
                        pos = end;
                        at_value = false;
                    },
                }
            }
        } else {
            if open.len() == 0 {
                return Some(pos);
            }
            let in_array = open[open.len() - 1];
            let k = skip_space(s, pos);
            if char_at(s, k, if in_array { ']' } else { '}' }) {
                open.pop();
                pos = k + 1;
            } else if char_at(s, k, ',') {
                let next = skip_space(s, k + 1);
                if in_array {
                    proof {
                        grammar::lemma_value_advances(s@, next as int);
                    }
                    pos = next;
                    at_value = true;
                } else {
                    match skip_key(s, next) {
                        None => {
                            return None;
                        },
                        Some(value) => {
                            proof {
                                grammar::lemma_value_advances(s@, value as int);
                            }
                            pos = value;
                            at_value = true;
                        },
                    }
                }
            } else {
                return None;
            }
        }
    }
}

/// The value of a member that starts at index `i`.
fn read_field(s: &Vec<char>, i: usize) -> (r: Option<(Option<Value>, usize)>)
    requires
        i <= s.len(),
    ensures
        match r {
            Some((value, end)) => field_at(s@, i as int) == Some(
                (
                    match value {
                        Some(v) => Some(v@),
                        None => None,
                    },
                    end as int,
                ),
            ) && i < end <= s.len(),
            None => field_at(s@, i as int) is None,
        },
{
    if let Some((text, end)) = read_string(s, i) {
        return Some((Some(Value::Text(text)), end));
    }
    if let Some((items, end)) = read_list(s, i) {
        return Some((Some(Value::List(items)), end));
    }
    match skip_value(s, i) {
        Some(end) => Some((None, end)),
        None => None,
    }
}

/// The members of the object that starts at index `i`.
fn read_entries(s: &Vec<char>, i: usize) -> (r: Option<(Vec<Pair>, usize)>)
    requires
        i <= s.len(),
    ensures
        match r {
            Some((pairs, end)) => object_at(s@, i as int) == Some((entries(pairs@), end as int))
                && i < end <= s.len(),
            None => object_at(s@, i as int) is None,
        },
{
    if !char_at(s, i, '{') {
        return None;
    }
    let first = skip_space(s, i + 1);
    let mut pairs: Vec<Pair> = Vec::new();
    if char_at(s, first, '}') {
        return Some((pairs, first + 1));
    }
    let mut j: usize = first;
    loop
        invariant
            i < j <= s.len(),
            object_at(s@, i as int) == match entries_tail(s@, j as int) {
                Some((rest, end)) => Some((entries(pairs@) + rest, end)),
                None => None,
            },
        decreases s.len() - j,
    {
        let (key, behind_key) = match read_string(s, j) {
            None => {
                return None;
            },
            Some(read) => read,
        };
        let colon = skip_space(s, behind_key);
        if !char_at(s, colon, ':') {
            return None;
        }
        let start = skip_space(s, colon + 1);
        let (value, behind) = match read_field(s, start) {
            None => {
                return None;
            },
            Some(read) => read,
        };
        let k = skip_space(s, behind);
        let pair = Pair { key, value };
        pairs.push(pair);
        if char_at(s, k, '}') {
            return Some((pairs, k + 1));
        } else if char_at(s, k, ',') {
            j = skip_space(s, k + 1);
        } else {
            return None;
        }
    }
}

/// The members of the object that `text` is, where it is one.
pub fn read_object(text: &str) -> (r: Option<Vec<Pair>>)
    ensures
        match r {
            Some(pairs) => document(text@) == Some(entries(pairs@)),
            None => document(text@) is None,
        },
{
    let s = chars_of(text);
    let start = skip_space(&s, 0);
    match read_entries(&s, start) {
        Some((pairs, end)) => {
            if skip_space(&s, end) == s.len() {
                Some(pairs)
            } else {
                None
            }
        },
        None => None,
    }
}

} // verus!
