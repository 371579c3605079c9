//! What a text is read as: the grammar of JSON, as far as an envelope needs
//! it. Strings and lists of strings are read for what they hold; any other
//! value is only recognised, so that a member nobody asked for can be passed
//! over.

use vstd::prelude::*;
use crate::hex::digit_value;
use crate::json::layout::Field;

verus! {

/// A member as it is read: its key and, where the value is a string or a
/// list of strings, what it holds. `None` stands for any other value.
pub struct Entry {
    pub key: Seq<char>,
    pub value: Option<Field>,
}

/// White space between the parts of a text: space, line feed, carriage
/// return, tab.
pub open spec fn is_space(c: char) -> bool {
    c == ' ' || c == '\n' || c == '\r' || c == '\t'
}

/// A decimal digit.
pub open spec fn is_digit(c: char) -> bool {
    48 <= c as u32 <= 57
}

/// `s` holds the character `c` at index `i`.
pub open spec fn at(s: Seq<char>, i: int, c: char) -> bool {
    0 <= i < s.len() && s[i] == c
}

/// `s` holds the text `t` from index `i` on.
pub open spec fn has_at(s: Seq<char>, i: int, t: Seq<char>) -> bool {
    &&& 0 <= i
    &&& i + t.len() <= s.len()
    &&& forall|k: int| 0 <= k < t.len() ==> s[i + k] == #[trigger] t[k]
}

/// The first index from `i` on that holds no white space.
pub open spec fn skip_space(s: Seq<char>, i: int) -> int
    decreases s.len() - i,
{
    if 0 <= i < s.len() && is_space(s[i]) {
        skip_space(s, i + 1)
    } else {
        i
    }
}

/// The first index from `i` on that holds no decimal digit.
pub open spec fn skip_digits(s: Seq<char>, i: int) -> int
    decreases s.len() - i,
{
    if 0 <= i < s.len() && is_digit(s[i]) {
        skip_digits(s, i + 1)
    } else {
        i
    }
}

/// The number that the four hexadecimal digits from index `i` on denote.
pub open spec fn hex4(s: Seq<char>, i: int) -> Option<nat> {
    if 0 <= i && i + 4 <= s.len() {
        match (
            digit_value(s[i]),
            digit_value(s[i + 1]),
            digit_value(s[i + 2]),
            digit_value(s[i + 3]),
        ) {
            (Some(a), Some(b), Some(c), Some(d)) => Some(((a * 16 + b) * 16 + c) * 16 + d),
            _ => None,
        }
    } else {
        None
    }
}

/// The code point that a pair of surrogates stands for.
pub open spec fn surrogate_pair(high: nat, low: nat) -> nat {
    (0x10000 + (high - 0xD800) * 0x400 + (low - 0xDC00)) as nat
}

/// The character that the escape `\u` stands for, and where it ends; `i` is
/// the index behind the `u`. A code unit outside the surrogates stands for
/// itself. A high surrogate must be followed by a second escape that holds a
/// low surrogate, and the pair stands for one character. A low surrogate
/// alone stands for nothing.
pub open spec fn unicode_escape_at(s: Seq<char>, i: int) -> Option<(char, int)> {
    match hex4(s, i) {
        None => None,
        Some(unit) => if unit < 0xD800 || 0xDFFF < unit {
            Some(((unit as u32) as char, i + 4))
        } else if unit <= 0xDBFF && at(s, i + 4, '\\') && at(s, i + 5, 'u') {
            match hex4(s, i + 6) {
                Some(low) => if 0xDC00 <= low <= 0xDFFF {
                    Some(((surrogate_pair(unit, low) as u32) as char, i + 10))
                } else {
                    None
                },
                None => None,
            }
        } else {
            None
        },
    }
}

/// The character that an escape stands for, and where it ends; `i` is the
/// index behind the backslash.
pub open spec fn escape_at(s: Seq<char>, i: int) -> Option<(char, int)> {
    if !(0 <= i < s.len()) {
        None
    } else if s[i] == '"' || s[i] == '\\' || s[i] == '/' {
        Some((s[i], i + 1))
    } else if s[i] == 'b' {
        Some(((0x08u8) as char, i + 1))
    } else if s[i] == 't' {
        Some(((0x09u8) as char, i + 1))
    } else if s[i] == 'n' {
        Some(((0x0au8) as char, i + 1))
    } else if s[i] == 'f' {
        Some(((0x0cu8) as char, i + 1))
    } else if s[i] == 'r' {
        Some(((0x0du8) as char, i + 1))
    } else if s[i] == 'u' {
        unicode_escape_at(s, i + 1)
    } else {
        None
    }
}

/// What a string holds from index `i` on, which lies behind its opening
/// quote, and the index behind its closing quote. A character below the
/// space may not stand in a string unescaped.
pub open spec fn string_tail(s: Seq<char>, i: int) -> Option<(Seq<char>, int)>
    decreases s.len() - i,
{
    if !(0 <= i < s.len()) {
        None
    } else if s[i] == '"' {
        Some((Seq::empty(), i + 1))
    } else if s[i] == '\\' {
        match escape_at(s, i + 1) {
            Some((c, j)) => match string_tail(s, j) {
                Some((rest, end)) => Some((seq![c] + rest, end)),
                None => None,
            },
            None => None,
        }
    } else if (s[i] as u32) < 0x20 {
        None
    } else {
        match string_tail(s, i + 1) {
            Some((rest, end)) => Some((seq![s[i]] + rest, end)),
            None => None,
        }
    }
}

/// The string that starts at index `i`, and the index behind it.
pub open spec fn string_at(s: Seq<char>, i: int) -> Option<(Seq<char>, int)> {
    if at(s, i, '"') {
        string_tail(s, i + 1)
    } else {
        None
    }
}

/// The strings of a list from the one at index `i` on, and the index behind
/// the closing bracket.
pub open spec fn list_tail(s: Seq<char>, i: int) -> Option<(Seq<Seq<char>>, int)>
    decreases s.len() - i,
{
    match string_at(s, i) {
        None => None,
        Some((item, j)) => {
            let k = skip_space(s, j);
            if at(s, k, ']') {
                Some((seq![item], k + 1))
            } else if at(s, k, ',') {
                proof {
                    lemma_string_tail_advances(s, i + 1);
                    lemma_skip_space_bounds(s, j);
                    lemma_skip_space_bounds(s, k + 1);
                }
                match list_tail(s, skip_space(s, k + 1)) {
                    Some((rest, end)) => Some((seq![item] + rest, end)),
                    None => None,
                }
            } else {
                None
            }
        },
    }
}

/// The list of strings that starts at index `i`, and the index behind it.
pub open spec fn list_at(s: Seq<char>, i: int) -> Option<(Seq<Seq<char>>, int)> {
    if at(s, i, '[') {
        let j = skip_space(s, i + 1);
        if at(s, j, ']') {
            Some((Seq::empty(), j + 1))
        } else {
            list_tail(s, j)
        }
    } else {
        None
    }
}

/// Where the number that starts at index `i` ends: an optional minus sign,
/// a zero or a run of digits that starts with none, an optional fraction,
/// an optional exponent.
pub open spec fn number_end(s: Seq<char>, i: int) -> Option<int> {
    let a = if at(s, i, '-') {
        i + 1
    } else {
        i
    };
    if !(0 <= a < s.len() && is_digit(s[a])) {
        None
    } else {
        let b = if s[a] == '0' {
            a + 1
        } else {
            skip_digits(s, a)
        };
        let c = if at(s, b, '.') {
            if 0 <= b + 1 < s.len() && is_digit(s[b + 1]) {
                Some(skip_digits(s, b + 1))
            } else {
                None
            }
        } else {
            Some(b)
        };
        match c {
            None => None,
            Some(c) => if at(s, c, 'e') || at(s, c, 'E') {
                let d = if at(s, c + 1, '+') || at(s, c + 1, '-') {
                    c + 2
                } else {
                    c + 1
                };
                if 0 <= d < s.len() && is_digit(s[d]) {
                    Some(skip_digits(s, d))
                } else {
                    None
                }
            } else {
                Some(c)
            },
        }
    }
}

/// Where the word `word` ends, if it stands at index `i`.
pub open spec fn word_end(s: Seq<char>, i: int, word: Seq<char>) -> Option<int> {
    if has_at(s, i, word) {
        Some(i + word.len())
    } else {
        None
    }
}

/// Where an escape ends in a string that is passed over; `i` is the index
/// behind the backslash. Any four hexadecimal digits may follow `\u`.
pub open spec fn passed_escape_end(s: Seq<char>, i: int) -> Option<int> {
    if !(0 <= i < s.len()) {
        None
    } else if s[i] == '"' || s[i] == '\\' || s[i] == '/' || s[i] == 'b' || s[i] == 't' || s[i]
        == 'n' || s[i] == 'f' || s[i] == 'r' {
        Some(i + 1)
    } else if s[i] == 'u' && hex4(s, i + 1) is Some {
        Some(i + 5)
    } else {
        None
    }
}

/// Where a string that is passed over ends; `i` lies behind its opening
/// quote. It is held to the grammar of strings, not to what its escapes
/// stand for.
pub open spec fn passed_string_tail(s: Seq<char>, i: int) -> Option<int>
    decreases s.len() - i,
{
    if !(0 <= i < s.len()) {
        None
    } else if s[i] == '"' {
        Some(i + 1)
    } else if s[i] == '\\' {
        match passed_escape_end(s, i + 1) {
            Some(j) => passed_string_tail(s, j),
            None => None,
        }
    } else if (s[i] as u32) < 0x20 {
        None
    } else {
        passed_string_tail(s, i + 1)
    }
}

/// Where the value starts of a member that is passed over and whose key
/// stands at index `i`: behind the key, the colon and the white space
/// around it.
pub open spec fn passed_key_end(s: Seq<char>, i: int) -> Option<int> {
    if at(s, i, '"') {
        match passed_string_tail(s, i + 1) {
            Some(j) => if at(s, skip_space(s, j), ':') {
                Some(skip_space(s, skip_space(s, j) + 1))
            } else {
                None
            },
            None => None,
        }
    } else {
        None
    }
}

/// Where the value that starts at index `i` ends, if it is one: a string, a
/// number, one of the words `true`, `false` and `null`, an array of values
/// or an object whose members have strings as keys and values as values.
pub open spec fn value_end(s: Seq<char>, i: int) -> Option<int>
    decreases s.len() - i, 0int,
{
    if !(0 <= i < s.len()) {
        None
    } else if s[i] == '"' {
        passed_string_tail(s, i + 1)
    } else if s[i] == '[' {
        let j = skip_space(s, i + 1);
        if at(s, j, ']') {
            Some(j + 1)
        } else {
            proof {
                lemma_skip_space_bounds(s, i + 1);
            }
            elements_end(s, j)
        }
    } else if s[i] == '{' {
        let j = skip_space(s, i + 1);
        if at(s, j, '}') {
            Some(j + 1)
        } else {
            proof {
                lemma_skip_space_bounds(s, i + 1);
            }
            pairs_end(s, j)
        }
    } else if s[i] == 't' {
        word_end(s, i, seq!['t', 'r', 'u', 'e'])
    } else if s[i] == 'f' {
        word_end(s, i, seq!['f', 'a', 'l', 's', 'e'])
    } else if s[i] == 'n' {
        word_end(s, i, seq!['n', 'u', 'l', 'l'])
    } else {
        number_end(s, i)
    }
}

/// Where an array ends whose elements from the one at index `i` on are
/// still to come. (No value is empty, so the element ends behind `i`.)
pub open spec fn elements_end(s: Seq<char>, i: int) -> Option<int>
    decreases s.len() - i, 2int,
{
    match value_end(s, i) {
        Some(e) => if i < e <= s.len() {
            elements_rest(s, e)
        } else {
            None
        },
        None => None,
    }
}

/// Where an array ends of which an element has ended at index `e`: behind
/// the closing bracket, or where the elements behind a comma end.
pub open spec fn elements_rest(s: Seq<char>, e: int) -> Option<int>
    decreases s.len() - e, 1int,
{
    let k = skip_space(s, e);
    if at(s, k, ']') {
        Some(k + 1)
    } else if at(s, k, ',') {
        proof {
            lemma_skip_space_bounds(s, e);
            lemma_skip_space_bounds(s, k + 1);
        }
        elements_end(s, skip_space(s, k + 1))
    } else {
        None
    }
}

/// Where an object ends whose members from the one at index `i` on are
/// still to come.
pub open spec fn pairs_end(s: Seq<char>, i: int) -> Option<int>
    decreases s.len() - i, 2int,
{
    match passed_key_end(s, i) {
        Some(v) => {
            proof {
                lemma_passed_key_advances(s, i);
            }
            match value_end(s, v) {
                Some(e) => if v < e <= s.len() {
                    pairs_rest(s, e)
                } else {
                    None
                },
                None => None,
            }
        },
        None => None,
    }
}

/// Where an object ends of which a member has ended at index `e`: behind
/// the closing brace, or where the members behind a comma end.
pub open spec fn pairs_rest(s: Seq<char>, e: int) -> Option<int>
    decreases s.len() - e, 1int,
{
    let k = skip_space(s, e);
    if at(s, k, '}') {
        Some(k + 1)
    } else if at(s, k, ',') {
        proof {
            lemma_skip_space_bounds(s, e);
            lemma_skip_space_bounds(s, k + 1);
        }
        pairs_end(s, skip_space(s, k + 1))
    } else {
        None
    }
}

/// The value of a member that starts at index `i`: what it holds where it is
/// a string or a list of strings, and the index behind it.
pub open spec fn field_at(s: Seq<char>, i: int) -> Option<(Option<Field>, int)> {
    match string_at(s, i) {
        Some((text, end)) => Some((Some(Field::Text(text)), end)),
        None => match list_at(s, i) {
            Some((items, end)) => Some((Some(Field::List(items)), end)),
            None => match value_end(s, i) {
                Some(end) => Some((None, end)),
                None => None,
            },
        },
    }
}

/// The members of an object from the one at index `i` on, and the index
/// behind the closing brace.
pub open spec fn entries_tail(s: Seq<char>, i: int) -> Option<(Seq<Entry>, int)>
    decreases s.len() - i,
{
    match string_at(s, i) {
        None => None,
        Some((key, j)) => {
            let c = skip_space(s, j);
            if !at(s, c, ':') {
                None
            } else {
                match field_at(s, skip_space(s, c + 1)) {
                    None => None,
                    Some((value, e)) => {
                        let k = skip_space(s, e);
                        let entry = Entry { key, value };
                        if at(s, k, '}') {
                            Some((seq![entry], k + 1))
                        } else if at(s, k, ',') {
                            proof {
                                lemma_string_tail_advances(s, i + 1);
                                lemma_skip_space_bounds(s, j);
                                lemma_skip_space_bounds(s, c + 1);
                                lemma_field_advances(s, skip_space(s, c + 1));
                                lemma_skip_space_bounds(s, e);
                                lemma_skip_space_bounds(s, k + 1);
                            }
                            match entries_tail(s, skip_space(s, k + 1)) {
                                Some((rest, end)) => Some((seq![entry] + rest, end)),
                                None => None,
                            }
                        } else {
                            None
                        }
                    },
                }
            }
        },
    }
}

/// The members of the object that starts at index `i`, and the index behind
/// it.
pub open spec fn object_at(s: Seq<char>, i: int) -> Option<(Seq<Entry>, int)> {
    if at(s, i, '{') {
        let j = skip_space(s, i + 1);
        if at(s, j, '}') {
            Some((Seq::empty(), j + 1))
        } else {
            entries_tail(s, j)
        }
    } else {
        None
    }
}

/// The members of the object that the text `s` is: one object, with nothing
/// but white space around it.
pub open spec fn document(s: Seq<char>) -> Option<Seq<Entry>> {
    match object_at(s, skip_space(s, 0)) {
        Some((entries, end)) => if skip_space(s, end) == s.len() {
            Some(entries)
        } else {
            None
        },
        None => None,
    }
}

/// Skipping white space goes forward, stays within the text and ends at a
/// character that is no white space.
pub proof fn lemma_skip_space_bounds(s: Seq<char>, i: int)
    ensures
        i <= skip_space(s, i),
        0 <= i <= s.len() ==> skip_space(s, i) <= s.len(),
        0 <= skip_space(s, i) < s.len() ==> !is_space(s[skip_space(s, i)]),
    decreases s.len() - i,
{
    if 0 <= i < s.len() && is_space(s[i]) {
        lemma_skip_space_bounds(s, i + 1);
    }
}

/// Skipping digits goes forward and stays within the text.
pub proof fn lemma_skip_digits_bounds(s: Seq<char>, i: int)
    ensures
        i <= skip_digits(s, i),
        0 <= i <= s.len() ==> skip_digits(s, i) <= s.len(),
    decreases s.len() - i,
{
    if 0 <= i < s.len() && is_digit(s[i]) {
        lemma_skip_digits_bounds(s, i + 1);
    }
}

/// A string ends behind the index at which its tail starts, and within the
/// text.
pub proof fn lemma_string_tail_advances(s: Seq<char>, i: int)
    ensures
        string_tail(s, i) is Some ==> i < string_tail(s, i)->Some_0.1 <= s.len(),
    decreases s.len() - i,
{
    if 0 <= i < s.len() {
        if s[i] == '"' {
        } else if s[i] == '\\' {
            match escape_at(s, i + 1) {
                Some((c, j)) => {
                    lemma_string_tail_advances(s, j);
                },
                None => {},
            }
        } else if (s[i] as u32) < 0x20 {
        } else {
            lemma_string_tail_advances(s, i + 1);
        }
    }
}

/// A list ends behind the index at which its items start, and within the
/// text.
pub proof fn lemma_list_tail_advances(s: Seq<char>, i: int)
    ensures
        list_tail(s, i) is Some ==> i < list_tail(s, i)->Some_0.1 <= s.len(),
    decreases s.len() - i,
{
    match string_at(s, i) {
        None => {},
        Some((item, j)) => {
            lemma_string_tail_advances(s, i + 1);
            let k = skip_space(s, j);
            lemma_skip_space_bounds(s, j);
            lemma_skip_space_bounds(s, k + 1);
            if at(s, k, ',') {
                lemma_list_tail_advances(s, skip_space(s, k + 1));
            }
        },
    }
}

/// A string that is passed over ends behind the index at which its tail
/// starts, and within the text.
pub proof fn lemma_passed_string_advances(s: Seq<char>, i: int)
    ensures
        passed_string_tail(s, i) is Some ==> i < passed_string_tail(s, i)->Some_0 <= s.len(),
    decreases s.len() - i,
{
    if 0 <= i < s.len() {
        if s[i] == '"' {
        } else if s[i] == '\\' {
            match passed_escape_end(s, i + 1) {
                Some(j) => {
                    lemma_passed_string_advances(s, j);
                },
                None => {},
            }
        } else if (s[i] as u32) < 0x20 {
        } else {
            lemma_passed_string_advances(s, i + 1);
        }
    }
}

/// The value of a member that is passed over starts behind its key, and
/// within the text.
pub proof fn lemma_passed_key_advances(s: Seq<char>, i: int)
    ensures
        passed_key_end(s, i) is Some ==> i < passed_key_end(s, i)->Some_0 <= s.len(),
{
    lemma_passed_string_advances(s, i + 1);
    match passed_string_tail(s, i + 1) {
        Some(j) => {
            lemma_skip_space_bounds(s, j);
            lemma_skip_space_bounds(s, skip_space(s, j) + 1);
        },
        None => {},
    }
}

/// A value ends behind the index at which it starts, and within the text.
pub proof fn lemma_value_advances(s: Seq<char>, i: int)
    ensures
        value_end(s, i) is Some ==> i < value_end(s, i)->Some_0 <= s.len(),
    decreases s.len() - i, 0int,
{
    if 0 <= i < s.len() {
        lemma_skip_space_bounds(s, i + 1);
        if s[i] == '"' {
            lemma_passed_string_advances(s, i + 1);
        } else if s[i] == '[' {
            if !at(s, skip_space(s, i + 1), ']') {
                lemma_elements_advance(s, skip_space(s, i + 1));
            }
        } else if s[i] == '{' {
            if !at(s, skip_space(s, i + 1), '}') {
                lemma_pairs_advance(s, skip_space(s, i + 1));
            }
        } else if s[i] == 't' || s[i] == 'f' || s[i] == 'n' {
        } else {
            lemma_number_advances(s, i);
        }
    }
}

/// A number ends behind the index at which it starts, and within the text.
pub proof fn lemma_number_advances(s: Seq<char>, i: int)
    ensures
        number_end(s, i) is Some ==> i < number_end(s, i)->Some_0 <= s.len(),
{
    let a = if at(s, i, '-') {
        i + 1
    } else {
        i
    };
    if 0 <= a < s.len() && is_digit(s[a]) {
        lemma_skip_digits_bounds(s, a);
        let b = if s[a] == '0' {
            a + 1
        } else {
            skip_digits(s, a)
        };
        lemma_skip_digits_bounds(s, b + 1);
        let c = if at(s, b, '.') {
            skip_digits(s, b + 1)
        } else {
            b
        };
        lemma_skip_digits_bounds(s, c + 1);
        lemma_skip_digits_bounds(s, c + 2);
    }
}

/// An array ends behind the index at which its elements start, and within
/// the text.
pub proof fn lemma_elements_advance(s: Seq<char>, i: int)
    ensures
        elements_end(s, i) is Some ==> i < elements_end(s, i)->Some_0 <= s.len(),
    decreases s.len() - i, 2int,
{
    match value_end(s, i) {
        Some(e) => {
            if i < e <= s.len() {
                lemma_elements_rest_advances(s, e);
            }
        },
        None => {},
    }
}

/// An array ends behind each of its elements, and within the text.
pub proof fn lemma_elements_rest_advances(s: Seq<char>, e: int)
    ensures
        elements_rest(s, e) is Some ==> e < elements_rest(s, e)->Some_0 <= s.len(),
    decreases s.len() - e, 1int,
{
    let k = skip_space(s, e);
    lemma_skip_space_bounds(s, e);
    lemma_skip_space_bounds(s, k + 1);
    if at(s, k, ',') {
        lemma_elements_advance(s, skip_space(s, k + 1));
    }
}

/// An object ends behind the index at which its members start, and within
/// the text.
pub proof fn lemma_pairs_advance(s: Seq<char>, i: int)
    ensures
        pairs_end(s, i) is Some ==> i < pairs_end(s, i)->Some_0 <= s.len(),
    decreases s.len() - i, 2int,
{
    lemma_passed_key_advances(s, i);
    match passed_key_end(s, i) {
        Some(v) => match value_end(s, v) {
            Some(e) => {
                if v < e <= s.len() {
                    lemma_pairs_rest_advances(s, e);
                }
            },
            None => {},
        },
        None => {},
    }
}

/// An object ends behind each of its members, and within the text.
pub proof fn lemma_pairs_rest_advances(s: Seq<char>, e: int)
    ensures
        pairs_rest(s, e) is Some ==> e < pairs_rest(s, e)->Some_0 <= s.len(),
    decreases s.len() - e, 1int,
{
    let k = skip_space(s, e);
    lemma_skip_space_bounds(s, e);
    lemma_skip_space_bounds(s, k + 1);
    if at(s, k, ',') {
        lemma_pairs_advance(s, skip_space(s, k + 1));
    }
}

/// The value of a member ends behind the index at which it starts, and
/// within the text.
pub proof fn lemma_field_advances(s: Seq<char>, i: int)
    ensures
        field_at(s, i) is Some ==> i < field_at(s, i)->Some_0.1 <= s.len(),
{
    lemma_string_tail_advances(s, i + 1);
    lemma_skip_space_bounds(s, i + 1);
    lemma_list_tail_advances(s, skip_space(s, i + 1));
    lemma_value_advances(s, i);
}

} // verus!
