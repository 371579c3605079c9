//! The two envelopes of the protocol: the request that the client sends and
//! the reply that the device returns, each as a value and as JSON text.

use vstd::prelude::*;
use crate::command::{Command, Space};
use crate::error::Error;
use crate::json::grammar::{document, Entry};
use crate::json::laws::lemma_object_read;
use crate::json::layout::{members_from, object_text, Field, Member};
use crate::json::reader::{entries, read_object, Pair, Value};
use crate::json::writer::{write_list_member, write_text_member};
use crate::text::{clone_strings, views};

verus! {

/// A request: the command's tag, the address space if the request names
/// one, the flags, and the operands in the order the command defines.
#[derive(Debug, PartialEq, Eq)]
pub struct USB2SnesQuery {
    pub opcode: String,
    pub space: Option<String>,
    pub flags: Vec<String>,
    pub operands: Vec<String>,
}

/// A reply: the results, which each operation reads by position.
#[derive(Debug, PartialEq, Eq)]
pub struct USB2SnesResult {
    pub results: Vec<String>,
}

/// What a request holds.
pub struct Query {
    pub opcode: Seq<char>,
    pub space: Option<Seq<char>>,
    pub flags: Seq<Seq<char>>,
    pub operands: Seq<Seq<char>>,
}

impl View for USB2SnesQuery {
    type V = Query;

    open spec fn view(&self) -> Query {
        Query {
            opcode: self.opcode@,
            space: match self.space {
                Some(s) => Some(s@),
                None => None,
            },
            flags: views(self.flags@),
            operands: views(self.operands@),
        }
    }
}

impl View for USB2SnesResult {
    type V = Seq<Seq<char>>;

    open spec fn view(&self) -> Seq<Seq<char>> {
        views(self.results@)
    }
}

/// The key under which a request holds the command's tag.
pub open spec fn opcode_key() -> Seq<char> {
    "Opcode"@
}

/// The key under which a request holds the address space.
pub open spec fn space_key() -> Seq<char> {
    "Space"@
}

/// The key under which a request holds its flags.
pub open spec fn flags_key() -> Seq<char> {
    "Flags"@
}

/// The key under which a request holds its operands.
pub open spec fn operands_key() -> Seq<char> {
    "Operands"@
}

/// The key under which a reply holds its results.
pub open spec fn results_key() -> Seq<char> {
    "Results"@
}

/// The request for `command` in `space` with `operands`: the command's tag
/// as opcode, the space's tag where one is given, no flags.
pub open spec fn request(command: Command, space: Option<Space>, operands: Seq<Seq<char>>)
    -> Query {
    Query {
        opcode: command.name_spec(),
        space: match space {
            Some(s) => Some(s.name_spec()),
            None => None,
        },
        flags: Seq::empty(),
        operands,
    }
}

/// The members of a request, in the order in which they are written:
/// `Opcode`, then `Space` if the request names one, `Flags`, `Operands`.
pub open spec fn query_members(q: Query) -> Seq<Member> {
    let opcode = seq![Member { key: opcode_key(), value: Field::Text(q.opcode) }];
    let space = match q.space {
        Some(s) => seq![Member { key: space_key(), value: Field::Text(s) }],
        None => Seq::empty(),
    };
    let lists = seq![
        Member { key: flags_key(), value: Field::List(q.flags) },
        Member { key: operands_key(), value: Field::List(q.operands) },
    ];
    opcode + space + lists
}

/// The JSON text of a request.
pub open spec fn query_text(q: Query) -> Seq<char> {
    object_text(query_members(q))
}

/// The JSON text of a reply.
pub open spec fn result_text(results: Seq<Seq<char>>) -> Seq<char> {
    object_text(seq![Member { key: results_key(), value: Field::List(results) }])
}

/// The first index from `from` on at which a member has the key `key`; the
/// number of members where there is none.
pub open spec fn find_key(members: Seq<Entry>, key: Seq<char>, from: int) -> int
    decreases members.len() - from,
{
    if from < 0 || from >= members.len() {
        members.len() as int
    } else if members[from].key == key {
        from
    } else {
        find_key(members, key, from + 1)
    }
}

/// What an object holds under a key.
pub enum Lookup {
    /// No member has the key.
    Absent,
    /// One member has the key; this is its value, if it is a string or a
    /// list of strings.
    Once(Option<Field>),
    /// More than one member has the key.
    Repeated,
}

/// What the members hold under `key`.
pub open spec fn lookup(members: Seq<Entry>, key: Seq<char>) -> Lookup {
    let i = find_key(members, key, 0);
    if i >= members.len() {
        Lookup::Absent
    } else if find_key(members, key, i + 1) < members.len() {
        Lookup::Repeated
    } else {
        Lookup::Once(members[i].value)
    }
}

/// The request that a text is read as: a JSON object that holds, each once,
/// a string under `Opcode` and lists of strings under `Flags` and
/// `Operands`, and at most once a string under `Space`. Other members are
/// passed over.
pub open spec fn query_of(text: Seq<char>) -> Option<Query> {
    match document(text) {
        None => None,
        Some(members) => match (
            lookup(members, opcode_key()),
            lookup(members, flags_key()),
            lookup(members, operands_key()),
        ) {
            (
                Lookup::Once(Some(Field::Text(opcode))),
                Lookup::Once(Some(Field::List(flags))),
                Lookup::Once(Some(Field::List(operands))),
            ) => match lookup(members, space_key()) {
                Lookup::Absent => Some(Query { opcode, space: None, flags, operands }),
                Lookup::Once(Some(Field::Text(space))) => Some(
                    Query { opcode, space: Some(space), flags, operands },
                ),
                _ => None,
            },
            _ => None,
        },
    }
}

/// The results that a text is read as: a JSON object that holds a list of
/// strings under `Results`, once. Other members are passed over.
pub open spec fn results_of(text: Seq<char>) -> Option<Seq<Seq<char>>> {
    match document(text) {
        None => None,
        Some(members) => match lookup(members, results_key()) {
            Lookup::Once(Some(Field::List(results))) => Some(results),
            _ => None,
        },
    }
}

/// Where a key was found among the members that were read.
enum Slot {
    Absent,
    Once(usize),
    Repeated,
}

fn find(pairs: &Vec<Pair>, key: &String, from: usize) -> (i: usize)
    ensures
        i == find_key(entries(pairs@), key@, from as int),
        from <= i <= pairs.len() || (from > pairs.len() && i == pairs.len()),
{
    let mut i: usize = from;
    while i < pairs.len()
        invariant
            from <= i,
            find_key(entries(pairs@), key@, from as int) == find_key(
                entries(pairs@),
                key@,
                i as int,
            ),
        decreases pairs.len() - i,
    {
        if pairs[i].key == *key {
            return i;
        }
        i = i + 1;
    }
    pairs.len()
}

fn slot(pairs: &Vec<Pair>, key: &str) -> (r: Slot)
    ensures
        match r {
            Slot::Absent => lookup(entries(pairs@), key@) == Lookup::Absent,
            Slot::Repeated => lookup(entries(pairs@), key@) == Lookup::Repeated,
            Slot::Once(i) => i < pairs.len() && lookup(entries(pairs@), key@) == Lookup::Once(
                entries(pairs@)[i as int].value,
            ),
        },
{
    let key = key.to_owned();
    let i = find(pairs, &key, 0);
    if i >= pairs.len() {
        Slot::Absent
    } else if find(pairs, &key, i + 1) < pairs.len() {
        Slot::Repeated
    } else {
        Slot::Once(i)
    }
}

/// The string that the members hold under `key`, where they hold one, once.
fn text_under(pairs: &Vec<Pair>, key: &str) -> (r: Option<String>)
    ensures
        match r {
            Some(s) => lookup(entries(pairs@), key@) == Lookup::Once(Some(Field::Text(s@))),
            None => !(lookup(entries(pairs@), key@) matches Lookup::Once(Some(Field::Text(_)))),
        },
{
    match slot(pairs, key) {
        Slot::Once(i) => match &pairs[i].value {
            Some(Value::Text(s)) => Some(s.clone()),
            _ => None,
        },
        _ => None,
    }
}

/// The list of strings that the members hold under `key`, where they hold
/// one, once.
fn list_under(pairs: &Vec<Pair>, key: &str) -> (r: Option<Vec<String>>)
    ensures
        match r {
            Some(v) => lookup(entries(pairs@), key@) == Lookup::Once(
                Some(Field::List(views(v@))),
            ),
            None => !(lookup(entries(pairs@), key@) matches Lookup::Once(Some(Field::List(_)))),
        },
{
    match slot(pairs, key) {
        Slot::Once(i) => match &pairs[i].value {
            Some(Value::List(items)) => Some(clone_strings(items)),
            _ => None,
        },
        _ => None,
    }
}

impl USB2SnesQuery {
    /// The request for `command` in `space` with `operands`.
    pub fn new(command: Command, space: Option<Space>, operands: Vec<String>) -> (q: Self)
        ensures
            q@ == request(command, space, views(operands@)),
            q.operands == operands,
    {
        let flags: Vec<String> = Vec::new();
        assert(views(flags@) =~= Seq::<Seq<char>>::empty());
        USB2SnesQuery {
            opcode: command.to_string(),
            space: match space {
                Some(s) => Some(s.to_string()),
                None => None,
            },
            flags,
            operands,
        }
    }

    /// The JSON text of the request.
    pub fn encode(&self) -> (text: String)
        ensures
            text@ == query_text(self@),
    {
        let mut out = String::new();
        out.push('{');
        write_text_member(&mut out, true, "Opcode", self.opcode.as_str());
        match &self.space {
            Some(space) => {
                write_text_member(&mut out, false, "Space", space.as_str());
            },
            None => {},
        }
        write_list_member(&mut out, false, "Flags", &self.flags);
        write_list_member(&mut out, false, "Operands", &self.operands);
        out.push('\n');
        out.push('}');
        proof {
            reveal_with_fuel(members_from, 5);
        }
        out
    }

    /// The request that `text` holds, where it holds one.
    pub fn decode(text: &str) -> (r: Option<Self>)
        ensures
            match r {
                Some(q) => query_of(text@) == Some(q@),
                None => query_of(text@) is None,
            },
    {
        let pairs = match read_object(text) {
            None => {
                return None;
            },
            Some(pairs) => pairs,
        };
        let opcode = match text_under(&pairs, "Opcode") {
            None => {
                return None;
            },
            Some(opcode) => opcode,
        };
        let flags = match list_under(&pairs, "Flags") {
            None => {
                return None;
            },
            Some(flags) => flags,
        };
        let operands = match list_under(&pairs, "Operands") {
            None => {
                return None;
            },
            Some(operands) => operands,
        };
        let space = match slot(&pairs, "Space") {
            Slot::Absent => None,
            Slot::Once(i) => match &pairs[i].value {
                Some(Value::Text(s)) => Some(s.clone()),
                _ => {
                    return None;
                },
            },
            Slot::Repeated => {
                return None;
            },
        };
        Some(USB2SnesQuery { opcode, space, flags, operands })
    }
}

impl USB2SnesResult {
    /// The JSON text of the reply.
    pub fn encode(&self) -> (text: String)
        ensures
            text@ == result_text(self@),
    {
        let mut out = String::new();
        out.push('{');
        write_list_member(&mut out, true, "Results", &self.results);
        out.push('\n');
        out.push('}');
        proof {
            reveal_with_fuel(members_from, 2);
        }
        out
    }

    /// The reply that `text` holds; `MalformedReply` where it holds none.
    pub fn decode(text: &str) -> (r: Result<Self, Error>)
        ensures
            match r {
                Ok(reply) => results_of(text@) == Some(reply@),
                Err(e) => e == Error::MalformedReply && results_of(text@) is None,
            },
    {
        let pairs = match read_object(text) {
            None => {
                return Err(Error::MalformedReply);
            },
            Some(pairs) => pairs,
        };
        match list_under(&pairs, "Results") {
            Some(results) => Ok(USB2SnesResult { results }),
            None => Err(Error::MalformedReply),
        }
    }
}

/// The keys of a request differ from each other.
proof fn lemma_keys_differ()
    ensures
        opcode_key() != space_key(),
        opcode_key() != flags_key(),
        opcode_key() != operands_key(),
        space_key() != flags_key(),
        space_key() != operands_key(),
        flags_key() != operands_key(),
{
    reveal_strlit("Opcode");
    reveal_strlit("Space");
    reveal_strlit("Flags");
    reveal_strlit("Operands");
    assert(opcode_key().len() == 6);
    assert(space_key().len() == 5);
    assert(flags_key().len() == 5);
    assert(operands_key().len() == 8);
    assert(space_key()[0] == 'S');
    assert(flags_key()[0] == 'F');
}

/// A request is read back from its text: the same opcode, the same space
/// or none, the same flags, the same operands.
pub proof fn lemma_query_round_trip(q: Query)
    ensures
        query_of(query_text(q)) == Some(q),
{
    lemma_object_read(query_members(q));
    lemma_keys_differ();
    reveal_with_fuel(find_key, 6);
}

/// The text of the request for a command holds the command's tag as its
/// opcode and the operands as they were given, in their order; it holds a
/// space if and only if one was given, and then that space's tag.
pub proof fn lemma_request_text_holds(
    command: Command,
    space: Option<Space>,
    operands: Seq<Seq<char>>,
)
    ensures
        query_of(query_text(request(command, space, operands))) is Some,
        query_of(query_text(request(command, space, operands)))->Some_0.opcode
            == command.name_spec(),
        query_of(query_text(request(command, space, operands)))->Some_0.operands == operands,
        query_of(query_text(request(command, space, operands)))->Some_0.space is Some
            <==> space is Some,
        space is Some ==> query_of(
            query_text(request(command, space, operands)),
        )->Some_0.space->Some_0 == space->Some_0.name_spec(),
{
    lemma_query_round_trip(request(command, space, operands));
}

/// Encoding is repeatable: whenever the same request is encoded twice, the
/// two texts are the same, character for character.
pub proof fn lemma_encoding_deterministic(
    a: USB2SnesQuery,
    b: USB2SnesQuery,
    text_a: String,
    text_b: String,
)
    requires
        a@ == b@,
        text_a@ == query_text(a@),
        text_b@ == query_text(b@),
    ensures
        text_a@ == text_b@,
{
}

/// The text of a request tells the request: two requests with the same
/// text hold the same.
pub proof fn lemma_encoding_injective(a: Query, b: Query)
    requires
        query_text(a) == query_text(b),
    ensures
        a == b,
{
    lemma_query_round_trip(a);
    lemma_query_round_trip(b);
}

/// The results of a reply are read back from its text, whatever they are,
/// the empty list too.
pub proof fn lemma_reply_round_trip(results: Seq<Seq<char>>)
    ensures
        results_of(result_text(results)) == Some(results),
{
    lemma_object_read(seq![Member { key: results_key(), value: Field::List(results) }]);
    reveal_with_fuel(find_key, 3);
}

} // verus!
