use rusb2snes::json::reader::{read_object, Pair, Value};
use rusb2snes::{Command, Error, Space, USB2SnesQuery, USB2SnesResult};

fn strings(items: &[&str]) -> Vec<String> {
    items.iter().map(|s| s.to_string()).collect()
}

fn all_commands() -> Vec<(Command, &'static str)> {
    vec![
        (Command::AppVersion, "AppVersion"),
        (Command::Name, "Name"),
        (Command::DeviceList, "DeviceList"),
        (Command::Attach, "Attach"),
        (Command::Info, "Info"),
        (Command::Boot, "Boot"),
        (Command::Reset, "Reset"),
        (Command::Menu, "Menu"),
        (Command::List, "List"),
        (Command::PutFile, "PutFile"),
        (Command::GetFile, "GetFile"),
        (Command::Rename, "Rename"),
        (Command::Remove, "Remove"),
        (Command::GetAddress, "GetAddress"),
    ]
}

/// The text that serde_json writes for a request with the same members.
fn reference_text(opcode: &str, space: Option<&str>, operands: &[String]) -> String {
    let mut members = serde_json::Map::new();
    members.insert("Opcode".to_string(), serde_json::Value::String(opcode.to_string()));
    if let Some(space) = space {
        members.insert("Space".to_string(), serde_json::Value::String(space.to_string()));
    }
    members.insert("Flags".to_string(), serde_json::Value::Array(vec![]));
    members.insert(
        "Operands".to_string(),
        serde_json::Value::Array(
            operands.iter().map(|s| serde_json::Value::String(s.clone())).collect(),
        ),
    );
    serde_json::to_string_pretty(&serde_json::Value::Object(members)).unwrap()
}

/// The results that serde_json reads from a reply, if it is an object with
/// a list of strings under `Results`.
fn reference_results(text: &str) -> Option<Vec<String>> {
    let value: serde_json::Value = serde_json::from_str(text).ok()?;
    let items = value.as_object()?.get("Results")?.as_array()?;
    let mut results = vec![];
    for item in items {
        results.push(item.as_str()?.to_string());
    }
    Some(results)
}

fn tricky_strings() -> Vec<String> {
    let mut all = strings(&[
        "",
        "plain",
        "with space",
        "quote\"inside",
        "back\\slash",
        "slash/forward",
        "tab\there",
        "line\nbreak",
        "carriage\rreturn",
        "\u{8}backspace",
        "\u{c}formfeed",
        "\u{0}nul",
        "\u{1}\u{1f}\u{7f}",
        "päth/ünïcode",
        "日本語.sfc",
        "emoji \u{1F3AE}",
        "\\u0041 is not an escape here",
        "{\"Results\":[]}",
        "],}",
    ]);
    let mut every_control = String::new();
    for code in 0u32..0x20 {
        every_control.push(char::from_u32(code).unwrap());
    }
    all.push(every_control);
    all
}

#[test]
fn request_text_is_laid_out_line_by_line() {
    let query =
        USB2SnesQuery::new(Command::GetAddress, Some(Space::SNES), strings(&["f5000a", "1"]));
    let expected = "{\n  \"Opcode\": \"GetAddress\",\n  \"Space\": \"SNES\",\n  \"Flags\": [],\n  \"Operands\": [\n    \"f5000a\",\n    \"1\"\n  ]\n}";
    assert_eq!(query.encode(), expected);
}

#[test]
fn request_without_space_has_no_space_member() {
    let query = USB2SnesQuery::new(Command::Info, None, vec![]);
    let expected = "{\n  \"Opcode\": \"Info\",\n  \"Flags\": [],\n  \"Operands\": []\n}";
    assert_eq!(query.encode(), expected);
}

#[test]
fn request_with_command_space() {
    let query = USB2SnesQuery::new(Command::PutFile, Some(Space::CMD), strings(&["/a", "10"]));
    let text = query.encode();
    let value: serde_json::Value = serde_json::from_str(&text).unwrap();
    assert_eq!(value["Space"].as_str(), Some("CMD"));
}

#[test]
fn every_command_travels_under_its_name() {
    for (command, name) in all_commands() {
        assert_eq!(command.name(), name);
        assert_eq!(command.to_string(), name);
        for space in [None, Some(Space::SNES), Some(Space::CMD)] {
            let operands = strings(&["first", "second", "third"]);
            let text = USB2SnesQuery::new(command, space, operands.clone()).encode();
            let value: serde_json::Value = serde_json::from_str(&text).unwrap();
            let object = value.as_object().unwrap();
            assert_eq!(object["Opcode"].as_str(), Some(name));
            let read: Vec<String> = object["Operands"]
                .as_array()
                .unwrap()
                .iter()
                .map(|v| v.as_str().unwrap().to_string())
                .collect();
            assert_eq!(read, operands);
            assert_eq!(object["Flags"].as_array().unwrap().len(), 0);
            assert_eq!(object.contains_key("Space"), space.is_some());
            if let Some(space) = space {
                assert_eq!(object["Space"].as_str(), Some(space.name()));
            }
        }
    }
}

#[test]
fn space_names() {
    assert_eq!(Space::SNES.name(), "SNES");
    assert_eq!(Space::CMD.name(), "CMD");
    assert_eq!(Space::SNES.to_string(), "SNES");
    assert_eq!(Space::CMD.to_string(), "CMD");
}

#[test]
fn command_spaces() {
    for (command, _) in all_commands() {
        let expected = match command {
            Command::List
            | Command::PutFile
            | Command::GetFile
            | Command::Rename
            | Command::Remove
            | Command::GetAddress => Some(Space::SNES),
            _ => None,
        };
        assert_eq!(command.space(), expected);
    }
}

#[test]
fn request_text_is_what_serde_json_writes() {
    for (command, name) in all_commands() {
        for operands in [vec![], strings(&["one"]), tricky_strings()] {
            for space in [None, Some(Space::SNES), Some(Space::CMD)] {
                let text = USB2SnesQuery::new(command, space, operands.clone()).encode();
                let space_name = space.map(|s| s.name());
                assert_eq!(text, reference_text(name, space_name, &operands));
            }
        }
    }
}

#[test]
fn encoding_twice_gives_the_same_text() {
    let operands = tricky_strings();
    let first = USB2SnesQuery::new(Command::List, Some(Space::SNES), operands.clone()).encode();
    let second = USB2SnesQuery::new(Command::List, Some(Space::SNES), operands).encode();
    assert_eq!(first.as_bytes(), second.as_bytes());
    let query = USB2SnesQuery::new(Command::Boot, None, strings(&["/game.sfc"]));
    assert_eq!(query.encode(), query.encode());
}

#[test]
fn request_is_read_back() {
    for (command, _) in all_commands() {
        for space in [None, Some(Space::SNES), Some(Space::CMD)] {
            let query = USB2SnesQuery::new(command, space, tricky_strings());
            let text = query.encode();
            assert_eq!(USB2SnesQuery::decode(&text), Some(query));
        }
    }
}

#[test]
fn request_with_flags_is_read_back() {
    let query = USB2SnesQuery {
        opcode: "PutFile".to_string(),
        space: Some("SNES".to_string()),
        flags: strings(&["NORESP", "64MB"]),
        operands: strings(&["/a.sfc", "400"]),
    };
    let text = query.encode();
    let expected = "{\n  \"Opcode\": \"PutFile\",\n  \"Space\": \"SNES\",\n  \"Flags\": [\n    \"NORESP\",\n    \"64MB\"\n  ],\n  \"Operands\": [\n    \"/a.sfc\",\n    \"400\"\n  ]\n}";
    assert_eq!(text, expected);
    assert_eq!(USB2SnesQuery::decode(&text), Some(query));
}

#[test]
fn request_decode_refuses_what_is_no_request() {
    let cases = [
        "",
        "{}",
        "{\"Opcode\":\"Info\"}",
        "{\"Opcode\":\"Info\",\"Flags\":[]}",
        "{\"Opcode\":\"Info\",\"Operands\":[]}",
        "{\"Flags\":[],\"Operands\":[]}",
        "{\"Opcode\":1,\"Flags\":[],\"Operands\":[]}",
        "{\"Opcode\":\"Info\",\"Flags\":\"\",\"Operands\":[]}",
        "{\"Opcode\":\"Info\",\"Flags\":[],\"Operands\":[1]}",
        "{\"Opcode\":\"Info\",\"Opcode\":\"Info\",\"Flags\":[],\"Operands\":[]}",
        "{\"Opcode\":\"Info\",\"Space\":5,\"Flags\":[],\"Operands\":[]}",
        "{\"Opcode\":\"Info\",\"Space\":\"SNES\",\"Space\":\"SNES\",\"Flags\":[],\"Operands\":[]}",
    ];
    for text in cases {
        assert_eq!(USB2SnesQuery::decode(text), None, "{}", text);
    }
}

#[test]
fn request_decode_takes_members_in_any_order() {
    let text = "{\"Operands\":[\"a\"],\"Extra\":{\"x\":[1,2,{}]},\"Flags\":[],\"Opcode\":\"List\"}";
    let expected = USB2SnesQuery {
        opcode: "List".to_string(),
        space: None,
        flags: vec![],
        operands: strings(&["a"]),
    };
    assert_eq!(USB2SnesQuery::decode(text), Some(expected));
}

#[test]
fn reply_round_trip_on_the_empty_list() {
    let reply = USB2SnesResult { results: vec![] };
    let text = reply.encode();
    assert_eq!(text, "{\n  \"Results\": []\n}");
    assert_eq!(USB2SnesResult::decode(&text), Ok(reply));
}

#[test]
fn reply_round_trip() {
    let lists = [
        vec![],
        strings(&[""]),
        strings(&["1.11.0", "FXPAK PRO STM32", "/sd2snes/m3nu.bin"]),
        strings(&["1", "a.txt", "0", "sub"]),
        tricky_strings(),
    ];
    for results in lists {
        let text = USB2SnesResult { results: results.clone() }.encode();
        assert_eq!(USB2SnesResult::decode(&text), Ok(USB2SnesResult { results: results.clone() }));
        assert_eq!(reference_results(&text), Some(results));
    }
}

#[test]
fn reply_text_layout() {
    let reply = USB2SnesResult { results: strings(&["a", "b"]) };
    assert_eq!(reply.encode(), "{\n  \"Results\": [\n    \"a\",\n    \"b\"\n  ]\n}");
}

#[test]
fn reply_from_serde_json_is_read() {
    for results in [vec![], strings(&["9c4"]), tricky_strings()] {
        let mut members = serde_json::Map::new();
        members.insert(
            "Results".to_string(),
            serde_json::Value::Array(
                results.iter().map(|s| serde_json::Value::String(s.clone())).collect(),
            ),
        );
        let value = serde_json::Value::Object(members);
        let compact = serde_json::to_string(&value).unwrap();
        let pretty = serde_json::to_string_pretty(&value).unwrap();
        let expected = Ok(USB2SnesResult { results: results.clone() });
        assert_eq!(USB2SnesResult::decode(&compact), expected);
        assert_eq!(USB2SnesResult::decode(&pretty), expected);
        assert_eq!(pretty, USB2SnesResult { results }.encode());
    }
}

#[test]
fn reply_decode_reads_compact_text() {
    let text = "{\"Results\":[\"1.11.0\",\"FXPAK PRO STM32\",\"/sd2snes/m3nu.bin\"]}";
    assert_eq!(
        USB2SnesResult::decode(text),
        Ok(USB2SnesResult {
            results: strings(&["1.11.0", "FXPAK PRO STM32", "/sd2snes/m3nu.bin"])
        })
    );
}

#[test]
fn reply_decode_allows_white_space() {
    let text = " \r\n\t{ \"Results\" \t:\n[ \"a\" ,\r\n \"b\" ] } \n";
    assert_eq!(USB2SnesResult::decode(text), Ok(USB2SnesResult { results: strings(&["a", "b"]) }));
    let empty = "{\"Results\":[ \n ]}";
    assert_eq!(USB2SnesResult::decode(empty), Ok(USB2SnesResult { results: vec![] }));
}

#[test]
fn reply_decode_reads_escapes() {
    let text = r#"{"Results":["\"\\\/\b\f\n\r\t","\u0041\u00e9\u65E5","\ud83c\udfae","\u0000"]}"#;
    let expected = vec![
        "\"\\/\u{8}\u{c}\n\r\t".to_string(),
        "A\u{e9}\u{65e5}".to_string(),
        "\u{1F3AE}".to_string(),
        "\u{0}".to_string(),
    ];
    assert_eq!(USB2SnesResult::decode(text), Ok(USB2SnesResult { results: expected.clone() }));
    assert_eq!(reference_results(text), Some(expected));
}

#[test]
fn reply_decode_passes_over_other_members() {
    let text = r#"{"Id":17,"Meta":{"a":[1,-2.5e+3,true,false,null,"x",{"b":{}}],"c":[]},"Results":["ok"],"After":"text","List":["a","b"],"Zero":0,"Exp":1E5,"Neg":-0.0}"#;
    assert_eq!(USB2SnesResult::decode(text), Ok(USB2SnesResult { results: strings(&["ok"]) }));
    assert_eq!(reference_results(text), Some(strings(&["ok"])));
}

#[test]
fn reply_decode_compares_keys_as_they_read() {
    let text = r#"{"\u0052esults":["a"]}"#;
    assert_eq!(USB2SnesResult::decode(text), Ok(USB2SnesResult { results: strings(&["a"]) }));
    let lower = r#"{"results":["a"]}"#;
    assert_eq!(USB2SnesResult::decode(lower), Err(Error::MalformedReply));
}

#[test]
fn reply_decode_refuses_malformed_text() {
    let cases = [
        "",
        " ",
        "null",
        "[]",
        "\"Results\"",
        "{",
        "}",
        "{}",
        "{\"Results\"}",
        "{\"Results\":}",
        "{\"Results\":[}",
        "{\"Results\":[\"a\"",
        "{\"Results\":[\"a\"]",
        "{\"Results\":[\"a\",]}",
        "{\"Results\":[,\"a\"]}",
        "{\"Results\":[\"a\" \"b\"]}",
        "{\"Results\":[\"a\"],}",
        "{,\"Results\":[\"a\"]}",
        "{\"Results\":[\"a\"]} x",
        "{\"Results\":[\"a\"]}{}",
        "{\"Results\":[\"unterminated]}",
        "{\"Results\":[\"bad \\x escape\"]}",
        "{\"Results\":[\"short \\u12\"]}",
        "{\"Results\":[\"not hex \\u12g4\"]}",
        "{\"Results\":[\"raw \n break\"]}",
        "{\"Results\":[\"raw \t tab\"]}",
        "{\"Results\":[\"lone \\ud83c\"]}",
        "{\"Results\":[\"lone \\udfae\"]}",
        "{\"Results\":[\"pair \\ud83c\\u0041\"]}",
        "{\"Results\":[\"pair \\ud83cx\"]}",
        "{'Results':['a']}",
        "{Results:[\"a\"]}",
        "{\"Results\":[\"a\"],\"x\":tru}",
        "{\"Results\":[\"a\"],\"x\":nul}",
        "{\"Results\":[\"a\"],\"x\":01}",
        "{\"Results\":[\"a\"],\"x\":1.}",
        "{\"Results\":[\"a\"],\"x\":.5}",
        "{\"Results\":[\"a\"],\"x\":-}",
        "{\"Results\":[\"a\"],\"x\":1e}",
        "{\"Results\":[\"a\"],\"x\":+1}",
        "{\"Results\":[\"a\"],\"x\":[1,]}",
        "{\"Results\":[\"a\"],\"x\":{\"y\"}}",
        "{\"Results\":[\"a\"],\"x\":{\"y\":1,}}",
        "{\"Results\":[\"a\"],\"x\":{1:2}}",
        "{\"Results\":[\"a\"],\"x\"}",
        "{\"Results\":[\"a\"] \"x\":1}",
    ];
    for text in cases {
        assert_eq!(USB2SnesResult::decode(text), Err(Error::MalformedReply), "{:?}", text);
        assert_eq!(reference_results(text), None, "{:?}", text);
    }
}

#[test]
fn reply_decode_refuses_what_is_no_reply() {
    let cases = [
        "{\"Other\":[\"a\"]}",
        "{\"Results\":null}",
        "{\"Results\":\"a\"}",
        "{\"Results\":7}",
        "{\"Results\":{}}",
        "{\"Results\":[1]}",
        "{\"Results\":[\"a\",2]}",
        "{\"Results\":[\"a\",null]}",
        "{\"Results\":[[\"a\"]]}",
        "{\"Results\":[{\"a\":\"b\"}]}",
    ];
    for text in cases {
        assert_eq!(USB2SnesResult::decode(text), Err(Error::MalformedReply), "{:?}", text);
        assert_eq!(reference_results(text), None, "{:?}", text);
    }
}

#[test]
fn reply_decode_refuses_results_given_twice() {
    let text = "{\"Results\":[\"a\"],\"Results\":[\"b\"]}";
    assert_eq!(USB2SnesResult::decode(text), Err(Error::MalformedReply));
}

#[test]
fn reply_decode_passes_over_values_however_deep() {
    let arrays =
        |n: usize| format!("{{\"x\":{}{},\"Results\":[]}}", "[".repeat(n), "]".repeat(n));
    let objects = |n: usize| {
        format!("{{\"x\":{}1{},\"Results\":[]}}", "{\"y\":".repeat(n), "}".repeat(n))
    };
    let empty = Ok(USB2SnesResult { results: vec![] });
    for n in [1usize, 2, 50, 126] {
        assert_eq!(USB2SnesResult::decode(&arrays(n)), empty, "{}", n);
        assert_eq!(USB2SnesResult::decode(&objects(n)), empty, "{}", n);
        assert_eq!(reference_results(&arrays(n)), Some(vec![]), "{}", n);
        assert_eq!(reference_results(&objects(n)), Some(vec![]), "{}", n);
    }
    for n in [127usize, 128, 1000, 200000] {
        assert_eq!(USB2SnesResult::decode(&arrays(n)), empty, "{}", n);
        assert_eq!(USB2SnesResult::decode(&objects(n)), empty, "{}", n);
    }
    let unbalanced = format!("{{\"x\":{}{},\"Results\":[]}}", "[".repeat(500), "]".repeat(499));
    assert_eq!(USB2SnesResult::decode(&unbalanced), Err(Error::MalformedReply));
    let mixed = format!("{{\"x\":{}{},\"Results\":[]}}", "[{\"a\":".repeat(300), "}]".repeat(300));
    assert_eq!(USB2SnesResult::decode(&mixed), Err(Error::MalformedReply));
    let mixed = format!("{{\"x\":{}0{},\"Results\":[]}}", "[{\"a\":".repeat(300), "}]".repeat(300));
    assert_eq!(USB2SnesResult::decode(&mixed), empty);
    let crossed = "{\"x\":[{\"a\":1]},\"Results\":[]}";
    assert_eq!(USB2SnesResult::decode(crossed), Err(Error::MalformedReply));
}

#[test]
fn reply_decode_holds_what_it_passes_over_to_the_grammar_only() {
    let lone = "{\"x\":\"\\ud83c\",\"Results\":[\"a\"]}";
    assert_eq!(USB2SnesResult::decode(lone), Ok(USB2SnesResult { results: strings(&["a"]) }));
    let nested = "{\"x\":[{\"\\udfae\":\"\\udfae\\ud83c\"}],\"Results\":[\"a\"]}";
    assert_eq!(USB2SnesResult::decode(nested), Ok(USB2SnesResult { results: strings(&["a"]) }));
    let in_list = "{\"x\":[\"\\ud83c\"],\"Results\":[\"a\"]}";
    assert_eq!(USB2SnesResult::decode(in_list), Ok(USB2SnesResult { results: strings(&["a"]) }));
    let bad_escape = "{\"x\":\"\\q\",\"Results\":[\"a\"]}";
    assert_eq!(USB2SnesResult::decode(bad_escape), Err(Error::MalformedReply));
    let short_escape = "{\"x\":[\"\\u12\"],\"Results\":[\"a\"]}";
    assert_eq!(USB2SnesResult::decode(short_escape), Err(Error::MalformedReply));
    let raw_control = "{\"x\":{\"k\":\"a\nb\"},\"Results\":[\"a\"]}";
    assert_eq!(USB2SnesResult::decode(raw_control), Err(Error::MalformedReply));
    let lone_key = "{\"\\ud83c\":1,\"Results\":[\"a\"]}";
    assert_eq!(USB2SnesResult::decode(lone_key), Err(Error::MalformedReply));
    let lone_result = "{\"Results\":[\"\\ud83c\"]}";
    assert_eq!(USB2SnesResult::decode(lone_result), Err(Error::MalformedReply));
}

#[test]
fn object_members_are_read_with_their_kind() {
    let text = r#"{"a":"text","b":["x","y"],"c":[],"d":[1],"e":null,"f":{"g":"h"}}"#;
    let pairs = read_object(text).unwrap();
    let expected = vec![
        Pair { key: "a".to_string(), value: Some(Value::Text("text".to_string())) },
        Pair { key: "b".to_string(), value: Some(Value::List(strings(&["x", "y"]))) },
        Pair { key: "c".to_string(), value: Some(Value::List(vec![])) },
        Pair { key: "d".to_string(), value: None },
        Pair { key: "e".to_string(), value: None },
        Pair { key: "f".to_string(), value: None },
    ];
    assert_eq!(pairs, expected);
    assert_eq!(read_object("{}"), Some(vec![]));
    assert_eq!(read_object(" { } "), Some(vec![]));
    assert_eq!(read_object("[]"), None);
}

#[test]
fn error_messages() {
    assert_eq!(Error::MalformedReply.to_string(), "malformed reply");
    assert_eq!(Error::OutOfBounds.to_string(), "reply holds too few results");
    assert_eq!(Error::Overrun.to_string(), "more bytes received than requested");
}
