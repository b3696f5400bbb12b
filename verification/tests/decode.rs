use webhook_ingest::event::{decode, decode_json, encode, Commit, DecodeError, Event};
use webhook_ingest::json::{parse, Json};

fn text(s: &str) -> Json {
    Json::Text(s.to_string())
}

fn object(entries: Vec<(&str, Json)>) -> Json {
    Json::Object(entries.into_iter().map(|(k, v)| (k.to_string(), v)).collect())
}

fn missing(name: &str) -> Result<Event, DecodeError> {
    Err(DecodeError::MissingField(name.to_string()))
}

fn commit(id: &str, message: &str, distinct: bool) -> Commit {
    Commit { id: id.to_string(), message: message.to_string(), distinct }
}

#[test]
fn push_payload_decodes() {
    let body = br#"{"before":"abc123","commits":[{"id":"c1","message":"m","distinct":true}]}"#;
    assert_eq!(
        decode(body),
        Ok(Event::Push { before: "abc123".to_string(), commits: vec![commit("c1", "m", true)] })
    );
}

#[test]
fn commits_keep_their_order() {
    let body = br#"{"commits":[
        {"id":"3","message":"third","distinct":false},
        {"id":"1","message":"first","distinct":true},
        {"id":"2","message":"second","distinct":true}
    ],"before":"0000"}"#;
    assert_eq!(
        decode(body),
        Ok(Event::Push {
            before: "0000".to_string(),
            commits: vec![
                commit("3", "third", false),
                commit("1", "first", true),
                commit("2", "second", true)
            ],
        })
    );
}

#[test]
fn push_without_commits_in_it_decodes() {
    assert_eq!(
        decode(br#"{"before":"abc123","commits":[]}"#),
        Ok(Event::Push { before: "abc123".to_string(), commits: vec![] })
    );
}

#[test]
fn unknown_fields_are_ignored() {
    let body = br#"{"ref":"refs/heads/main","before":"abc123","after":"def456","size":3,
        "commits":[{"id":"c1","url":"https://example.org","message":"m","distinct":true,"added":[]}],
        "pusher":{"name":"someone"},"action":"ignored for a push"}"#;
    assert_eq!(
        decode(body),
        Ok(Event::Push { before: "abc123".to_string(), commits: vec![commit("c1", "m", true)] })
    );
}

#[test]
fn escapes_in_strings_are_read() {
    let body = r#"{"before":"a\"b\\cé\n\u00e9","commits":[]}"#;
    assert_eq!(
        decode(body.as_bytes()),
        Ok(Event::Push { before: "a\"b\\c\u{e9}\n\u{e9}".to_string(), commits: vec![] })
    );
}

#[test]
fn generic_payload_decodes() {
    assert_eq!(
        decode(br#"{"action":"hello world"}"#),
        Ok(Event::Generic { action: "hello world".to_string() })
    );
    assert_eq!(
        decode(br#"{"zen":"Keep it simple","action":"opened","number":7}"#),
        Ok(Event::Generic { action: "opened".to_string() })
    );
}

#[test]
fn other_objects_are_unrecognized() {
    assert_eq!(decode(b"{}"), Ok(Event::Unrecognized));
    assert_eq!(decode(br#"{"zen":"Keep it simple","hook_id":1}"#), Ok(Event::Unrecognized));
    assert_eq!(decode(br#"  {"Before":"wrong case"}  "#), Ok(Event::Unrecognized));
}

#[test]
fn non_json_is_malformed() {
    let bodies: [&[u8]; 12] = [
        b"",
        b" ",
        b"not json",
        b"{",
        b"}",
        b"{\"before\":",
        b"{'before':'abc'}",
        b"{\"before\":\"abc\",}",
        b"\xff\xfe",
        b"{\"before\":\"\xff\"}",
        b"<xml/>",
        b"{\"a\":1}{\"b\":2}",
    ];
    for body in bodies {
        assert_eq!(decode(body), Err(DecodeError::Malformed), "{:?}", body);
    }
}

#[test]
fn truncated_payload_is_malformed() {
    let whole = br#"{"before":"abc123","commits":[{"id":"c1","message":"m","distinct":true}]}"#;
    for cut in 0..whole.len() {
        assert_eq!(decode(&whole[..cut]), Err(DecodeError::Malformed), "cut at {}", cut);
    }
}

#[test]
fn trailing_text_is_malformed() {
    assert_eq!(decode(br#"{"action":"x"} trailing"#), Err(DecodeError::Malformed));
}

#[test]
fn json_that_is_no_object_is_malformed() {
    let bodies: [&[u8]; 6] = [b"null", b"true", b"12", b"\"before\"", b"[]", b"[{\"action\":\"x\"}]"];
    for body in bodies {
        assert_eq!(decode(body), Err(DecodeError::Malformed), "{:?}", body);
    }
}

#[test]
fn deeply_nested_payload_is_malformed() {
    let mut body = Vec::new();
    for _ in 0..1000 {
        body.push(b'[');
    }
    for _ in 0..1000 {
        body.push(b']');
    }
    assert_eq!(decode(&body), Err(DecodeError::Malformed));
}

#[test]
fn missing_fields_are_named() {
    assert_eq!(decode(br#"{"commits":[]}"#), missing("before"));
    assert_eq!(decode(br#"{"before":"abc123"}"#), missing("commits"));
    assert_eq!(
        decode(br#"{"before":"a","commits":[{"message":"m","distinct":true}]}"#),
        missing("id")
    );
    assert_eq!(
        decode(br#"{"before":"a","commits":[{"id":"c1","distinct":true}]}"#),
        missing("message")
    );
    assert_eq!(
        decode(br#"{"before":"a","commits":[{"id":"c1","message":"m"}]}"#),
        missing("distinct")
    );
    assert_eq!(decode(br#"{"before":"a","commits":[{}]}"#), missing("id"));
}

#[test]
fn the_first_failure_is_reported() {
    // `before` is looked for before `commits`
    assert_eq!(decode(br#"{"commits":"not an array"}"#), missing("before"));
    // the first commit that fails decides
    assert_eq!(
        decode(
            br#"{"before":"a","commits":[{"id":"1","message":"m","distinct":true},{"id":"2","message":"m"},{"id":3}]}"#
        ),
        missing("distinct")
    );
    assert_eq!(
        decode(br#"{"before":"a","commits":[{"id":1},{"message":"m"}]}"#),
        Err(DecodeError::Malformed)
    );
}

#[test]
fn values_of_the_wrong_kind_are_malformed() {
    let bodies: [&[u8]; 9] = [
        br#"{"before":1,"commits":[]}"#,
        br#"{"before":null,"commits":[]}"#,
        br#"{"before":"a","commits":{}}"#,
        br#"{"before":"a","commits":null}"#,
        br#"{"before":"a","commits":["c1"]}"#,
        br#"{"before":"a","commits":[{"id":1,"message":"m","distinct":true}]}"#,
        br#"{"before":"a","commits":[{"id":"1","message":["m"],"distinct":true}]}"#,
        br#"{"before":"a","commits":[{"id":"1","message":"m","distinct":"true"}]}"#,
        br#"{"action":{"name":"opened"}}"#,
    ];
    for body in bodies {
        assert_eq!(decode(body), Err(DecodeError::Malformed), "{:?}", body);
    }
}

#[test]
fn parse_carries_every_kind_of_value_over() {
    let json = parse(br#"{"s":"text","t":true,"f":false,"z":null,"n":-12,"x":1.5,"a":[1,"two",[]],"o":{"k":{}}}"#)
        .unwrap();
    assert_eq!(json.field("s"), Some(&text("text")));
    assert_eq!(json.field("t"), Some(&Json::Bool(true)));
    assert_eq!(json.field("f"), Some(&Json::Bool(false)));
    assert_eq!(json.field("z"), Some(&Json::Null));
    assert_eq!(json.field("n"), Some(&Json::Number("-12".to_string())));
    assert_eq!(json.field("x"), Some(&Json::Number("1.5".to_string())));
    assert_eq!(
        json.field("a"),
        Some(&Json::Array(vec![Json::Number("1".to_string()), text("two"), Json::Array(vec![])]))
    );
    assert_eq!(json.field("o"), Some(&object(vec![("k", object(vec![]))])));
    assert_eq!(json.field("missing"), None);
    assert_eq!(json.field("S"), None);
}

#[test]
fn parse_refuses_what_is_no_document() {
    assert_eq!(parse(b""), None);
    assert_eq!(parse(b"{"), None);
    assert_eq!(parse(b"nul"), None);
    assert_eq!(parse(b"1 2"), None);
    assert_eq!(parse(b"12"), Some(Json::Number("12".to_string())));
    assert_eq!(parse(b" \"a\" "), Some(text("a")));
}

#[test]
fn a_repeated_key_counts_once() {
    assert_eq!(
        decode(br#"{"action":"first","action":"last"}"#),
        Ok(Event::Generic { action: "last".to_string() })
    );
}

#[test]
fn field_finds_the_first_entry_of_a_name() {
    let json = object(vec![("a", text("one")), ("b", text("two")), ("a", text("three"))]);
    assert_eq!(json.field("a"), Some(&text("one")));
    assert_eq!(json.field("b"), Some(&text("two")));
    assert_eq!(json.field("c"), None);
    assert_eq!(text("a").field("a"), None);
    assert_eq!(Json::Array(vec![text("a")]).field("a"), None);
}

#[test]
fn decode_json_reads_a_document() {
    let push = object(vec![
        ("commits", Json::Array(vec![object(vec![
            ("distinct", Json::Bool(false)),
            ("id", text("c9")),
            ("message", text("fix")),
        ])])),
        ("before", text("abc")),
    ]);
    assert_eq!(
        decode_json(&push),
        Ok(Event::Push { before: "abc".to_string(), commits: vec![commit("c9", "fix", false)] })
    );
    assert_eq!(decode_json(&object(vec![("before", text("abc"))])), missing("commits"));
    assert_eq!(decode_json(&object(vec![("before", Json::Null)])), Err(DecodeError::Malformed));
    assert_eq!(
        decode_json(&object(vec![("action", text("opened"))])),
        Ok(Event::Generic { action: "opened".to_string() })
    );
    assert_eq!(
        decode_json(&object(vec![("action", Json::Bool(true))])),
        Err(DecodeError::Malformed)
    );
    assert_eq!(decode_json(&object(vec![])), Ok(Event::Unrecognized));
    assert_eq!(decode_json(&Json::Null), Err(DecodeError::Malformed));
    assert_eq!(decode_json(&Json::Array(vec![])), Err(DecodeError::Malformed));
}

#[test]
fn encode_writes_the_fields_of_an_event() {
    let event = Event::Push { before: "abc".to_string(), commits: vec![commit("c1", "m", true)] };
    assert_eq!(
        encode(&event),
        object(vec![
            ("before", text("abc")),
            ("commits", Json::Array(vec![object(vec![
                ("id", text("c1")),
                ("message", text("m")),
                ("distinct", Json::Bool(true)),
            ])])),
        ])
    );
    assert_eq!(
        encode(&Event::Generic { action: "opened".to_string() }),
        object(vec![("action", text("opened"))])
    );
    assert_eq!(encode(&Event::Unrecognized), object(vec![]));
}

#[test]
fn decoding_then_encoding_keeps_the_fields() {
    let bodies: [&[u8]; 4] = [
        br#"{"before":"abc123","commits":[{"id":"c1","message":"m","distinct":true}]}"#,
        br#"{"ref":"r","commits":[{"distinct":false,"message":"","id":"x","extra":1},{"id":"y","message":"two\nlines","distinct":true}],"before":""}"#,
        br#"{"action":"opened","sender":{}}"#,
        br#"{"zen":"z"}"#,
    ];
    for body in bodies {
        let event = decode(body).unwrap();
        let again = decode_json(&encode(&event)).unwrap();
        assert_eq!(again, event);
    }
    let event = decode(bodies[1]).unwrap();
    let document = encode(&event);
    assert_eq!(document.field("before"), Some(&text("")));
    match document.field("commits") {
        Some(Json::Array(items)) => {
            assert_eq!(items.len(), 2);
            assert_eq!(items[0].field("id"), Some(&text("x")));
            assert_eq!(items[0].field("message"), Some(&text("")));
            assert_eq!(items[0].field("distinct"), Some(&Json::Bool(false)));
            assert_eq!(items[1].field("id"), Some(&text("y")));
            assert_eq!(items[1].field("message"), Some(&text("two\nlines")));
            assert_eq!(items[1].field("distinct"), Some(&Json::Bool(true)));
        }
        other => panic!("commits: {:?}", other),
    }
}

/// Writes a document as `serde_json` does.
fn written(json: &Json) -> Vec<u8> {
    fn value(json: &Json) -> serde_json::Value {
        match json {
            Json::Null => serde_json::Value::Null,
            Json::Bool(b) => serde_json::Value::Bool(*b),
            Json::Number(n) => serde_json::Value::Number(n.parse().unwrap()),
            Json::Text(s) => serde_json::Value::String(s.clone()),
            Json::Array(items) => serde_json::Value::Array(items.iter().map(value).collect()),
            Json::Object(entries) => serde_json::Value::Object(
                entries.iter().map(|(k, v)| (k.clone(), value(v))).collect(),
            ),
        }
    }
    serde_json::to_vec(&value(json)).unwrap()
}

#[test]
fn an_event_survives_being_written_and_read() {
    let events = [
        Event::Push { before: "abc123".to_string(), commits: vec![commit("c1", "m", true)] },
        Event::Push {
            before: "quote \" backslash \\ newline \n tab \t \u{e9} \u{1f600}".to_string(),
            commits: vec![commit("", "", false), commit("id", "two\nlines", true)],
        },
        Event::Push { before: String::new(), commits: vec![] },
        Event::Generic { action: "opened".to_string() },
        Event::Unrecognized,
    ];
    for event in events {
        let bytes = written(&encode(&event));
        assert_eq!(decode(&bytes), Ok(event));
    }
}

#[test]
fn parse_reads_what_serde_json_writes() {
    let document = object(vec![
        ("a", Json::Array(vec![Json::Null, Json::Bool(true), Json::Number("-7".to_string())])),
        ("b", object(vec![("c", text("d"))])),
    ]);
    assert_eq!(parse(&written(&document)), Some(document));
}
