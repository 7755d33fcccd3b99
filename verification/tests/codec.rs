use lspz::compact::{
    compress, decode_ranges, decompress, encode_range, encode_ranges_with_delta, encode_tags,
    group_by_key, CompactDiagnostic, CompactDiagnostics, CompactSeverity, CompressedEntry,
};
use lspz::error::LspzError;
use lspz::framing::{
    parse_content_length, parse_content_length_from_header, parse_frame, serialize_frame,
    FrameReader, MAX_BODY_SIZE,
};
use lspz::json::Json;
use lspz::json_rpc::{parse_message, LspMessage};
use lspz::proxy::{ensure_method, extract_method};
use lspz::toon::{
    completions_to_toon, diagnostics_to_toon, escape_csv, hover_to_toon, severity_to_str,
    symbols_to_toon,
};

fn to_json(v: &serde_json::Value) -> Json {
    match v {
        serde_json::Value::Null => Json::Null,
        serde_json::Value::Bool(b) => Json::Bool(*b),
        serde_json::Value::Number(n) => {
            if let Some(i) = n.as_i64() {
                Json::Int(i)
            } else if let Some(u) = n.as_u64() {
                Json::UInt(u)
            } else {
                Json::Float(n.to_string())
            }
        }
        serde_json::Value::String(s) => Json::Str(s.clone()),
        serde_json::Value::Array(a) => Json::Array(a.iter().map(to_json).collect()),
        serde_json::Value::Object(o) => {
            Json::Object(o.iter().map(|(k, v)| (k.clone(), to_json(v))).collect())
        }
    }
}

fn to_value(j: &Json) -> serde_json::Value {
    match j {
        Json::Null => serde_json::Value::Null,
        Json::Bool(b) => serde_json::Value::Bool(*b),
        Json::Int(i) => serde_json::Value::from(*i),
        Json::UInt(u) => serde_json::Value::from(*u),
        Json::Float(s) => serde_json::from_str(s).unwrap(),
        Json::Str(s) => serde_json::Value::String(s.clone()),
        Json::Array(a) => serde_json::Value::Array(a.iter().map(to_value).collect()),
        Json::Object(o) => {
            let mut m = serde_json::Map::new();
            for (k, v) in o {
                m.insert(k.clone(), to_value(v));
            }
            serde_json::Value::Object(m)
        }
    }
}

fn parse(text: &str) -> Json {
    to_json(&serde_json::from_str::<serde_json::Value>(text).unwrap())
}

fn val(text: &str) -> serde_json::Value {
    serde_json::from_str(text).unwrap()
}

fn frame(body: &str) -> Vec<u8> {
    serialize_frame(body.as_bytes())
}

fn req_body(method: &str, id: i64) -> String {
    format!(r#"{{"jsonrpc":"2.0","id":{id},"method":"{method}","params":null}}"#)
}

fn not_body(method: &str) -> String {
    format!(r#"{{"jsonrpc":"2.0","method":"{method}","params":null}}"#)
}

fn body_json(body: &[u8]) -> Json {
    to_json(&serde_json::from_slice::<serde_json::Value>(body).unwrap())
}

/// The frame of a message.
fn message_bytes(msg: &LspMessage) -> Vec<u8> {
    serialize_frame(&msg.to_json_bytes().unwrap())
}

fn message_from_frame(bytes: &[u8]) -> LspMessage {
    LspMessage::from_frame_bytes(bytes).unwrap()
}

// ── TOON ────────────────────────────────────────────────────────────────

fn sample_compact_diagnostics() -> CompactDiagnostics {
    CompactDiagnostics {
        version: 1,
        uri: "file:///test.rs".into(),
        diagnostics: vec![
            CompactDiagnostic {
                m: "unused variable: `x`".into(),
                s: CompactSeverity::W,
                r: vec![[10, 5, 10, 15], [1, 0, 1, 0]],
                c: Some("unused_variables".into()),
                t: Some("U".into()),
                n: 2,
            },
            CompactDiagnostic {
                m: "cannot find value `y` in this scope".into(),
                s: CompactSeverity::E,
                r: vec![[20, 0, 20, 10]],
                c: Some("E0425".into()),
                t: None,
                n: 1,
            },
            CompactDiagnostic {
                m: "consider using a type alias".into(),
                s: CompactSeverity::H,
                r: vec![[30, 0, 30, 15]],
                c: None,
                t: None,
                n: 1,
            },
        ],
    }
}

#[test]
fn test_diagnostics_to_toon() {
    let diags = sample_compact_diagnostics();
    let toon = diagnostics_to_toon(&diags);

    assert!(toon.contains("uri: file:///test.rs"));
    assert!(toon.contains("diagnostics[3]{severity,message,code,range,count}:"));
    assert!(toon.contains("warning"));
    assert!(toon.contains("error"));
    assert!(toon.contains("hint"));
    assert!(toon.contains("unused variable: `x`"));
    assert!(toon.contains("unused_variables"));
    assert!(toon.contains("10:5-10:15"));
    assert!(toon.contains("11:5-11:15"));
    assert!(toon.contains(",2"));
    assert!(toon.contains(",1"));
}

#[test]
fn test_diagnostics_empty() {
    let diags = CompactDiagnostics { version: 1, uri: "file:///empty.rs".into(), diagnostics: vec![] };
    let toon = diagnostics_to_toon(&diags);
    assert!(toon.contains("diagnostics[0]{"));
}

fn sample_compact_completions() -> Json {
    parse(
        r#"{
            "version": 1,
            "incomplete": false,
            "items": [
                {"l": "push", "k": "F", "d": "fn push(&mut self, value: T)", "doc": "Adds element to back"},
                {"l": "pop", "k": "F", "d": "fn pop(&mut self) -> Option<T>"},
                {"l": "len", "k": "M", "d": "fn len(&self) -> usize", "dep": true},
                {"l": "is_empty", "k": "M", "d": "fn is_empty(&self) -> bool", "dep": true}
            ]
        }"#,
    )
}

#[test]
fn test_completions_to_toon() {
    let value = sample_compact_completions();
    let toon = completions_to_toon(&value).unwrap();

    assert!(toon.contains("incomplete: false"));
    assert!(toon.contains("completions[4]{"));
    assert!(toon.contains("push,function"));
    assert!(toon.contains("fn push(&mut self, value: T)"));
    assert!(toon.contains(",true"));
}

#[test]
fn test_completions_missing_items() {
    let value = parse(r#"{"version": 1}"#);
    assert!(completions_to_toon(&value).is_err());
}

#[test]
fn test_hover_to_toon() {
    let value = parse(
        r#"{"c": {"k": "m", "v": "```rust\nfn push(&mut self, value: T)\n```\n\nAppends an element."}}"#,
    );
    let toon = hover_to_toon(&value).unwrap();

    assert!(toon.contains("kind: markdown"));
    assert!(toon.contains("value:"));
    assert!(toon.contains("```rust\\nfn push"));
}

#[test]
fn test_hover_with_range() {
    let value = parse(r#"{"c": {"k": "m", "v": "test"}, "r": {"s": {"l": 0, "c": 5}, "e": {"l": 10, "c": 15}}}"#);
    let toon = hover_to_toon(&value).unwrap();
    assert!(toon.contains("range: 0:5-10:15"));
}

#[test]
fn test_hover_missing_contents() {
    let value = parse("{}");
    assert!(hover_to_toon(&value).is_err());
}

fn sample_compact_symbols() -> Json {
    parse(
        r#"{
            "version": 1,
            "items": [
                {
                    "n": "MyStruct",
                    "k": "t",
                    "r": {"s": {"l": 0, "c": 0}, "e": {"l": 10, "c": 1}},
                    "d": "A test struct",
                    "c": [
                        {"n": "field1", "k": "f", "r": {"s": {"l": 1, "c": 4}, "e": {"l": 1, "c": 11}}},
                        {"n": "field2", "k": "f", "r": {"s": {"l": 2, "c": 4}, "e": {"l": 2, "c": 11}}}
                    ]
                },
                {
                    "n": "main",
                    "k": "u",
                    "r": {"s": {"l": 12, "c": 0}, "e": {"l": 20, "c": 1}}
                }
            ]
        }"#,
    )
}

#[test]
fn test_symbols_to_toon() {
    let value = sample_compact_symbols();
    let toon = symbols_to_toon(&value).unwrap();

    assert!(toon.contains("symbols[4]{"));
    assert!(toon.contains("MyStruct,struct"));
    assert!(toon.contains("MyStruct.field1,field"));
    assert!(toon.contains("MyStruct.field2,field"));
    assert!(toon.contains("main,function"));
    assert!(toon.contains("A test struct"));
}

#[test]
fn test_symbols_empty() {
    let value = parse(r#"{"version": 1, "items": []}"#);
    let toon = symbols_to_toon(&value).unwrap();
    assert!(toon.contains("symbols[0]{"));
}

#[test]
fn test_symbols_missing_items() {
    let value = parse(r#"{"version": 1}"#);
    assert!(symbols_to_toon(&value).is_err());
}

#[test]
fn test_escape_csv() {
    assert_eq!(escape_csv("hello"), "hello");
    assert_eq!(escape_csv("he,llo"), r#""he,llo""#);
    assert_eq!(escape_csv(r#"he"llo"#), r#""he""llo""#);
    assert_eq!(escape_csv("he\nllo"), "he\\nllo");
}

#[test]
fn test_severity_mapping() {
    assert_eq!(severity_to_str(CompactSeverity::E), "error");
    assert_eq!(severity_to_str(CompactSeverity::W), "warning");
    assert_eq!(severity_to_str(CompactSeverity::I), "info");
    assert_eq!(severity_to_str(CompactSeverity::H), "hint");
}

// ── Content-Length parsing ─────────────────────────────────────────────

#[test]
fn proxy_test_parse_content_length() {
    let header = "Content-Length: 42\r\n\r\n";
    assert_eq!(parse_content_length(header).unwrap(), 42);
}

#[test]
fn proxy_test_missing_content_length() {
    let header = "\r\n\r\n";
    assert!(parse_content_length(header).is_err());
}

#[test]
fn test_invalid_content_length_value() {
    let header = "Content-Length: abc\r\n\r\n";
    assert!(parse_content_length(header).is_err());
}

#[test]
fn test_parse_content_length_basic() {
    let header = "Content-Length: 47\r\n\r\n";
    assert_eq!(parse_content_length(header).unwrap(), 47);
}

#[test]
fn framing_test_parse_content_length_case_insensitive() {
    let header = "content-length: 128\r\n\r\n";
    assert_eq!(parse_content_length(header).unwrap(), 128);
}

#[test]
fn framing_test_parse_content_length_whitespace() {
    let header = "Content-Length:   99   \r\n\r\n";
    assert_eq!(parse_content_length(header).unwrap(), 99);
}

#[test]
fn framing_test_missing_content_length() {
    let header = "\r\n\r\n";
    match parse_content_length(header) {
        Err(LspzError::Protocol(msg)) => assert!(msg.contains("missing")),
        _ => panic!("expected Protocol error"),
    }
}

#[test]
fn framing_test_invalid_content_length() {
    let header = "Content-Length: abc\r\n\r\n";
    match parse_content_length(header) {
        Err(LspzError::Protocol(msg)) => assert!(msg.contains("invalid")),
        _ => panic!("expected Protocol error"),
    }
}

#[test]
fn stdio_test_parse_content_length() {
    let header = "Content-Length: 47\r\n\r\n";
    assert_eq!(parse_content_length_from_header(header).unwrap(), 47);
}

#[test]
fn stdio_test_parse_content_length_case_insensitive() {
    let header = "content-length: 128\r\n\r\n";
    assert_eq!(parse_content_length_from_header(header).unwrap(), 128);
}

#[test]
fn stdio_test_parse_content_length_whitespace() {
    let header = "Content-Length:   99   \r\n\r\n";
    assert_eq!(parse_content_length_from_header(header).unwrap(), 99);
}

#[test]
fn stdio_test_missing_content_length() {
    let header = "\r\n\r\n";
    match parse_content_length_from_header(header) {
        Err(LspzError::Protocol(msg)) => assert!(msg.contains("missing")),
        _ => panic!("expected Protocol error"),
    }
}

#[test]
fn stdio_test_invalid_content_length() {
    let header = "Content-Length: abc\r\n\r\n";
    match parse_content_length_from_header(header) {
        Err(LspzError::Protocol(msg)) => assert!(msg.contains("invalid")),
        _ => panic!("expected Protocol error"),
    }
}

#[test]
fn content_length_error_messages_exact() {
    match parse_content_length("Content-Length: abc\r\n\r\n") {
        Err(LspzError::Protocol(msg)) => assert_eq!(msg, "invalid Content-Length: abc"),
        _ => panic!("expected Protocol error"),
    }
    match parse_content_length("X-Other: 1\r\n\r\n") {
        Err(LspzError::Protocol(msg)) => assert_eq!(msg, "missing Content-Length header"),
        _ => panic!("expected Protocol error"),
    }
}

// ── Compact diagnostics ─────────────────────────────────────────────────

fn sample_diagnostics_json() -> Json {
    parse(
        r#"{
            "uri": "file:///test.rs",
            "diagnostics": [
                {
                    "range": {"start": {"line": 10, "character": 5}, "end": {"line": 10, "character": 15}},
                    "severity": 2,
                    "message": "unused variable: `x`",
                    "code": "unused_variables",
                    "source": "rust-analyzer",
                    "tags": [1]
                },
                {
                    "range": {"start": {"line": 11, "character": 5}, "end": {"line": 11, "character": 15}},
                    "severity": 2,
                    "message": "unused variable: `x`",
                    "code": "unused_variables",
                    "source": "rust-analyzer",
                    "tags": [1]
                },
                {
                    "range": {"start": {"line": 20, "character": 0}, "end": {"line": 20, "character": 10}},
                    "severity": 1,
                    "message": "cannot find value `y` in this scope",
                    "code": "E0425",
                    "source": "rust-analyzer"
                }
            ]
        }"#,
    )
}

#[test]
fn test_encode_range() {
    let range = parse(r#"{"start": {"line": 10, "character": 5}, "end": {"line": 10, "character": 15}}"#);
    assert_eq!(encode_range(&range).unwrap(), [10, 5, 10, 15]);
}

#[test]
fn test_encode_ranges_with_delta() {
    let ranges = vec![
        parse(r#"{"start": {"line": 10, "character": 5}, "end": {"line": 10, "character": 15}}"#),
        parse(r#"{"start": {"line": 11, "character": 5}, "end": {"line": 11, "character": 15}}"#),
        parse(r#"{"start": {"line": 12, "character": 5}, "end": {"line": 12, "character": 15}}"#),
    ];
    let encoded = encode_ranges_with_delta(ranges);
    assert_eq!(encoded[0], [10, 5, 10, 15]);
    assert_eq!(encoded[1], [1, 0, 1, 0]);
    assert_eq!(encoded[2], [1, 0, 1, 0]);
}

#[test]
fn test_decode_range_roundtrip() {
    let ranges = vec![
        parse(r#"{"start": {"line": 10, "character": 5}, "end": {"line": 10, "character": 15}}"#),
        parse(r#"{"start": {"line": 15, "character": 0}, "end": {"line": 15, "character": 10}}"#),
    ];
    let encoded = encode_ranges_with_delta(ranges);
    let decoded = decode_ranges(&encoded);
    assert_eq!(decoded[0], [10, 5, 10, 15]);
    assert_eq!(decoded[1], [15, 0, 15, 10]);
}

#[test]
fn test_severity_roundtrip() {
    assert_eq!(CompactSeverity::from_lsp(1), Some(CompactSeverity::E));
    assert_eq!(CompactSeverity::from_lsp(2), Some(CompactSeverity::W));
    assert_eq!(CompactSeverity::from_lsp(3), Some(CompactSeverity::I));
    assert_eq!(CompactSeverity::from_lsp(4), Some(CompactSeverity::H));
    assert_eq!(CompactSeverity::from_lsp(5), None);

    assert_eq!(CompactSeverity::E.to_lsp(), 1);
    assert_eq!(CompactSeverity::W.to_lsp(), 2);
    assert_eq!(CompactSeverity::I.to_lsp(), 3);
    assert_eq!(CompactSeverity::H.to_lsp(), 4);
}

#[test]
fn test_encode_tags() {
    assert_eq!(encode_tags(&[]), None);
    assert_eq!(encode_tags(&[Json::Int(1)]), Some("U".to_string()));
    assert_eq!(encode_tags(&[Json::Int(2)]), Some("D".to_string()));
    assert_eq!(encode_tags(&[Json::Int(1), Json::Int(2)]), Some("U,D".to_string()));
}

#[test]
fn compact_test_compress_basic() {
    let params = sample_diagnostics_json();
    let compact_val = to_value(&compress(&params).unwrap());

    assert_eq!(compact_val["version"], 1);
    assert_eq!(compact_val["uri"], "file:///test.rs");

    let diags = compact_val["diagnostics"].as_array().unwrap();
    assert!(!diags.is_empty());
}

#[test]
fn test_compress_and_decompress_roundtrip() {
    let params = sample_diagnostics_json();
    let compact_json = compress(&params).unwrap();
    let compact = CompactDiagnostics::from_json(&compact_json).unwrap();
    assert_eq!(compact.version, 1);
    assert_eq!(compact.uri, "file:///test.rs");

    let decompressed = to_value(&decompress(&compact_json).unwrap());
    assert_eq!(decompressed["uri"], "file:///test.rs");
    assert!(decompressed["diagnostics"].as_array().unwrap().len() >= 3);
}

#[test]
fn test_group_by_key() {
    let entries = vec![
        CompressedEntry {
            message: "unused var".into(),
            severity: CompactSeverity::W,
            code: Some("W001".into()),
            tags: None,
            ranges: vec![[10, 5, 10, 15]],
            count: 1,
        },
        CompressedEntry {
            message: "unused var".into(),
            severity: CompactSeverity::W,
            code: Some("W001".into()),
            tags: None,
            ranges: vec![[20, 5, 20, 15]],
            count: 1,
        },
        CompressedEntry {
            message: "type error".into(),
            severity: CompactSeverity::E,
            code: None,
            tags: None,
            ranges: vec![[30, 0, 30, 10]],
            count: 1,
        },
    ];

    let grouped = group_by_key(entries);
    assert_eq!(grouped.len(), 2);

    for entry in &grouped {
        if entry.message == "unused var" {
            assert_eq!(entry.count, 2);
            assert_eq!(entry.ranges.len(), 2);
        }
    }
}

#[test]
fn group_by_key_keeps_first_occurrence_order() {
    let mk = |m: &str, line: i64| CompressedEntry {
        message: m.into(),
        severity: CompactSeverity::W,
        code: None,
        tags: None,
        ranges: vec![[line, 0, line, 1]],
        count: 1,
    };
    let grouped = group_by_key(vec![mk("b", 1), mk("a", 2), mk("b", 3)]);
    assert_eq!(grouped.len(), 2);
    assert_eq!(grouped[0].message, "b");
    assert_eq!(grouped[0].ranges, vec![[1, 0, 1, 1], [3, 0, 3, 1]]);
    assert_eq!(grouped[1].message, "a");
    let total: u32 = grouped.iter().map(|e| e.count).sum();
    assert_eq!(total, 3);
}

#[test]
fn test_missing_uri_errors() {
    let params = parse(r#"{"diagnostics": []}"#);
    assert!(compress(&params).is_err());
}

#[test]
fn test_missing_diagnostics_errors() {
    let params = parse(r#"{"uri": "file:///test.rs"}"#);
    assert!(compress(&params).is_err());
}

#[test]
fn compress_exact_output() {
    let params = sample_diagnostics_json();
    let c = to_value(&compress(&params).unwrap());
    let expected = val(
        r#"{"version":1,"uri":"file:///test.rs","diagnostics":[
            {"m":"unused variable: `x`","s":"W","r":[[10,5,10,15],[1,0,1,0]],"c":"unused_variables","t":"U","n":2},
            {"m":"cannot find value `y` in this scope","s":"E","r":[[20,0,20,10]],"c":"E0425"}
        ]}"#,
    );
    assert_eq!(c, expected);
}

#[test]
fn decompress_restores_absolute_ranges() {
    let compact = parse(
        r#"{"version":1,"uri":"file:///a.rs","diagnostics":[{"m":"x","s":"E","r":[[3,1,3,4],[2,0,2,1]],"n":2}]}"#,
    );
    let d = to_value(&decompress(&compact).unwrap());
    let diags = d["diagnostics"].as_array().unwrap();
    assert_eq!(diags.len(), 2);
    assert_eq!(diags[0]["range"]["start"]["line"], 3);
    assert_eq!(diags[1]["range"]["start"]["line"], 5);
    assert_eq!(diags[1]["range"]["end"]["character"], 5);
    assert_eq!(diags[1]["severity"], 1);
}

// ── JSON-RPC frames ─────────────────────────────────────────────────────

#[test]
fn test_simple_request_frame() {
    let raw = frame(&req_body("test", 1));
    let (f, _) = parse_frame(&raw).unwrap().unwrap();
    let msg = parse_message(&body_json(&f.body)).unwrap();
    match msg {
        LspMessage::Request { id, method, .. } => {
            assert_eq!(id, 1);
            assert_eq!(method, "test");
        }
        _ => panic!("expected Request"),
    }
}

#[test]
fn test_notification_frame() {
    let raw = frame(&not_body("exit"));
    let (f, consumed) = parse_frame(&raw).unwrap().unwrap();
    assert_eq!(consumed, raw.len());
    let msg = parse_message(&body_json(&f.body)).unwrap();
    match msg {
        LspMessage::Notification { method, .. } => assert_eq!("exit", method),
        _ => panic!("expected Notification"),
    }
}

#[test]
fn test_response_frame() {
    let raw = frame(r#"{"jsonrpc":"2.0","id":1,"result":null}"#);
    let (f, _) = parse_frame(&raw).unwrap().unwrap();
    let msg = parse_message(&body_json(&f.body)).unwrap();
    match msg {
        LspMessage::Response { id, result, error } => {
            assert_eq!(id, 1);
            assert!(result.is_some());
            assert!(error.is_none());
        }
        _ => panic!("expected Response"),
    }
}

#[test]
fn test_response_with_error() {
    let raw = frame(r#"{"jsonrpc":"2.0","id":1,"error":{"code":-32601,"message":"method not found"}}"#);
    let (f, _) = parse_frame(&raw).unwrap().unwrap();
    let msg = parse_message(&body_json(&f.body)).unwrap();
    match msg {
        LspMessage::Response { id, result, error } => {
            assert_eq!(id, 1);
            assert!(result.is_none());
            let err = error.unwrap();
            assert_eq!(err.code, -32601);
            assert_eq!(err.message, "method not found");
        }
        _ => panic!("expected Response"),
    }
}

#[test]
fn test_roundtrip_request() {
    let msg = LspMessage::Request { id: 42, method: "test".into(), params: parse(r#"{"key": "value"}"#) };
    let parsed = message_from_frame(&message_bytes(&msg));
    assert_eq!(parsed, msg);
}

#[test]
fn test_roundtrip_notification() {
    let msg = LspMessage::Notification { method: "exit".into(), params: Json::Null };
    let parsed = message_from_frame(&message_bytes(&msg));
    assert_eq!(parsed, msg);
}

#[test]
fn test_roundtrip_response() {
    let msg = LspMessage::Response { id: 7, result: Some(parse(r#"{"ok": true}"#)), error: None };
    let parsed = message_from_frame(&message_bytes(&msg));
    assert_eq!(parsed, msg);
}

#[test]
fn test_partial_frame_returns_none() {
    let raw = b"Content-Length: 100\r\n\r\n{\"partial\"";
    assert!(parse_frame(raw).unwrap().is_none());
}

#[test]
fn test_frame_reader_streaming() {
    let mut reader = FrameReader::new();
    let total = frame(&req_body("test", 1));
    let mid = total.len() / 2;
    assert!(reader.feed(&total[..mid]).unwrap().is_none());
    let result = reader.feed(&total[mid..]).unwrap();
    assert!(result.is_some());
    let msg = parse_message(&result.unwrap()).unwrap();
    match msg {
        LspMessage::Request { id, method, .. } => {
            assert_eq!(id, 1);
            assert_eq!(method, "test");
        }
        _ => panic!("expected Request"),
    }
}

#[test]
fn test_partial_header_returns_none() {
    let raw = b"Content-Length:";
    assert!(parse_frame(raw).unwrap().is_none());
}

#[test]
fn test_two_frames_in_one_buffer() {
    let raw1 = frame(&req_body("a", 1));
    let raw2 = frame(&req_body("b", 2));
    let combined = [raw1.as_slice(), raw2.as_slice()].concat();

    let (f1, c1) = parse_frame(&combined).unwrap().unwrap();
    let v1: serde_json::Value = serde_json::from_slice(&f1.body).unwrap();
    assert_eq!(v1["id"], 1);
    let (f2, c2) = parse_frame(&combined[c1..]).unwrap().unwrap();
    let v2: serde_json::Value = serde_json::from_slice(&f2.body).unwrap();
    assert_eq!(v2["id"], 2);
    assert_eq!(c1 + c2, combined.len());
}

#[test]
fn test_content_length_case_insensitive() {
    let raw = frame(&req_body("t", 1)).into_iter().map(|b| b.to_ascii_lowercase()).collect::<Vec<_>>();
    assert!(parse_frame(&raw).unwrap().is_some());
}

#[test]
fn test_extra_whitespace_in_header() {
    let body = req_body("t", 1);
    let raw = format!("Content-Length:   {}   \r\n\r\n{}", body.len(), body);
    assert!(parse_frame(raw.as_bytes()).unwrap().is_some());
}

#[test]
fn test_missing_content_length_error() {
    let raw = b"\r\n\r\n{}";
    match parse_frame(raw) {
        Err(LspzError::Protocol(msg)) => assert!(msg.contains("missing")),
        _ => panic!("expected Protocol error"),
    }
}

#[test]
fn test_body_too_large() {
    let huge = MAX_BODY_SIZE + 1;
    let header = format!("Content-Length: {huge}\r\n\r\n");
    match parse_frame(header.as_bytes()) {
        Err(LspzError::Protocol(msg)) => assert!(msg.contains("too large")),
        _ => panic!("expected Protocol error"),
    }
}

#[test]
fn test_invalid_json_errors() {
    let raw = b"Content-Length: 5\r\n\r\n{null}";
    let (frame, _) = parse_frame(raw).unwrap().unwrap();
    let v: Result<serde_json::Value, _> = serde_json::from_slice(&frame.body);
    assert!(v.is_err());
}

#[test]
fn test_message_no_jsonrpc_version() {
    let raw = b"Content-Length: 33\r\n\r\n{\"id\":1,\"method\":\"t\",\"params\":{}}";
    let (frame, _) = parse_frame(raw).unwrap().unwrap();
    let msg = parse_message(&body_json(&frame.body)).unwrap();
    match msg {
        LspMessage::Request { id, .. } => assert_eq!(id, 1),
        _ => panic!("expected Request"),
    }
}

#[test]
fn test_parse_message_invalid_type() {
    match parse_message(&Json::Array(vec![])) {
        Err(LspzError::Protocol(msg)) => assert!(msg.contains("not a JSON object")),
        _ => panic!("expected Protocol error"),
    }
}

#[test]
fn test_to_bytes_contains_content_length() {
    let msg = LspMessage::Notification { method: "exit".into(), params: Json::Null };
    let bytes = message_bytes(&msg);
    let as_str = String::from_utf8_lossy(&bytes);
    assert!(as_str.starts_with("Content-Length:"));
    assert!(as_str.contains("\r\n\r\n"));
}

#[test]
fn serialize_frame_exact_bytes() {
    assert_eq!(serialize_frame(b"{}"), b"Content-Length: 2\r\n\r\n{}".to_vec());
}

#[test]
fn frame_reader_yields_frames_in_order() {
    let mut reader = FrameReader::new();
    let combined = [frame("{\"a\":1}"), frame("{\"b\":2}")].concat();
    assert_eq!(to_value(&reader.feed(&combined).unwrap().unwrap()), val("{\"a\":1}"));
    assert_eq!(to_value(&reader.feed(&[]).unwrap().unwrap()), val("{\"b\":2}"));
    assert!(reader.feed(&[]).unwrap().is_none());
}

// ── Method checks of the proxy ──────────────────────────────────────────

fn method_message(method: &str) -> Result<Json, LspzError> {
    let raw = frame(&req_body(method, 1));
    let (f, _) = parse_frame(&raw).unwrap().unwrap();
    Ok(body_json(&f.body))
}

#[test]
fn test_extract_method() {
    let raw = frame(&not_body("textDocument/publishDiagnostics"));
    let (f, _) = parse_frame(&raw).unwrap().unwrap();
    assert_eq!(extract_method(Ok(body_json(&f.body))).unwrap(), "textDocument/publishDiagnostics");
}

#[test]
fn test_ensure_method_ok() {
    assert!(ensure_method(method_message("initialize"), "initialize").is_ok());
}

#[test]
fn test_ensure_method_err() {
    match ensure_method(method_message("shutdown"), "initialize") {
        Err(LspzError::Protocol(m)) => assert_eq!(m, "expected 'initialize', got 'shutdown'"),
        _ => panic!("expected Protocol error"),
    }
}

#[test]
fn ensure_method_without_method() {
    match ensure_method(Ok(parse(r#"{"id":1,"result":null}"#)), "initialize") {
        Err(LspzError::Protocol(m)) => assert_eq!(m, "no 'method' field in message"),
        _ => panic!("expected Protocol error"),
    }
    match ensure_method(Err(LspzError::JsonParse("bad".into())), "initialize") {
        Err(LspzError::JsonParse(m)) => assert_eq!(m, "bad"),
        _ => panic!("expected the read error"),
    }
}

#[test]
fn message_descriptions() {
    let r = LspMessage::Request { id: 3, method: "initialize".into(), params: Json::Null };
    assert_eq!(r.describe(), "Request(id=3, method=initialize)");
    let s = LspMessage::Response { id: -1, result: None, error: None };
    assert_eq!(s.describe(), "Response(id=-1)");
    let n = LspMessage::Notification { method: "exit".into(), params: Json::Null };
    assert_eq!(n.describe(), "Notification(method=exit)");
}

#[test]
fn frame_written_then_read_with_trailing_bytes() {
    let body = b"{\"jsonrpc\":\"2.0\",\"method\":\"exit\"}";
    let mut bytes = serialize_frame(body);
    let framed = bytes.len();
    bytes.extend_from_slice(b"Content-Le");
    let (f, consumed) = parse_frame(&bytes).unwrap().unwrap();
    assert_eq!(f.body, body.to_vec());
    assert_eq!(consumed, framed);
}
