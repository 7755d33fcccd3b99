use lspz::agent::{compress_text, inflate_text};
use lspz::compact::{compress, decode_ranges, decompress};
use lspz::error::LspzError;
use lspz::framing::{serialize_frame, FrameReader};
use lspz::init::{instructions_with_ref, instructions_without_ref, mcp_registered_in_text, patch_settings_text, remove_settings_text, PatchResult};
use lspz::interceptors::completions::compress_completions;
use lspz::interceptors::diagnostics::DiagnosticsCompressor;
use lspz::interceptors::workspace_diagnostics::{
    compress_workspace_diagnostics, workspace_diagnostics_to_toon,
};
use lspz::interceptors::{default_interceptors, Direction, InterceptorChain};
use lspz::json::Json;
use lspz::json_rpc::{parse_message, LspMessage};
use lspz::proxy::process_server_frame;
use lspz::toon::completions_to_toon;

fn to_json(v: &serde_json::Value) -> Json {
    match v {
        serde_json::Value::Null => Json::Null,
        serde_json::Value::Bool(b) => Json::Bool(*b),
        serde_json::Value::Number(n) => {
            if let Some(i) = n.as_i64() {
                Json::Int(i)
            } else if let Some(u) = n.as_u64() {
                Json::UInt(u)
            } else {
                Json::Float(n.to_string())
            }
        }
        serde_json::Value::String(s) => Json::Str(s.clone()),
        serde_json::Value::Array(a) => Json::Array(a.iter().map(to_json).collect()),
        serde_json::Value::Object(o) => {
            Json::Object(o.iter().map(|(k, v)| (k.clone(), to_json(v))).collect())
        }
    }
}

fn to_value(j: &Json) -> serde_json::Value {
    match j {
        Json::Null => serde_json::Value::Null,
        Json::Bool(b) => serde_json::Value::Bool(*b),
        Json::Int(i) => serde_json::Value::from(*i),
        Json::UInt(u) => serde_json::Value::from(*u),
        Json::Float(s) => serde_json::from_str(s).unwrap(),
        Json::Str(s) => serde_json::Value::String(s.clone()),
        Json::Array(a) => serde_json::Value::Array(a.iter().map(to_value).collect()),
        Json::Object(o) => {
            let mut m = serde_json::Map::new();
            for (k, v) in o {
                m.insert(k.clone(), to_value(v));
            }
            serde_json::Value::Object(m)
        }
    }
}

fn parse(text: &str) -> Json {
    to_json(&serde_json::from_str::<serde_json::Value>(text).unwrap())
}

fn val(text: &str) -> serde_json::Value {
    serde_json::from_str(text).unwrap()
}

fn diag(line: i64, message: &str, severity: i64, code: &str) -> serde_json::Value {
    serde_json::Value::Object(
        [
            ("range".to_string(), val(&format!(
                r#"{{"start":{{"line":{line},"character":0}},"end":{{"line":{line},"character":4}}}}"#
            ))),
            ("severity".to_string(), serde_json::Value::from(severity)),
            ("message".to_string(), serde_json::Value::from(message)),
            ("code".to_string(), serde_json::Value::from(code)),
        ]
        .into_iter()
        .collect(),
    )
}

#[test]
fn compress_merges_same_message_severity_code() {
    let params = parse(
        r#"{"uri":"file:///t.rs","diagnostics":[
            {"range":{"start":{"line":1,"character":0},"end":{"line":1,"character":4}},"severity":2,"message":"m","code":"X"},
            {"range":{"start":{"line":3,"character":0},"end":{"line":3,"character":4}},"severity":2,"message":"m","code":"X"}]}"#,
    );
    let c = to_value(&compress(&params).unwrap());
    assert_eq!(
        c,
        val(r#"{"version":1,"uri":"file:///t.rs","diagnostics":[{"m":"m","s":"W","r":[[1,0,1,4],[2,0,2,0]],"c":"X","n":2}]}"#)
    );
}

#[test]
fn compress_keeps_distinct_keys_apart_in_first_order() {
    let params = parse(
        r#"{"uri":"u","diagnostics":[
            {"range":{"start":{"line":1,"character":0},"end":{"line":1,"character":1}},"severity":1,"message":"a"},
            {"range":{"start":{"line":2,"character":0},"end":{"line":2,"character":1}},"severity":2,"message":"a"},
            {"range":{"start":{"line":3,"character":0},"end":{"line":3,"character":1}},"severity":1,"message":"a"}]}"#,
    );
    let c = to_value(&compress(&params).unwrap());
    let ds = c["diagnostics"].as_array().unwrap();
    assert_eq!(ds.len(), 2);
    assert_eq!(ds[0]["s"], "E");
    assert_eq!(ds[0]["n"], 2);
    assert_eq!(ds[0]["r"], val("[[1,0,1,1],[2,0,2,0]]"));
    assert_eq!(ds[1]["s"], "W");
    assert!(ds[1].get("n").is_none());
}

#[test]
fn compress_then_decompress_restores_each_range() {
    let params = parse(
        r#"{"uri":"u","diagnostics":[
            {"range":{"start":{"line":5,"character":2},"end":{"line":5,"character":9}},"severity":1,"message":"x","code":"C"},
            {"range":{"start":{"line":7,"character":1},"end":{"line":8,"character":3}},"severity":1,"message":"x","code":"C"}]}"#,
    );
    let back = to_value(&decompress(&compress(&params).unwrap()).unwrap());
    let ds = back["diagnostics"].as_array().unwrap();
    assert_eq!(ds.len(), 2);
    assert_eq!(ds[0]["range"], val(r#"{"start":{"line":5,"character":2},"end":{"line":5,"character":9}}"#));
    assert_eq!(ds[1]["range"], val(r#"{"start":{"line":7,"character":1},"end":{"line":8,"character":3}}"#));
    assert_eq!(ds[1]["message"], "x");
    assert_eq!(ds[1]["code"], "C");
}

#[test]
fn diagnostics_compressor_delta_encodes_large_groups() {
    let diags: Vec<serde_json::Value> = (0..150).map(|i| diag(i, "same", 1, "E1")).collect();
    let mut obj = serde_json::Map::new();
    obj.insert("uri".to_string(), serde_json::Value::from("u"));
    obj.insert("diagnostics".to_string(), serde_json::Value::Array(diags));
    let params = serde_json::Value::Object(obj);
    let out = DiagnosticsCompressor { enable_normalisation: false }
        .intercept("textDocument/publishDiagnostics", to_json(&params), Direction::ServerToClient)
        .unwrap()
        .unwrap();
    let v = to_value(&out);
    let e = &v["diagnostics"][0];
    assert_eq!(e["n"], 150);
    let r: Vec<[i64; 4]> = e["r"]
        .as_array()
        .unwrap()
        .iter()
        .map(|a| {
            let a = a.as_array().unwrap();
            [a[0].as_i64().unwrap(), a[1].as_i64().unwrap(), a[2].as_i64().unwrap(), a[3].as_i64().unwrap()]
        })
        .collect();
    assert_eq!(r[0], [0, 0, 0, 4]);
    assert_eq!(r[1], [1, 0, 1, 0]);
    let decoded = decode_ranges(&r);
    assert_eq!(decoded.len(), 150);
    assert_eq!(decoded[149], [149, 0, 149, 4]);
}

#[test]
fn workspace_unchanged_report_prints_as_unchanged() {
    let p = parse(
        r#"{"items":[{"kind":"unchanged","uri":"file:///a.rs","version":1,"resultId":"r"}]}"#,
    );
    let value = compress_workspace_diagnostics(&p);
    let toon = workspace_diagnostics_to_toon(&value).unwrap();
    assert!(toon.contains("  uri: file:///a.rs (unchanged)\n"));
    assert!(!toon.contains("(unknown)"));
    assert!(toon.contains("skipped (unchanged): 1\n"));
}

#[test]
fn frame_reader_parses_body_and_reports_bad_json() {
    let mut r = FrameReader::new();
    let bytes = serialize_frame(b"{\"a\":[1,2]}");
    let (a, b) = bytes.split_at(5);
    assert!(r.feed(a).unwrap().is_none());
    assert_eq!(to_value(&r.feed(b).unwrap().unwrap()), val("{\"a\":[1,2]}"));
    assert!(r.feed(&[]).unwrap().is_none());
    let mut r2 = FrameReader::new();
    assert!(matches!(r2.feed(&serialize_frame(b"{oops")), Err(LspzError::JsonParse(_))));
    assert!(r2.feed(&[]).unwrap().is_none());
}

#[test]
fn message_from_frame_bytes_and_back() {
    let bytes = serialize_frame(br#"{"jsonrpc":"2.0","id":7,"method":"m","params":{"x":1}}"#);
    let msg = LspMessage::from_frame_bytes(&bytes).unwrap();
    match &msg {
        LspMessage::Request { id, method, .. } => {
            assert_eq!(*id, 7);
            assert_eq!(method, "m");
        }
        _ => panic!("expected a request"),
    }
    let text = String::from_utf8(msg.to_json_bytes().unwrap()).unwrap();
    assert_eq!(val(&text), val(r#"{"jsonrpc":"2.0","id":7,"method":"m","params":{"x":1}}"#));
    let again = LspMessage::from_frame_bytes(&serialize_frame(text.as_bytes())).unwrap();
    assert_eq!(to_value(&again.to_json_value().unwrap()), val(&text));
}

#[test]
fn message_from_frame_bytes_errors() {
    assert!(matches!(
        LspMessage::from_frame_bytes(b"Content-Length: 10\r\n\r\n{}"),
        Err(LspzError::Protocol(m)) if m == "incomplete frame"
    ));
    assert!(matches!(
        LspMessage::from_frame_bytes(&serialize_frame(b"not json")),
        Err(LspzError::JsonParse(_))
    ));
    assert!(matches!(
        LspMessage::from_frame_bytes(&serialize_frame(b"[1]")),
        Err(LspzError::Protocol(_))
    ));
}

#[test]
fn bad_version_error_shows_full_json_text() {
    let e = parse_message(&parse(r#"{"jsonrpc":[1,"a"],"id":1,"method":"m"}"#)).unwrap_err();
    match e {
        LspzError::Protocol(m) => assert_eq!(m, "invalid jsonrpc version: [1,\"a\"]"),
        _ => panic!("expected a protocol error"),
    }
}

#[test]
fn compress_text_and_inflate_text_errors() {
    assert!(matches!(compress_text("{not json"), Err(LspzError::JsonParse(_))));
    assert!(matches!(compress_text(r#"{"diagnostics":[]}"#), Err(LspzError::Protocol(_))));
    assert!(matches!(inflate_text("{not json"), Err(LspzError::JsonParse(_))));
    assert!(matches!(inflate_text(r#"{"a":1}"#), Err(LspzError::JsonParse(_))));
    assert!(matches!(
        inflate_text(r#"{"version":1,"uri":"u","diagnostics":[{"m":"x","s":"E","r":[]}]}"#),
        Err(LspzError::Protocol(_))
    ));
}

#[test]
fn compress_text_is_pretty_json() {
    let raw = r#"{"uri":"u","diagnostics":[{"range":{"start":{"line":1,"character":0},"end":{"line":1,"character":2}},"severity":3,"message":"i"}]}"#;
    let s = compress_text(raw).unwrap();
    assert!(s.contains('\n'));
    assert_eq!(val(&s), val(r#"{"version":1,"uri":"u","diagnostics":[{"m":"i","s":"I","r":[[1,0,1,2]]}]}"#));
}

#[test]
fn settings_text_patch_twice_is_already_present() {
    let (res, text) = patch_settings_text(None, "settings.json", "/bin/lspz", false).unwrap();
    assert_eq!(res, PatchResult::Patched);
    let text = text.unwrap();
    assert_eq!(val(&text), val(r#"{"mcpServers":{"lspz":{"command":"/bin/lspz","args":["mcp"]}}}"#));
    assert!(mcp_registered_in_text(Some(&text), "/bin/lspz"));
    let (res, none) = patch_settings_text(Some(&text), "settings.json", "/bin/lspz", false).unwrap();
    assert_eq!(res, PatchResult::AlreadyPresent);
    assert!(none.is_none());
    let (res, none) = patch_settings_text(Some("{}"), "s", "/bin/lspz", true).unwrap();
    assert_eq!(res, PatchResult::WouldPatch);
    assert!(none.is_none());
}

#[test]
fn settings_text_errors_and_removal() {
    match patch_settings_text(Some("{bad"), "s.json", "/b", false) {
        Err(LspzError::Config(m)) => assert!(m.starts_with("Invalid JSON in s.json: ")),
        _ => panic!("expected a configuration error"),
    }
    assert!(!mcp_registered_in_text(Some("{bad"), "/b"));
    assert!(!mcp_registered_in_text(None, "/b"));
    let (removed, text) = remove_settings_text(
        r#"{"mcpServers":{"lspz":{"command":"/b"},"other":{"command":"/o"}}}"#,
        "s",
    )
    .unwrap();
    assert!(removed);
    assert_eq!(val(&text.unwrap()), val(r#"{"mcpServers":{"other":{"command":"/o"}}}"#));
    let (removed, text) = remove_settings_text("{}", "s").unwrap();
    assert!(!removed);
    assert!(text.is_none());
}

#[test]
fn server_frame_is_compressed_or_passed_through() {
    let chain = InterceptorChain::new(default_interceptors());
    let raw = serialize_frame(
        br#"{"jsonrpc":"2.0","method":"textDocument/publishDiagnostics","params":{"uri":"u","diagnostics":[{"range":{"start":{"line":1,"character":0},"end":{"line":1,"character":2}},"severity":1,"message":"e"}]}}"#,
    );
    let out = process_server_frame(&chain, &raw);
    let mut r = FrameReader::new();
    let v = to_value(&r.feed(&out).unwrap().unwrap());
    assert_eq!(v["params"]["diagnostics"][0]["m"], "e");
    let response = serialize_frame(br#"{"jsonrpc":"2.0","id":1,"result":null}"#);
    assert_eq!(process_server_frame(&chain, &response), response);
    let junk = b"not a frame".to_vec();
    assert_eq!(process_server_frame(&chain, &junk), junk);
}

#[test]
fn completion_docs_come_back_through_toon() {
    let params = parse(
        r#"[{"label":"a","documentation":"shared doc"},{"label":"b","documentation":"shared doc"},{"label":"c","documentation":"own, doc"},{"label":"d"}]"#,
    );
    let compact = compress_completions(&params, 100, true).unwrap();
    let v = to_value(&compact);
    assert_eq!(v["docs"], val(r#"["shared doc"]"#));
    assert_eq!(v["items"][0]["doc_id"], 0);
    let toon = completions_to_toon(&compact).unwrap();
    let rows: Vec<&str> = toon.lines().skip(2).collect();
    assert_eq!(rows[0], "  a,,,shared doc,false");
    assert_eq!(rows[1], "  b,,,shared doc,false");
    assert_eq!(rows[2], "  c,,,\"own, doc\",false");
    assert_eq!(rows[3], "  d,,,,false");
}

#[test]
fn instruction_reference_added_then_removed_restores_file() {
    for c in ["\n", "# Title\n@AGENTS.md\n", "x\ny\n"] {
        let with = instructions_with_ref(Some(c)).unwrap();
        assert_eq!(instructions_without_ref(&with).unwrap(), c);
    }
}
