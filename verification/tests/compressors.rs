use lspz::interceptors::capping::CappingInterceptor;
use lspz::interceptors::completions::CompletionCompressor;
use lspz::interceptors::hover::HoverCompressor;
use lspz::interceptors::locations::LocationCompressor;
use lspz::interceptors::symbols::DocumentSymbolCompressor;
use lspz::interceptors::workspace_diagnostics::WorkspaceDiagnosticCompressor;
use lspz::interceptors::workspace_symbols::WorkspaceSymbolCompressor;
use lspz::interceptors::Direction;
use lspz::json::Json;

fn to_json(v: &serde_json::Value) -> Json {
    match v {
        serde_json::Value::Null => Json::Null,
        serde_json::Value::Bool(b) => Json::Bool(*b),
        serde_json::Value::Number(n) => {
            if let Some(i) = n.as_i64() {
                Json::Int(i)
            } else if let Some(u) = n.as_u64() {
                Json::UInt(u)
            } else {
                Json::Float(n.to_string())
            }
        }
        serde_json::Value::String(s) => Json::Str(s.clone()),
        serde_json::Value::Array(a) => Json::Array(a.iter().map(to_json).collect()),
        serde_json::Value::Object(o) => {
            Json::Object(o.iter().map(|(k, v)| (k.clone(), to_json(v))).collect())
        }
    }
}

fn to_value(j: &Json) -> serde_json::Value {
    match j {
        Json::Null => serde_json::Value::Null,
        Json::Bool(b) => serde_json::Value::Bool(*b),
        Json::Int(i) => serde_json::Value::from(*i),
        Json::UInt(u) => serde_json::Value::from(*u),
        Json::Float(s) => serde_json::from_str(s).unwrap(),
        Json::Str(s) => serde_json::Value::String(s.clone()),
        Json::Array(a) => serde_json::Value::Array(a.iter().map(to_value).collect()),
        Json::Object(o) => {
            let mut m = serde_json::Map::new();
            for (k, v) in o {
                m.insert(k.clone(), to_value(v));
            }
            serde_json::Value::Object(m)
        }
    }
}

fn parse(text: &str) -> Json {
    to_json(&serde_json::from_str::<serde_json::Value>(text).unwrap())
}

fn val(text: &str) -> serde_json::Value {
    serde_json::from_str(text).unwrap()
}

const S2C: Direction = Direction::ServerToClient;

fn completion(c: &CompletionCompressor, text: &str) -> serde_json::Value {
    to_value(&c.intercept("textDocument/completion", parse(text), S2C).unwrap().unwrap())
}

#[test]
fn test_field_pruning() {
    let item = completion(
        &CompletionCompressor::default(),
        r#"[{"label": "test", "kind": 1, "detail": "a detail", "documentation": "doc text",
            "insertText": "test()", "sortText": "000", "deprecated": true,
            "command": {"command": "do", "title": "do it"}, "data": "should be dropped",
            "additionalTextEdits": [{"range": {}, "newText": "x"}], "commitCharacters": [","]}]"#,
    )["items"][0]
        .clone();
    assert_eq!(item["l"], "test");
    assert_eq!(item["k"], "T");
    assert_eq!(item["d"], "a detail");
    assert_eq!(item["doc"], "doc text");
    assert_eq!(item["i"], "test()");
    assert_eq!(item["st"], "000");
    assert!(item["dep"].as_bool().unwrap());
    assert!(item.get("command").is_none());
    assert!(item.get("data").is_none());
    assert!(item.get("additionalTextEdits").is_none());
    assert!(item.get("commitCharacters").is_none());
}

#[test]
fn test_doc_dedup() {
    let compact = completion(
        &CompletionCompressor::default(),
        r#"[{"label": "a", "documentation": "shared doc"},
            {"label": "b", "documentation": "shared doc"},
            {"label": "c", "documentation": "unique doc"}]"#,
    );
    let items = compact["items"].as_array().unwrap();
    assert_eq!(items[0].get("doc_id").and_then(|v| v.as_u64()), Some(0));
    assert_eq!(items[1].get("doc_id").and_then(|v| v.as_u64()), Some(0));
    assert_eq!(items[2].get("doc").and_then(|v| v.as_str()), Some("unique doc"));
    let docs = compact["docs"].as_array().unwrap();
    assert_eq!(docs.len(), 1);
    assert_eq!(docs[0].as_str(), Some("shared doc"));
}

#[test]
fn test_max_items_truncation() {
    let c = CompletionCompressor { max_items: 3, ..Default::default() };
    let items: Vec<String> = (0..10).map(|i| format!(r#"{{"label": "item_{i}"}}"#)).collect();
    let compact = completion(&c, &format!("[{}]", items.join(",")));
    assert_eq!(compact["items"].as_array().unwrap().len(), 3);
}

#[test]
fn completions_fail_open_on_null() {
    let c = CompletionCompressor::default();
    assert!(c.intercept("textDocument/completion", Json::Null, S2C).is_ok());
}

#[test]
fn test_roundtrip_preserves_labels() {
    let compact = completion(&CompletionCompressor::default(), r#"[{"label": "foo", "kind": 3}, {"label": "bar", "kind": 6}]"#);
    let items = compact["items"].as_array().unwrap();
    assert_eq!(items.len(), 2);
    assert_eq!(items[0]["l"], "foo");
    assert_eq!(items[0]["k"], "F");
    assert_eq!(items[1]["l"], "bar");
    assert_eq!(items[1]["k"], "V");
}

#[test]
fn test_completion_list_format() {
    let compact = completion(
        &CompletionCompressor::default(),
        r#"{"isIncomplete": false, "items": [{"label": "foo", "kind": 1}, {"label": "bar", "kind": 2}]}"#,
    );
    assert_eq!(compact["version"], 1);
    assert_eq!(compact["incomplete"], false);
    assert_eq!(compact["items"].as_array().unwrap().len(), 2);
}

fn hover(text: &str) -> serde_json::Value {
    let c = HoverCompressor::default();
    to_value(&c.intercept("textDocument/hover", parse(text), S2C).unwrap().unwrap())
}

#[test]
fn test_markdown_compact() {
    let compact = hover(
        r#"{"contents": {"kind": "markdown", "value": "Some text\n\n\n\nMore text\n```rust\nlet x = 1;\n```\n\n\nEnd"}}"#,
    );
    let v = compact["c"]["v"].as_str().unwrap();
    assert!(!v.contains("\n\n\n"), "should collapse 3+ blank lines");
    assert!(v.contains("`ru"), "should shorten ```rust to `ru");
    assert!(!v.contains("```rust"), "should not contain full fence");
}

#[test]
fn test_markup_kind_reduction() {
    assert_eq!(hover(r#"{"contents": {"kind": "markdown", "value": "hello"}}"#)["c"]["k"], "m");
}

#[test]
fn test_plaintext_kind_reduction() {
    assert_eq!(hover(r#"{"contents": {"kind": "plaintext", "value": "hello"}}"#)["c"]["k"], "p");
}

#[test]
fn hover_fails_open_on_null() {
    let c = HoverCompressor::default();
    assert!(c.intercept("textDocument/hover", Json::Null, S2C).is_err());
}

#[test]
fn test_roundtrip_preserves_content() {
    let compact = hover(
        r#"{"contents": {"kind": "plaintext", "value": "Hello World"},
            "range": {"start": {"line": 0, "character": 0}, "end": {"line": 0, "character": 5}}}"#,
    );
    assert_eq!(compact["c"]["v"], "Hello World");
    assert_eq!(compact["c"]["k"], "p");
    assert_eq!(compact["r"]["s"]["l"], 0);
    assert_eq!(compact["r"]["e"]["c"], 5);
}

#[test]
fn test_empty_hover() {
    let c = HoverCompressor::default();
    assert!(c.intercept("textDocument/hover", parse(r#"{"contents": {"kind": "markdown", "value": ""}}"#), S2C).is_ok());
}

fn symbols(text: &str) -> serde_json::Value {
    to_value(&DocumentSymbolCompressor.intercept("textDocument/documentSymbol", parse(text), S2C).unwrap().unwrap())
}

#[test]
fn test_document_symbol_compression() {
    let compact = symbols(
        r#"[{"name": "MyStruct", "kind": 23,
             "range": {"start": {"line": 0, "character": 0}, "end": {"line": 10, "character": 1}},
             "selectionRange": {"start": {"line": 0, "character": 0}, "end": {"line": 10, "character": 1}},
             "detail": "A test struct", "deprecated": false, "tags": [],
             "children": [
               {"name": "field1", "kind": 8,
                "range": {"start": {"line": 1, "character": 4}, "end": {"line": 1, "character": 11}},
                "selectionRange": {"start": {"line": 1, "character": 4}, "end": {"line": 1, "character": 11}}},
               {"name": "method1", "kind": 6,
                "range": {"start": {"line": 3, "character": 4}, "end": {"line": 8, "character": 5}},
                "selectionRange": {"start": {"line": 3, "character": 4}, "end": {"line": 8, "character": 5}}}]},
            {"name": "myFunction", "kind": 12,
             "range": {"start": {"line": 12, "character": 0}, "end": {"line": 20, "character": 1}},
             "selectionRange": {"start": {"line": 12, "character": 0}, "end": {"line": 20, "character": 1}}}]"#,
    );
    assert_eq!(compact["version"], 1);
    let items = compact["items"].as_array().unwrap();
    assert_eq!(items.len(), 2);
    let s0 = &items[0];
    assert_eq!(s0["n"], "MyStruct");
    assert_eq!(s0["k"], "t");
    assert_eq!(s0["d"], "A test struct");
    assert_eq!(s0["r"]["s"]["l"], 0);
    assert_eq!(s0["r"]["e"]["c"], 1);
    assert!(s0.get("deprecated").is_none());
    assert!(s0.get("tags").is_none());
    assert!(s0.get("selectionRange").is_none());
    let children = s0["c"].as_array().unwrap();
    assert_eq!(children.len(), 2);
    assert_eq!(children[0]["n"], "field1");
    assert_eq!(children[0]["k"], "f");
    assert_eq!(children[1]["n"], "method1");
    assert_eq!(children[1]["k"], "m");
    let s1 = &items[1];
    assert_eq!(s1["n"], "myFunction");
    assert_eq!(s1["k"], "u");
    assert!(s1.get("c").is_none());
    assert!(s1.get("d").is_none());
}

#[test]
fn test_symbol_information_compression() {
    let compact = symbols(
        r#"[{"name": "SomeClass", "kind": 5,
             "location": {"uri": "file:///src/lib.rs",
                          "range": {"start": {"line": 10, "character": 0}, "end": {"line": 50, "character": 1}}},
             "containerName": "my_module", "deprecated": false, "tags": []}]"#,
    );
    let s = &compact["items"][0];
    assert_eq!(s["n"], "SomeClass");
    assert_eq!(s["k"], "s");
    assert_eq!(s["l"]["u"], "file:///src/lib.rs");
    assert_eq!(s["l"]["r"]["s"]["l"], 10);
    assert_eq!(s["l"]["r"]["e"]["l"], 50);
    assert_eq!(s["cn"], "my_module");
    assert!(s.get("deprecated").is_none());
    assert!(s.get("tags").is_none());
}

#[test]
fn symbols_fail_open_on_null() {
    assert!(DocumentSymbolCompressor.intercept("textDocument/documentSymbol", Json::Null, S2C).is_err());
}

fn capped(cap: &CappingInterceptor, method: &str, text: &str) -> serde_json::Value {
    to_value(&cap.intercept(method, parse(text), S2C).unwrap().unwrap())
}

#[test]
fn test_cap_completions_list() {
    let cap = CappingInterceptor::with_limits(0, 3, 0);
    let r = capped(&cap, "textDocument/completion", r#"{"isIncomplete": false, "items": [{"label": "a"}, {"label": "b"}, {"label": "c"}, {"label": "d"}, {"label": "e"}]}"#);
    assert_eq!(r["items"].as_array().unwrap().len(), 3);
}

#[test]
fn test_cap_symbols() {
    let cap = CappingInterceptor::with_limits(0, 0, 2);
    let r = capped(&cap, "textDocument/documentSymbol", r#"[{"name": "a", "kind": 12}, {"name": "b", "kind": 12}, {"name": "c", "kind": 12}]"#);
    assert_eq!(r.as_array().unwrap().len(), 2);
}

#[test]
fn test_cap_within_limit_no_truncation() {
    let cap = CappingInterceptor::with_limits(10, 10, 10);
    let r = capped(&cap, "textDocument/publishDiagnostics", r#"{"uri": "file:///t.rs", "diagnostics": [{"message": "only"}]}"#);
    assert_eq!(r["diagnostics"].as_array().unwrap().len(), 1);
}

#[test]
fn test_cap_empty_array() {
    let cap = CappingInterceptor::with_limits(5, 5, 5);
    let r = capped(&cap, "textDocument/publishDiagnostics", r#"{"uri": "file:///t.rs", "diagnostics": []}"#);
    assert!(r["diagnostics"].as_array().unwrap().is_empty());
}

#[test]
fn test_cap_missing_field_fail_open() {
    let cap = CappingInterceptor::with_limits(1, 0, 0);
    assert!(cap.intercept("textDocument/publishDiagnostics", parse(r#"{"uri": "file:///t.rs"}"#), S2C).is_err());
}

#[test]
fn test_full_with_diagnostics() {
    let params = parse(
        r#"{"items": [{"kind": "full", "uri": "file:///src/main.rs", "version": 1, "diagnostics": [
            {"range": {"start": {"line": 10, "character": 5}, "end": {"line": 10, "character": 10}}, "severity": 1, "message": "unused variable: `x`"},
            {"range": {"start": {"line": 20, "character": 0}, "end": {"line": 20, "character": 5}}, "severity": 2, "message": "unused variable: `y`"}]}]}"#,
    );
    let compact = to_value(&WorkspaceDiagnosticCompressor.intercept("workspace/diagnostic", params, S2C).unwrap().unwrap());
    let items = compact["items"].as_array().unwrap();
    assert_eq!(items.len(), 1);
    assert_eq!(items[0]["kind"], "full");
    assert_eq!(items[0]["uri"], "file:///src/main.rs");
    let diags = items[0]["diagnostics"].as_array().unwrap();
    assert_eq!(diags.len(), 2);
    assert!(diags[0].get("m").is_some());
    assert!(diags[0].get("s").is_some());
    assert!(diags[0].get("r").is_some());
    assert!(diags[0].get("message").is_none());
    assert!(diags[0].get("severity").is_none());
}

#[test]
fn test_mixed_full_and_unchanged() {
    let params = parse(
        r#"{"items": [{"kind": "unchanged", "uri": "file:///src/unmodified.rs", "version": 2},
            {"kind": "full", "uri": "file:///src/changed.rs", "version": 3, "diagnostics": [
              {"range": {"start": {"line": 0, "character": 0}, "end": {"line": 0, "character": 1}}, "severity": 1, "message": "error here"}]}]}"#,
    );
    let compact = to_value(&WorkspaceDiagnosticCompressor.intercept("workspace/diagnostic", params, S2C).unwrap().unwrap());
    let items = compact["items"].as_array().unwrap();
    assert_eq!(items.len(), 2);
    assert_eq!(items[0]["_c"], "u");
    assert_eq!(items[0]["uri"], "file:///src/unmodified.rs");
    assert_eq!(items[1]["kind"], "full");
    assert_eq!(items[1]["diagnostics"].as_array().unwrap().len(), 1);
}

#[test]
fn test_no_items() {
    let compact = to_value(&WorkspaceDiagnosticCompressor.intercept("workspace/diagnostic", parse(r#"{"items": []}"#), S2C).unwrap().unwrap());
    assert!(compact["items"].as_array().unwrap().is_empty());
}

#[test]
fn workspace_symbols_pool_uris() {
    let params = parse(
        r#"[{"name": "a", "kind": 12, "location": {"uri": "file:///x.rs", "range": {"start": {"line": 1, "character": 0}, "end": {"line": 2, "character": 0}}}},
            {"name": "b", "kind": 5, "location": {"uri": "file:///y.rs", "range": {"start": {"line": 3, "character": 0}, "end": {"line": 4, "character": 0}}}},
            {"name": "c", "kind": 12, "location": {"uri": "file:///x.rs", "range": {"start": {"line": 5, "character": 0}, "end": {"line": 6, "character": 0}}}}]"#,
    );
    let compact = to_value(&WorkspaceSymbolCompressor.intercept("workspace/symbol", params, S2C).unwrap().unwrap());
    assert_eq!(compact["uris"], val(r#"["file:///x.rs", "file:///y.rs"]"#));
    let items = compact["items"].as_array().unwrap();
    assert_eq!(items[0]["l"]["u"], 0);
    assert_eq!(items[1]["l"]["u"], 1);
    assert_eq!(items[2]["l"]["u"], 0);
    assert_eq!(items[1]["k"], "s");
}

#[test]
fn location_links_compress() {
    let params = parse(
        r#"[{"targetUri": "file:///a.rs",
             "targetRange": {"start": {"line": 1, "character": 0}, "end": {"line": 9, "character": 1}},
             "targetSelectionRange": {"start": {"line": 1, "character": 4}, "end": {"line": 1, "character": 8}}}]"#,
    );
    let compact = to_value(&LocationCompressor.intercept("textDocument/definition", params, S2C).unwrap().unwrap());
    assert_eq!(compact["uris"], val(r#"["file:///a.rs"]"#));
    let item = &compact["items"][0];
    assert_eq!(item["u"], 0);
    assert_eq!(item["r"]["e"]["l"], 9);
    assert_eq!(item["s"]["s"]["c"], 4);
    assert!(item.get("o").is_none());
}
