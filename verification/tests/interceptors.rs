use lspz::interceptors::capping::CappingInterceptor;
use lspz::interceptors::completions::{encode_completion_kind, CompletionCompressor};
use lspz::interceptors::diagnostics::{normalize_message, replace_backtick_idents, DiagnosticsCompressor};
use lspz::interceptors::hover::{compact_markdown, compress_range, HoverCompressor};
use lspz::interceptors::locations::{compress_locations, LocationCompressor};
use lspz::interceptors::symbols::{encode_symbol_kind, DocumentSymbolCompressor};
use lspz::interceptors::workspace_diagnostics::{
    workspace_diagnostics_to_toon, WorkspaceDiagnosticCompressor,
};
use lspz::interceptors::workspace_symbols::{workspace_symbols_to_toon, WorkspaceSymbolCompressor};
use lspz::interceptors::{default_interceptors, Direction, Interceptor, InterceptorChain};
use lspz::json::Json;
use lspz::proxy::{server_message_outcome, ServerOutcome};

fn to_json(v: &serde_json::Value) -> Json {
    match v {
        serde_json::Value::Null => Json::Null,
        serde_json::Value::Bool(b) => Json::Bool(*b),
        serde_json::Value::Number(n) => {
            if let Some(i) = n.as_i64() {
                Json::Int(i)
            } else if let Some(u) = n.as_u64() {
                Json::UInt(u)
            } else {
                Json::Float(n.to_string())
            }
        }
        serde_json::Value::String(s) => Json::Str(s.clone()),
        serde_json::Value::Array(a) => Json::Array(a.iter().map(to_json).collect()),
        serde_json::Value::Object(o) => {
            Json::Object(o.iter().map(|(k, v)| (k.clone(), to_json(v))).collect())
        }
    }
}

fn to_value(j: &Json) -> serde_json::Value {
    match j {
        Json::Null => serde_json::Value::Null,
        Json::Bool(b) => serde_json::Value::Bool(*b),
        Json::Int(i) => serde_json::Value::from(*i),
        Json::UInt(u) => serde_json::Value::from(*u),
        Json::Float(s) => serde_json::from_str(s).unwrap(),
        Json::Str(s) => serde_json::Value::String(s.clone()),
        Json::Array(a) => serde_json::Value::Array(a.iter().map(to_value).collect()),
        Json::Object(o) => {
            let mut m = serde_json::Map::new();
            for (k, v) in o {
                m.insert(k.clone(), to_value(v));
            }
            serde_json::Value::Object(m)
        }
    }
}

fn parse(text: &str) -> Json {
    to_json(&serde_json::from_str::<serde_json::Value>(text).unwrap())
}

fn val(text: &str) -> serde_json::Value {
    serde_json::from_str(text).unwrap()
}

// ── applies_to ──────────────────────────────────────────────────────────

#[test]
fn test_applies_to_publish_diagnostics() {
    let compressor = DiagnosticsCompressor::default();
    assert!(compressor.applies_to("textDocument/publishDiagnostics", Direction::ServerToClient));
    assert!(!compressor.applies_to("textDocument/didOpen", Direction::ServerToClient));
    assert!(!compressor.applies_to("textDocument/publishDiagnostics", Direction::ClientToServer));
}

#[test]
fn test_applies_to_completion() {
    let c = CompletionCompressor::default();
    assert!(c.applies_to("textDocument/completion", Direction::ServerToClient));
    assert!(!c.applies_to("textDocument/didOpen", Direction::ServerToClient));
    assert!(!c.applies_to("textDocument/completion", Direction::ClientToServer));
}

#[test]
fn test_applies_to_hover() {
    let c = HoverCompressor::default();
    assert!(c.applies_to("textDocument/hover", Direction::ServerToClient));
    assert!(!c.applies_to("textDocument/didOpen", Direction::ServerToClient));
    assert!(!c.applies_to("textDocument/hover", Direction::ClientToServer));
}

#[test]
fn test_applies_to_all_methods() {
    let c = LocationCompressor;
    assert!(c.applies_to("textDocument/references", Direction::ServerToClient));
    assert!(c.applies_to("textDocument/definition", Direction::ServerToClient));
    assert!(c.applies_to("textDocument/implementation", Direction::ServerToClient));
    assert!(c.applies_to("textDocument/typeDefinition", Direction::ServerToClient));
    assert!(!c.applies_to("textDocument/references", Direction::ClientToServer));
    assert!(!c.applies_to("textDocument/completion", Direction::ServerToClient));
    assert!(!c.applies_to("textDocument/documentSymbol", Direction::ServerToClient));
}

#[test]
fn test_applies_to_document_symbol() {
    let c = DocumentSymbolCompressor;
    assert!(c.applies_to("textDocument/documentSymbol", Direction::ServerToClient));
    assert!(!c.applies_to("textDocument/didOpen", Direction::ServerToClient));
    assert!(!c.applies_to("textDocument/documentSymbol", Direction::ClientToServer));
}

#[test]
fn test_applies_to_workspace_diagnostic() {
    let c = WorkspaceDiagnosticCompressor;
    assert!(c.applies_to("workspace/diagnostic", Direction::ServerToClient));
    assert!(!c.applies_to("workspace/diagnostic", Direction::ClientToServer));
    assert!(!c.applies_to("textDocument/publishDiagnostics", Direction::ServerToClient));
    assert!(!c.applies_to("workspace/symbol", Direction::ServerToClient));
}

#[test]
fn test_applies_to_workspace_symbol() {
    let c = WorkspaceSymbolCompressor;
    assert!(c.applies_to("workspace/symbol", Direction::ServerToClient));
    assert!(!c.applies_to("workspace/symbol", Direction::ClientToServer));
    assert!(!c.applies_to("textDocument/documentSymbol", Direction::ServerToClient));
    assert!(!c.applies_to("workspace/diagnostic", Direction::ServerToClient));
}

#[test]
fn test_cap_applies_to() {
    let i = CappingInterceptor::with_limits(1, 1, 1);
    assert!(i.applies_to("textDocument/publishDiagnostics", Direction::ServerToClient));
    assert!(i.applies_to("textDocument/completion", Direction::ServerToClient));
    assert!(i.applies_to("textDocument/documentSymbol", Direction::ServerToClient));
    assert!(!i.applies_to("textDocument/hover", Direction::ServerToClient));
    assert!(!i.applies_to("textDocument/publishDiagnostics", Direction::ClientToServer));
}

// ── Kind encodings ──────────────────────────────────────────────────────

#[test]
fn completions_test_kind_encoding_all() {
    let kinds = [
        (1, 'T'), (2, 'M'), (3, 'F'), (4, 'C'), (5, 'f'), (6, 'V'), (7, 'c'), (8, 'I'), (9, 'm'),
        (10, 'P'), (11, 'U'), (12, 'v'), (13, 'e'), (14, 'K'), (15, 's'), (16, 'o'), (17, 'F'),
        (18, 'r'), (19, 'D'), (20, 'n'), (21, 'q'), (22, 'S'), (23, 'W'), (24, 'O'), (25, 't'),
    ];
    for (input, expected) in &kinds {
        assert_eq!(encode_completion_kind(*input), Some(*expected), "kind {} should map to {}", input, expected);
    }
    assert_eq!(encode_completion_kind(0), None);
    assert_eq!(encode_completion_kind(26), None);
}

#[test]
fn symbols_test_kind_encoding_all() {
    let kinds = [
        (1, 'F'), (2, 'M'), (3, 'N'), (4, 'P'), (5, 's'), (6, 'm'), (7, 'p'), (8, 'f'), (9, 'c'),
        (10, 'E'), (11, 'I'), (12, 'u'), (13, 'V'), (14, 'C'), (15, 'S'), (16, 'b'), (17, 'B'),
        (18, 'A'), (19, 'O'), (20, 'K'), (21, 'Z'), (22, 'e'), (23, 't'), (24, 'v'), (25, 'r'),
        (26, 'T'),
    ];
    for (input, expected) in &kinds {
        assert_eq!(encode_symbol_kind(*input), Some(*expected), "kind {} should map to {}", input, expected);
    }
    assert_eq!(encode_symbol_kind(27), None);
}

// ── Normalisation ───────────────────────────────────────────────────────

#[test]
fn test_normalize_unused_var_gopls() {
    assert_eq!(normalize_message("declared and not used: unusedVar", Some("UnusedVar")), "unused variable");
}

#[test]
fn test_normalize_unused_var_rust_analyzer() {
    assert_eq!(normalize_message("unused variable: `x`", Some("unused_variables")), "unused variable");
}

#[test]
fn test_normalize_unused_import_gopls() {
    assert_eq!(normalize_message("\"os\" imported and not used", Some("UnusedImport")), "unused import");
}

#[test]
fn test_normalize_backtick_fallback() {
    assert_eq!(normalize_message("use `some_ident` here", None), "use <ident> here");
}

#[test]
fn test_normalize_no_match() {
    let msg = "some random error message";
    assert_eq!(normalize_message(msg, None), msg);
}

#[test]
fn test_replace_backtick_idents() {
    assert_eq!(replace_backtick_idents("use `foo`"), "use <ident>");
    assert_eq!(replace_backtick_idents("no backticks here"), "no backticks here");
    assert_eq!(replace_backtick_idents("multi `a` `b` `c`"), "multi <ident> <ident> <ident>");
    assert_eq!(replace_backtick_idents("unclosed `backtick"), "unclosed `backtick");
}

// ── Diagnostics compressor ──────────────────────────────────────────────

fn intercept_diags(text: &str) -> serde_json::Value {
    let c = DiagnosticsCompressor::default();
    let r = c.intercept("textDocument/publishDiagnostics", parse(text), Direction::ServerToClient);
    to_value(&r.unwrap().unwrap())
}

#[test]
fn test_intercept_compress() {
    let compact = intercept_diags(
        r#"{"uri": "file:///test.rs", "diagnostics": [{
            "range": {"start": {"line": 10, "character": 5}, "end": {"line": 10, "character": 15}},
            "severity": 2, "message": "unused variable: `x`", "code": "unused_variables",
            "source": "rust-analyzer", "tags": [1]}]}"#,
    );
    assert_eq!(compact["version"], 1);
    assert_eq!(compact["uri"], "file:///test.rs");
    assert_eq!(compact["diagnostics"][0]["m"], "unused variable");
    assert_eq!(compact["diagnostics"][0]["s"], "W");
}

#[test]
fn test_intercept_dedup() {
    let compact = intercept_diags(
        r#"{"uri": "file:///test.rs", "diagnostics": [
            {"range": {"start": {"line": 10, "character": 5}, "end": {"line": 10, "character": 15}},
             "severity": 1, "message": "use of undeclared `foo`", "code": "E0425"},
            {"range": {"start": {"line": 20, "character": 0}, "end": {"line": 20, "character": 10}},
             "severity": 1, "message": "use of undeclared `foo`", "code": "E0425"}]}"#,
    );
    let diags = compact["diagnostics"].as_array().unwrap();
    assert_eq!(diags.len(), 1, "should be deduped into 1 entry");
    assert_eq!(diags[0]["n"], 2);
    assert_eq!(diags[0]["r"], val("[[10,5,10,15],[10,-5,10,-5]]"));
}

#[test]
fn test_intercept_different_messages_not_deduped() {
    let compact = intercept_diags(
        r#"{"uri": "file:///test.rs", "diagnostics": [
            {"range": {"start": {"line": 10, "character": 5}, "end": {"line": 10, "character": 15}},
             "severity": 1, "message": "error A", "code": "E001"},
            {"range": {"start": {"line": 20, "character": 0}, "end": {"line": 20, "character": 10}},
             "severity": 2, "message": "error B", "code": "E002"}]}"#,
    );
    assert_eq!(compact["diagnostics"].as_array().unwrap().len(), 2);
}

#[test]
fn test_intercept_missing_uri_errors() {
    let c = DiagnosticsCompressor::default();
    let r = c.intercept("textDocument/publishDiagnostics", parse(r#"{"diagnostics": []}"#), Direction::ServerToClient);
    assert!(r.is_err());
}

// ── Other compressors ───────────────────────────────────────────────────

#[test]
fn test_range_compression() {
    let range = parse(r#"{"start": {"line": 42, "character": 7}, "end": {"line": 100, "character": 3}}"#);
    let compressed = to_value(&compress_range(&range));
    assert_eq!(compressed["s"]["l"], 42);
    assert_eq!(compressed["s"]["c"], 7);
    assert_eq!(compressed["e"]["l"], 100);
    assert_eq!(compressed["e"]["c"], 3);
    assert!(compressed.get("start").is_none());
    assert!(compressed.get("end").is_none());
}

#[test]
fn test_uri_pool_dedup() {
    let params = parse(
        r#"[
        { "uri": "file:///src/main.rs", "range": { "start": {"line": 1, "character": 0}, "end": {"line": 1, "character": 5} } },
        { "uri": "file:///src/main.rs", "range": { "start": {"line": 2, "character": 0}, "end": {"line": 2, "character": 5} } },
        { "uri": "file:///src/main.rs", "range": { "start": {"line": 3, "character": 0}, "end": {"line": 3, "character": 5} } },
        { "uri": "file:///src/lib.rs",  "range": { "start": {"line": 1, "character": 0}, "end": {"line": 1, "character": 5} } },
        { "uri": "file:///src/main.rs", "range": { "start": {"line": 4, "character": 0}, "end": {"line": 4, "character": 5} } },
        { "uri": "file:///src/lib.rs",  "range": { "start": {"line": 2, "character": 0}, "end": {"line": 2, "character": 5} } }
    ]"#,
    );
    let compact = to_value(&compress_locations(&params));
    let uris = compact["uris"].as_array().unwrap();
    assert_eq!(uris.len(), 2, "should have exactly 2 unique URIs");
    assert_eq!(uris[0], "file:///src/main.rs");
    let items = compact["items"].as_array().unwrap();
    assert_eq!(items.len(), 6);
    assert_eq!(items[0]["u"], 0);
    assert_eq!(items[1]["u"], 0);
    assert_eq!(items[2]["u"], 0);
    assert_eq!(items[4]["u"], 0);
    assert_eq!(items[3]["u"], 1);
    assert_eq!(items[5]["u"], 1);
}

#[test]
fn locations_fail_open_on_other_values() {
    let compact = to_value(&compress_locations(&Json::Str("not a location".into())));
    assert_eq!(compact["version"], 1);
    assert!(compact["uris"].as_array().unwrap().is_empty());
    assert!(compact["items"].as_array().unwrap().is_empty());
}

#[test]
fn test_workspace_diagnostics_to_toon() {
    let value = parse(
        r#"{"items": [
            { "_c": "u", "uri": "file:///src/a.rs", "version": 1 },
            { "kind": "full", "uri": "file:///src/b.rs", "version": 2,
              "diagnostics": [ { "m": "test error", "s": "E", "r": [[5, 0, 5, 10]] } ] }
        ]}"#,
    );
    let toon = workspace_diagnostics_to_toon(&value).unwrap();
    assert!(toon.contains("unchanged"));
    assert!(toon.contains("test error"));
    assert!(toon.contains("5:0-5:10"));
}

#[test]
fn test_workspace_symbols_to_toon() {
    let value = parse(
        r#"{"version": 1, "uris": ["file:///src/lib.rs"], "items": [
            { "n": "myFunction", "k": "u", "c": "utils",
              "l": { "u": 0, "r": { "s": { "l": 10, "c": 0 }, "e": { "l": 20, "c": 1 } } } }
        ]}"#,
    );
    let toon = workspace_symbols_to_toon(&value).unwrap();
    assert!(toon.contains("uris[1]:"));
    assert!(toon.contains("  file:///src/lib.rs"));
    assert!(toon.contains("symbols[1]{"));
    assert!(toon.contains("myFunction,function"));
}

#[test]
fn test_workspace_symbols_to_toon_empty() {
    let value = parse(r#"{"version": 1, "uris": [], "items": []}"#);
    let toon = workspace_symbols_to_toon(&value).unwrap();
    assert!(toon.contains("symbols[0]{"));
}

#[test]
fn compact_markdown_drops_blank_runs() {
    let out = compact_markdown("a\n\n\n\nb");
    assert!(!out.contains("\n\n\n"));
    assert!(out.starts_with('a'));
    assert!(out.ends_with('b'));
}

#[test]
fn capping_keeps_a_prefix() {
    let cap = CappingInterceptor::with_limits(2, 1, 1);
    let params = parse(r#"{"uri":"file:///t.rs","version":3,"diagnostics":[{"message":"a"},{"message":"b"},{"message":"c"}]}"#);
    let r = to_value(&cap.intercept("textDocument/publishDiagnostics", params, Direction::ServerToClient).unwrap().unwrap());
    assert_eq!(r["diagnostics"], val(r#"[{"message":"a"},{"message":"b"}]"#));
    assert_eq!(r["version"], 3);
    assert_eq!(r["uri"], "file:///t.rs");
}

// ── The chain ───────────────────────────────────────────────────────────

#[test]
fn chain_leaves_client_messages_unchanged() {
    let chain = InterceptorChain::new(default_interceptors());
    let params = parse(r#"{"uri":"file:///a.rs","diagnostics":[]}"#);
    let r = chain.process("textDocument/publishDiagnostics", params, Direction::ClientToServer).unwrap();
    assert_eq!(to_value(&r.unwrap()), val(r#"{"uri":"file:///a.rs","diagnostics":[]}"#));
}

#[test]
fn chain_fails_open() {
    let chain = InterceptorChain::new(vec![Interceptor::Diagnostics(DiagnosticsCompressor::default())]);
    let params = parse(r#"{"diagnostics":[]}"#);
    let r = chain.process("textDocument/publishDiagnostics", params, Direction::ServerToClient).unwrap();
    assert_eq!(to_value(&r.unwrap()), val(r#"{"diagnostics":[]}"#));
}

#[test]
fn server_outcome_rewrites_params_and_keeps_responses() {
    let chain = InterceptorChain::new(vec![Interceptor::Capping(CappingInterceptor::with_limits(1, 1, 1))]);
    let msg = parse(r#"{"jsonrpc":"2.0","method":"textDocument/publishDiagnostics","params":{"uri":"u","diagnostics":[1,2]}}"#);
    match server_message_outcome(&chain, Some(msg)) {
        ServerOutcome::Rewritten(j) => {
            assert_eq!(to_value(&j)["params"]["diagnostics"], val("[1]"));
            assert_eq!(to_value(&j)["method"], "textDocument/publishDiagnostics");
        }
        other => panic!("expected a rewrite, got {other:?}"),
    }
    let resp = parse(r#"{"jsonrpc":"2.0","id":1,"result":null}"#);
    assert!(matches!(server_message_outcome(&chain, Some(resp)), ServerOutcome::Unchanged));
    assert!(matches!(server_message_outcome(&chain, None), ServerOutcome::Unchanged));
}

#[test]
fn test_empty_chain_passthrough() {
    let chain = InterceptorChain::new(vec![]);
    let r = chain.process("someMethod", parse(r#"{"key": "value"}"#), Direction::ServerToClient).unwrap();
    assert_eq!(to_value(&r.unwrap()), val(r#"{"key": "value"}"#));
}

#[test]
fn interceptor_names() {
    assert_eq!(Interceptor::Hover(HoverCompressor::default()).name(), "hover_compressor");
    assert_eq!(Interceptor::Capping(CappingInterceptor::with_limits(0, 0, 0)).name(), "capping");
}
