use lspz::agent::{compress_text, inflate_text};
use lspz::compact::{compress, decompress, CompactDiagnostics};
use lspz::interceptors::diagnostics::DiagnosticsCompressor;
use lspz::interceptors::Direction;
use lspz::json::Json;

fn to_json(v: &serde_json::Value) -> Json {
    match v {
        serde_json::Value::Null => Json::Null,
        serde_json::Value::Bool(b) => Json::Bool(*b),
        serde_json::Value::Number(n) => {
            if let Some(i) = n.as_i64() {
                Json::Int(i)
            } else if let Some(u) = n.as_u64() {
                Json::UInt(u)
            } else {
                Json::Float(n.to_string())
            }
        }
        serde_json::Value::String(s) => Json::Str(s.clone()),
        serde_json::Value::Array(a) => Json::Array(a.iter().map(to_json).collect()),
        serde_json::Value::Object(o) => {
            Json::Object(o.iter().map(|(k, v)| (k.clone(), to_json(v))).collect())
        }
    }
}

fn to_value(j: &Json) -> serde_json::Value {
    match j {
        Json::Null => serde_json::Value::Null,
        Json::Bool(b) => serde_json::Value::Bool(*b),
        Json::Int(i) => serde_json::Value::from(*i),
        Json::UInt(u) => serde_json::Value::from(*u),
        Json::Float(s) => serde_json::from_str(s).unwrap(),
        Json::Str(s) => serde_json::Value::String(s.clone()),
        Json::Array(a) => serde_json::Value::Array(a.iter().map(to_value).collect()),
        Json::Object(o) => {
            let mut m = serde_json::Map::new();
            for (k, v) in o {
                m.insert(k.clone(), to_value(v));
            }
            serde_json::Value::Object(m)
        }
    }
}

fn parse(text: &str) -> Json {
    to_json(&serde_json::from_str::<serde_json::Value>(text).unwrap())
}

fn val(text: &str) -> serde_json::Value {
    serde_json::from_str(text).unwrap()
}

/// gopls-style diagnostics: 9 unused variables (same code, different names),
/// 2 unused imports, 1 type mismatch and 1 unused parameter.
fn gopls_diagnostics() -> Json {
    let mut diags: Vec<String> = Vec::new();
    let var_names = ["unusedVar", "anotherVar", "x", "temp", "result", "count", "index", "value", "data"];
    for (i, name) in var_names.iter().enumerate() {
        diags.push(format!(
            r#"{{"range":{{"start":{{"line":{l},"character":5}},"end":{{"line":{l},"character":{e}}}}},"severity":2,"message":"declared and not used: {name}","code":"UnusedVar","source":"gopls"}}"#,
            l = i * 2,
            e = 5 + name.len()
        ));
    }
    for (i, pkg) in ["os", "fmt"].iter().enumerate() {
        diags.push(format!(
            r#"{{"range":{{"start":{{"line":{l},"character":0}},"end":{{"line":{l},"character":10}}}},"severity":2,"message":"\"{pkg}\" imported and not used","code":"UnusedImport","source":"gopls"}}"#,
            l = 20 + i
        ));
    }
    diags.push(r#"{"range":{"start":{"line":30,"character":5},"end":{"line":30,"character":15}},"severity":1,"message":"cannot use str (type string) as type int in assignment","code":"Assignment","source":"gopls"}"#.to_string());
    diags.push(r#"{"range":{"start":{"line":35,"character":10},"end":{"line":35,"character":20}},"severity":2,"message":"param paramName is unused","code":"unusedparam","source":"gopls"}"#.to_string());
    parse(&format!(r#"{{"uri":"file:///test/main.go","diagnostics":[{}]}}"#, diags.join(",")))
}

fn rust_analyzer_diagnostics() -> Json {
    parse(
        r#"{"uri": "file:///test/src/main.rs", "diagnostics": [
            {"range": {"start": {"line": 2, "character": 8}, "end": {"line": 2, "character": 13}},
             "severity": 2, "message": "unused variable: `x`", "code": "unused_variables", "source": "rust-analyzer"},
            {"range": {"start": {"line": 3, "character": 8}, "end": {"line": 3, "character": 13}},
             "severity": 2, "message": "unused variable: `y`", "code": "unused_variables", "source": "rust-analyzer"},
            {"range": {"start": {"line": 5, "character": 13}, "end": {"line": 5, "character": 22}},
             "severity": 1, "message": "cannot find value `unknown_fn` in this scope", "code": "E0425", "source": "rust-analyzer"}
        ]}"#,
    )
}

fn diagnostic_count(v: &Json) -> usize {
    to_value(v)["diagnostics"].as_array().unwrap().len()
}

#[test]
fn compression_integration_test_gopls_compression_roundtrip() {
    let params = gopls_diagnostics();
    let original_count = diagnostic_count(&params);
    let compact_val = compress(&params).expect("gopls compression should succeed");
    let compact = CompactDiagnostics::from_json(&compact_val).expect("should read back");
    let decompressed = decompress(&compact_val).expect("decompression should succeed");
    assert!(diagnostic_count(&decompressed) >= original_count);
    assert_eq!(compact.uri, "file:///test/main.go");
    assert_eq!(compact.version, 1);
}

#[test]
fn compression_integration_test_gopls_dedup_with_normalization() {
    let compressor = DiagnosticsCompressor::default();
    let compact = compressor
        .intercept("textDocument/publishDiagnostics", gopls_diagnostics(), Direction::ServerToClient)
        .expect("compression should succeed")
        .expect("should produce output");
    let v = to_value(&compact);
    let diags = v["diagnostics"].as_array().unwrap();
    assert_eq!(diags.len(), 4, "gopls 13 diags → 4 groups with normalization");
    let unused_var = diags.iter().find(|d| d["m"] == "unused variable").unwrap();
    assert_eq!(unused_var["n"], 9, "unused variable count should be 9");
    assert_eq!(unused_var["s"], "W");
}

#[test]
fn compression_integration_test_rust_analyzer_compression_roundtrip() {
    let params = rust_analyzer_diagnostics();
    let original_count = diagnostic_count(&params);
    let compact_val = compress(&params).expect("rust-analyzer compression should succeed");
    let decompressed = decompress(&compact_val).expect("decompression should succeed");
    assert!(diagnostic_count(&decompressed) >= original_count);
    assert_eq!(to_value(&decompressed)["uri"], "file:///test/src/main.rs");
}

#[test]
fn compression_integration_test_rust_analyzer_dedup() {
    let compressor = DiagnosticsCompressor::default();
    let compact = compressor
        .intercept("textDocument/publishDiagnostics", rust_analyzer_diagnostics(), Direction::ServerToClient)
        .expect("compression should succeed")
        .expect("should produce output");
    assert_eq!(diagnostic_count(&compact), 2, "rust-analyzer 3 diags → 2 groups");
}

#[test]
fn compression_integration_test_normalization_increases_dedup() {
    let with_norm = DiagnosticsCompressor::default();
    let without_norm = DiagnosticsCompressor { enable_normalisation: false };
    let with_groups = diagnostic_count(
        &with_norm
            .intercept("textDocument/publishDiagnostics", gopls_diagnostics(), Direction::ServerToClient)
            .unwrap()
            .unwrap(),
    );
    let without_groups = diagnostic_count(
        &without_norm
            .intercept("textDocument/publishDiagnostics", gopls_diagnostics(), Direction::ServerToClient)
            .unwrap()
            .unwrap(),
    );
    assert!(with_groups < without_groups, "Normalization should reduce groups: {with_groups} < {without_groups}");
}

#[test]
fn test_compress() {
    let raw = r#"{"uri":"file:///test.rs","diagnostics":[{"range":{"start":{"line":0,"character":0},"end":{"line":1,"character":0}},"severity":1,"message":"test"}]}"#;
    let compact = compress_text(raw).unwrap();
    let parsed: serde_json::Value = serde_json::from_str(&compact).unwrap();
    assert!(parsed["diagnostics"][0].get("r").is_some() || parsed.get("r").is_some());
}

#[test]
fn test_inflate_compress_roundtrip() {
    let raw = r#"{"uri":"file:///test.rs","diagnostics":[{"range":{"start":{"line":0,"character":0},"end":{"line":1,"character":0}},"severity":1,"message":"roundtrip test"}]}"#;
    let compact = compress_text(raw).unwrap();
    let expanded = inflate_text(&compact).unwrap();
    let back: serde_json::Value = serde_json::from_str(&expanded).unwrap();
    assert_eq!(back["diagnostics"][0]["message"], "roundtrip test");
}

fn basedpyright_diagnostics() -> Json {
    parse(
        r#"{"uri": "file:///test/src/main.py", "diagnostics": [
            {"range": {"start": {"line": 1, "character": 0}, "end": {"line": 1, "character": 10}}, "severity": 1,
             "message": "Argument of type 'int' is not assignable to parameter of type 'str'", "code": "reportGeneralTypeIssues", "source": "basedpyright"},
            {"range": {"start": {"line": 3, "character": 0}, "end": {"line": 3, "character": 14}}, "severity": 2,
             "message": "\"os\" is not accessed", "code": "reportUnusedImport", "source": "basedpyright"},
            {"range": {"start": {"line": 4, "character": 0}, "end": {"line": 4, "character": 16}}, "severity": 2,
             "message": "\"typing\" is not accessed", "code": "reportUnusedImport", "source": "basedpyright"},
            {"range": {"start": {"line": 6, "character": 4}, "end": {"line": 6, "character": 10}}, "severity": 2,
             "message": "Variable \"result\" is not used", "code": "reportUnusedVariable", "source": "basedpyright"},
            {"range": {"start": {"line": 7, "character": 4}, "end": {"line": 7, "character": 8}}, "severity": 2,
             "message": "Variable \"temp\" is not used", "code": "reportUnusedVariable", "source": "basedpyright"},
            {"range": {"start": {"line": 9, "character": 0}, "end": {"line": 9, "character": 1}}, "severity": 1,
             "message": "Name \"undefined_var\" is not defined", "code": "reportUndefinedVariable", "source": "basedpyright"}
        ]}"#,
    )
}

fn typescript_diagnostics() -> Json {
    parse(
        r#"{"uri": "file:///test/src/app.ts", "diagnostics": [
            {"range": {"start": {"line": 1, "character": 7}, "end": {"line": 1, "character": 12}}, "severity": 1,
             "message": "Type 'number' is not assignable to type 'string'.", "code": 2322, "source": "ts"},
            {"range": {"start": {"line": 3, "character": 7}, "end": {"line": 3, "character": 16}}, "severity": 1,
             "message": "Type 'null' is not assignable to type 'string'.", "code": 2322, "source": "ts"},
            {"range": {"start": {"line": 5, "character": 10}, "end": {"line": 5, "character": 14}}, "severity": 2,
             "message": "'temp' is declared but its value is never read.", "code": 6133, "source": "ts"},
            {"range": {"start": {"line": 6, "character": 10}, "end": {"line": 6, "character": 15}}, "severity": 2,
             "message": "'count' is declared but its value is never read.", "code": 6133, "source": "ts"},
            {"range": {"start": {"line": 8, "character": 1}, "end": {"line": 8, "character": 6}}, "severity": 1,
             "message": "Property 'nonExistent' does not exist on type 'MyType'.", "code": 2339, "source": "ts"},
            {"range": {"start": {"line": 10, "character": 0}, "end": {"line": 10, "character": 17}}, "severity": 1,
             "message": "Cannot find name 'unknownFn'. Did you mean 'knownFn'?", "code": 2552, "source": "ts"}
        ]}"#,
    )
}

#[test]
fn test_basedpyright_compression_roundtrip() {
    let params = basedpyright_diagnostics();
    let original_count = diagnostic_count(&params);
    let compact_val = compress(&params).expect("basedpyright compression should succeed");
    let compact = CompactDiagnostics::from_json(&compact_val).expect("should read back");
    let decompressed = decompress(&compact_val).expect("decompression should succeed");
    assert!(diagnostic_count(&decompressed) >= original_count);
    assert_eq!(compact.uri, "file:///test/src/main.py");
    assert_eq!(compact.version, 1);
}

#[test]
fn test_basedpyright_dedup() {
    let compact = DiagnosticsCompressor::default()
        .intercept("textDocument/publishDiagnostics", basedpyright_diagnostics(), Direction::ServerToClient)
        .expect("compression should succeed")
        .expect("should produce output");
    assert_eq!(diagnostic_count(&compact), 4, "basedpyright: expected 4 groups");
}

#[test]
fn test_typescript_compression_roundtrip() {
    let params = typescript_diagnostics();
    let original_count = diagnostic_count(&params);
    let compact_val = compress(&params).expect("typescript compression should succeed");
    let compact = CompactDiagnostics::from_json(&compact_val).expect("should read back");
    let decompressed = decompress(&compact_val).expect("decompression should succeed");
    assert!(diagnostic_count(&decompressed) >= original_count);
    assert_eq!(compact.uri, "file:///test/src/app.ts");
    assert_eq!(compact.version, 1);
}

#[test]
fn test_typescript_dedup() {
    let compact = DiagnosticsCompressor::default()
        .intercept("textDocument/publishDiagnostics", typescript_diagnostics(), Direction::ServerToClient)
        .expect("compression should succeed")
        .expect("should produce output");
    assert_eq!(diagnostic_count(&compact), 4, "typescript: expected 4 groups");
}

#[test]
fn test_inflate() {
    let raw = r#"{"uri": "file:///test.rs", "diagnostics": [{"range": {"start": {"line": 0, "character": 0}, "end": {"line": 1, "character": 0}}, "severity": 1, "message": "test error"}]}"#;
    let compact = compress_text(raw).unwrap();
    let expanded = inflate_text(&compact).unwrap();
    let parsed: serde_json::Value = serde_json::from_str(&expanded).unwrap();
    assert_eq!(parsed["diagnostics"][0]["message"], "test error");
}
