use lspz::agent::{
    agent_interceptor_chain, backend_for, file_uri_path, process_through_chain, AgentBuilder,
    AgentPoolBuilder,
};
use lspz::command::{backend_help_command, program_and_args, spawn_parts};
use lspz::config::{Config, EnvSettings, OutputFormat};
use lspz::error::LspzError;
use lspz::init::{
    build_lspz_md_content, instructions_with_ref, instructions_without_ref, format_mcp_entry,
    is_mcp_registered, patch_settings, remove_mcp_entry, status_icon, PatchResult, LSPZ_MD_REF,
    LSPZ_SLIM,
};
use lspz::interceptors::capping::CappingInterceptor;
use lspz::interceptors::{Interceptor, InterceptorChain};
use lspz::json::Json;
use lspz::languages::{default_args_by_extension, generate_language_table, lookup_by_extension};
use lspz::proxy::{Handshake, ProxyAction, ProxyEvent, ProxyMachine, Source, State};

fn to_json(v: &serde_json::Value) -> Json {
    match v {
        serde_json::Value::Null => Json::Null,
        serde_json::Value::Bool(b) => Json::Bool(*b),
        serde_json::Value::Number(n) => {
            if let Some(i) = n.as_i64() {
                Json::Int(i)
            } else if let Some(u) = n.as_u64() {
                Json::UInt(u)
            } else {
                Json::Float(n.to_string())
            }
        }
        serde_json::Value::String(s) => Json::Str(s.clone()),
        serde_json::Value::Array(a) => Json::Array(a.iter().map(to_json).collect()),
        serde_json::Value::Object(o) => {
            Json::Object(o.iter().map(|(k, v)| (k.clone(), to_json(v))).collect())
        }
    }
}

fn to_value(j: &Json) -> serde_json::Value {
    match j {
        Json::Null => serde_json::Value::Null,
        Json::Bool(b) => serde_json::Value::Bool(*b),
        Json::Int(i) => serde_json::Value::from(*i),
        Json::UInt(u) => serde_json::Value::from(*u),
        Json::Float(s) => serde_json::from_str(s).unwrap(),
        Json::Str(s) => serde_json::Value::String(s.clone()),
        Json::Array(a) => serde_json::Value::Array(a.iter().map(to_value).collect()),
        Json::Object(o) => {
            let mut m = serde_json::Map::new();
            for (k, v) in o {
                m.insert(k.clone(), to_value(v));
            }
            serde_json::Value::Object(m)
        }
    }
}

fn parse(text: &str) -> Json {
    to_json(&serde_json::from_str::<serde_json::Value>(text).unwrap())
}

fn val(text: &str) -> serde_json::Value {
    serde_json::from_str(text).unwrap()
}

// ── Languages ───────────────────────────────────────────────────────────

#[test]
fn test_generate_language_table_contains_status_column() {
    let table = generate_language_table(&[true, false, true, true, false, true, true]);
    assert!(table.contains("| Extensions | Language | Backend | Status |"));
    assert!(table.contains("`rust`"));
}

#[test]
fn lookup_by_extension_finds_rust() {
    let (lang, cmd) = lookup_by_extension("rs").unwrap();
    assert_eq!(lang, "rust");
    assert!(cmd.starts_with("rust-analyzer"));
    assert!(lookup_by_extension("zzz").is_none());
    assert!(default_args_by_extension("zzz").is_empty());
}

// ── Configuration ───────────────────────────────────────────────────────

#[test]
fn config_requires_backend() {
    match Config::builder().build(&EnvSettings::none()) {
        Err(LspzError::Config(m)) => assert_eq!(m, "backend_cmd is required"),
        _ => panic!("expected a configuration error"),
    }
}

#[test]
fn config_defaults_and_environment() {
    let c = Config::builder().backend_cmd("rust-analyzer").build(&EnvSettings::none()).unwrap();
    assert_eq!(c.backend_cmd, "rust-analyzer");
    assert!(c.enable_diag_compress && c.enable_completion_compress && c.enable_hover_compress);
    assert_eq!(c.output_format, OutputFormat::Toon);
    assert_eq!(c.log_level, "info");
    assert_eq!(c.capping.max_diags, 0);

    let env = EnvSettings {
        backend_cmd: Some("gopls".into()),
        enable_hover_compress: Some("false".into()),
        enable_diag_compress: Some("not-a-bool".into()),
        output_format: Some("json".into()),
        max_diags: Some("5".into()),
        ..EnvSettings::none()
    };
    let c = Config::builder().build(&env).unwrap();
    assert_eq!(c.backend_cmd, "gopls");
    assert!(!c.enable_hover_compress);
    assert!(c.enable_diag_compress);
    assert_eq!(c.output_format, OutputFormat::Json);
    assert_eq!(c.capping.max_diags, 5);

    let c = Config::builder().backend_cmd("x").enable_hover_compress(true).build(&env).unwrap();
    assert_eq!(c.backend_cmd, "x");
    assert!(c.enable_hover_compress);
}

// ── init ────────────────────────────────────────────────────────────────

#[test]
fn lspz_md_content() {
    let content = build_lspz_md_content(&[true; 7]);
    assert!(content.starts_with(LSPZ_SLIM));
    assert!(content.contains("Mappings"));
    assert_eq!(status_icon(true), "[ok]");
    assert_eq!(status_icon(false), "[missing]");
    assert_eq!(
        format_mcp_entry("/bin/lspz"),
        r#"{"mcpServers": {"lspz": {"command": "/bin/lspz", "args": ["mcp"]}}}"#
    );
}

#[test]
fn instruction_reference_added_once() {
    assert_eq!(instructions_with_ref(None).unwrap(), "@LSPZ.md\n");
    let added = instructions_with_ref(Some("# Existing content\n")).unwrap();
    assert!(added.starts_with("# Existing content"));
    assert!(added.contains(LSPZ_MD_REF));
    assert!(instructions_with_ref(Some(&added)).is_none());
}

#[test]
fn instruction_reference_removed_keeps_other_lines() {
    let with = instructions_with_ref(Some("# Title\n@AGENTS.md\n")).unwrap();
    let without = instructions_without_ref(&with).unwrap();
    assert_eq!(without, "# Title\n@AGENTS.md\n");
    assert!(instructions_without_ref("# No ref here\n").is_none());
}

#[test]
fn settings_patch_and_remove() {
    let root = parse(r#"{"theme":"dark"}"#);
    let (res, new) = patch_settings(root, "/bin/lspz", false).unwrap();
    assert_eq!(res, PatchResult::Patched);
    let new = new.unwrap();
    assert_eq!(
        to_value(&new),
        val(r#"{"theme":"dark","mcpServers":{"lspz":{"command":"/bin/lspz","args":["mcp"]}}}"#)
    );
    assert!(is_mcp_registered(Some(&new), "/bin/lspz"));
    assert!(!is_mcp_registered(Some(&new), "/other"));
    assert!(!is_mcp_registered(None, "/bin/lspz"));

    let (res, none) = patch_settings(parse(&to_value(&new).to_string()), "/bin/lspz", false).unwrap();
    assert_eq!(res, PatchResult::AlreadyPresent);
    assert!(none.is_none());
    let (res, none) = patch_settings(parse("{}"), "/bin/lspz", true).unwrap();
    assert_eq!(res, PatchResult::WouldPatch);
    assert!(none.is_none());
    assert!(matches!(patch_settings(parse("[]"), "/bin/lspz", false), Err(LspzError::Config(_))));

    let (removed, after) = remove_mcp_entry(new);
    assert!(removed);
    assert_eq!(to_value(&after), val(r#"{"theme":"dark","mcpServers":{}}"#));
    let (removed, _) = remove_mcp_entry(after);
    assert!(!removed);
}

// ── Agent SDK ───────────────────────────────────────────────────────────

#[test]
fn test_builder_missing_backend() {
    let err = AgentBuilder::default().language("rust").settings().unwrap_err();
    assert!(err.describe().contains("backend"), "{err:?}");
}

#[test]
fn test_builder_missing_language() {
    let err = AgentBuilder::default().backend("rust-analyzer").settings().unwrap_err();
    assert!(err.describe().contains("language"), "{err:?}");
}

#[test]
fn builder_settings() {
    let s = AgentBuilder::default().backend("gopls").language("go").enable_compression(true).settings().unwrap();
    assert_eq!(s.backend, "gopls");
    assert_eq!(s.language, "go");
    assert!(s.compression);
}

#[test]
fn test_uri_must_be_file() {
    let err = file_uri_path("http://example.com/test.rs").unwrap_err();
    assert!(err.describe().contains("URI must start with file://"), "{err:?}");
    assert_eq!(file_uri_path("file:///tmp/a.rs").unwrap(), "/tmp/a.rs");
}

#[test]
fn pool_test_builder_register_languages() {
    let pool = AgentPoolBuilder::default().register("rust", "rust-analyzer").register("go", "gopls");
    let table = pool.backend_table();
    assert_eq!(table.len(), 2);
}

#[test]
fn pool_later_registration_wins() {
    let pool = AgentPoolBuilder::default()
        .register("rust", "rust-analyzer")
        .register("go", "gopls")
        .register("rust", "ra-nightly")
        .workspace_root("/w");
    let table = pool.backend_table();
    assert_eq!(table.len(), 2);
    let cfg = backend_for(&table, "rust").unwrap();
    assert_eq!(cfg.backend, "ra-nightly");
    assert_eq!(cfg.workspace_root.as_deref(), Some("/w"));
}

#[test]
fn pool_test_get_diagnostics_unknown_language() {
    let pool = AgentPoolBuilder::default().register("rust", "rust-analyzer");
    let table = pool.backend_table();
    let err = backend_for(&table, "python").unwrap_err();
    assert!(err.describe().contains("no backend registered"), "{err:?}");
}

#[test]
fn process_through_chain_with_and_without_compression() {
    let params = parse(r#"{"uri":"u","diagnostics":[1,2,3]}"#);
    let same = process_through_chain(None, "textDocument/publishDiagnostics", params);
    assert_eq!(to_value(&same), val(r#"{"uri":"u","diagnostics":[1,2,3]}"#));
    let chain = InterceptorChain::new(vec![Interceptor::Capping(CappingInterceptor::with_limits(2, 0, 0))]);
    let params = parse(r#"{"uri":"u","diagnostics":[1,2,3]}"#);
    let capped = process_through_chain(Some(&chain), "textDocument/publishDiagnostics", params);
    assert_eq!(to_value(&capped), val(r#"{"uri":"u","diagnostics":[1,2]}"#));
}

// ── Backend commands ────────────────────────────────────────────────────

#[test]
fn spawn_parts_split_command_line() {
    let (p, a) = spawn_parts("rust-analyzer --log 'a b'").unwrap();
    assert_eq!(p, "rust-analyzer");
    assert_eq!(a, vec!["--log".to_string(), "a b".to_string()]);
    match spawn_parts("   ") {
        Err(LspzError::Config(m)) => assert_eq!(m, "empty backend command"),
        _ => panic!("expected a configuration error"),
    }
    match spawn_parts("gopls 'x") {
        Err(LspzError::Config(m)) => assert_eq!(m, "failed to parse command 'gopls 'x': missing closing quote"),
        _ => panic!("expected a configuration error"),
    }
    let (p, a) = program_and_args("x", Some(vec!["a".into(), "b".into()])).unwrap();
    assert_eq!((p.as_str(), a), ("a", vec!["b".to_string()]));
}

#[test]
fn backend_help_only_when_asked() {
    assert!(backend_help_command("gopls serve", &vec!["-v".into()]).is_none());
    let (p, a) = backend_help_command("gopls serve", &vec!["--help".into()]).unwrap().unwrap();
    assert_eq!(p, "gopls");
    assert_eq!(a, vec!["serve".to_string(), "--help".to_string()]);
    match backend_help_command("'gopls", &vec!["-h".into()]) {
        Some(Err(LspzError::Config(m))) => {
            assert_eq!(m, "Failed to parse backend command ''gopls': missing closing quote")
        }
        _ => panic!("expected a parse error"),
    }
    match backend_help_command("  ", &vec!["--help".into()]) {
        Some(Err(LspzError::Config(m))) => assert_eq!(m, "Empty backend command"),
        _ => panic!("expected an empty-command error"),
    }
}

// ── The proxy state machine ─────────────────────────────────────────────

fn client(method: &str) -> ProxyEvent {
    ProxyEvent::FromClient(Ok(parse(&format!(r#"{{"jsonrpc":"2.0","id":1,"method":"{method}"}}"#))))
}

#[test]
fn proxy_handshake_then_loop_then_shutdown() {
    let mut m = ProxyMachine::new();
    assert_eq!(m.state(), State::Created);
    assert_eq!(m.next_read(), Source::Nothing);
    assert!(matches!(m.on_event(ProxyEvent::Start), ProxyAction::Wait));
    assert_eq!(m.state(), State::Initializing);
    assert_eq!(m.next_read(), Source::Client);
    assert!(matches!(m.on_event(client("initialize")), ProxyAction::SendToServer));
    assert_eq!(m.next_read(), Source::Server);
    assert!(matches!(m.on_event(ProxyEvent::FromServer), ProxyAction::WriteToClient));
    assert_eq!(m.handshake, Handshake::AwaitInitialized);
    assert!(matches!(m.on_event(client("initialized")), ProxyAction::SendToServer));
    assert_eq!(m.state(), State::Ready);
    assert_eq!(m.next_read(), Source::Either);
    assert!(matches!(m.on_event(client("textDocument/hover")), ProxyAction::SendToServer));
    assert!(matches!(m.on_event(ProxyEvent::FromServer), ProxyAction::InterceptToClient));
    assert!(matches!(m.on_event(client("shutdown")), ProxyAction::SendToServer));
    assert_eq!(m.state(), State::ShuttingDown);
    assert_eq!(m.next_read(), Source::Server);
    assert!(matches!(m.on_event(ProxyEvent::FromServer), ProxyAction::WriteToClient));
    assert_eq!(m.state(), State::Exited);
    assert_eq!(m.next_read(), Source::Nothing);
    assert!(matches!(m.on_event(ProxyEvent::FromServer), ProxyAction::Wait));
}

#[test]
fn proxy_handshake_rejects_wrong_method() {
    let mut m = ProxyMachine::new();
    m.on_event(ProxyEvent::Start);
    match m.on_event(client("shutdown")) {
        ProxyAction::Finish(Err(LspzError::Protocol(msg))) => {
            assert_eq!(msg, "expected 'initialize', got 'shutdown'")
        }
        other => panic!("unexpected {other:?}"),
    }
    assert_eq!(m.state(), State::Initializing);
}

#[test]
fn proxy_stream_ends() {
    let ready = || {
        let mut m = ProxyMachine::new();
        m.on_event(ProxyEvent::Start);
        m.on_event(client("initialize"));
        m.on_event(ProxyEvent::FromServer);
        m.on_event(client("initialized"));
        m
    };
    let mut m = ready();
    assert!(matches!(m.on_event(ProxyEvent::ClientFailed(LspzError::ServerExited)), ProxyAction::Finish(Ok(()))));
    assert_eq!(m.state(), State::Exited);
    let mut m = ready();
    assert!(matches!(
        m.on_event(ProxyEvent::ServerFailed(LspzError::ServerExited)),
        ProxyAction::Finish(Err(LspzError::ServerExited))
    ));
    assert_eq!(m.state(), State::Exited);
    let mut m = ready();
    assert!(matches!(
        m.on_event(ProxyEvent::ClientFailed(LspzError::Io("x".into()))),
        ProxyAction::Finish(Err(LspzError::Io(_)))
    ));
    assert_eq!(m.state(), State::Ready);
}

#[test]
fn agent_chain_compresses_diagnostics() {
    let chain = agent_interceptor_chain();
    let params = parse(
        r#"{"uri":"file:///test.rs","diagnostics":[{"range":{"start":{"line":0,"character":0},"end":{"line":0,"character":1}},"severity":1,"message":"test error"}]}"#,
    );
    let out = to_value(&process_through_chain(Some(&chain), "textDocument/publishDiagnostics", params));
    assert_eq!(out["version"], 1);
    assert_eq!(out["uri"], "file:///test.rs");
    assert_eq!(out["diagnostics"][0]["m"], "test error");
    assert_eq!(out["diagnostics"][0]["s"], "E");
}
