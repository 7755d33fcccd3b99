use lspz::daemon::protocol::DaemonResponse;
use lspz::daemon::server::{reaper_step, route, session_key, unknown_method_message, Route, DAEMON_IDLE_TTL_SECS};
use lspz::daemon::socket::{hash_string, socket_path_for_workspace, workspace_slug};
use lspz::daemon::status::DaemonStatus;
use lspz::json::Json;

const CACHE: &str = "/home/user/.cache";

#[test]
fn test_socket_path_stable() {
    let a = socket_path_for_workspace("/home/user/project", CACHE);
    let b = socket_path_for_workspace("/home/user/project", CACHE);
    assert_eq!(a, b);
}

#[test]
fn test_socket_path_different_workspaces() {
    let a = socket_path_for_workspace("/home/user/project-a", CACHE);
    let b = socket_path_for_workspace("/home/user/project-b", CACHE);
    assert_ne!(a, b);
}

#[test]
fn test_slug_from_path() {
    assert_eq!(workspace_slug("/home/user/my-project"), "my-project");
    assert_eq!(workspace_slug("/"), "unknown");
    assert_eq!(workspace_slug("/no_trailing_slash"), "no_trailing_slash");
}

#[test]
fn test_hash_deterministic() {
    assert_eq!(hash_string("hello"), hash_string("hello"));
}

#[test]
fn socket_path_shape() {
    let p = socket_path_for_workspace("/home/user/my-project", CACHE);
    let h = format!("{:016x}", hash_string("/home/user/my-project"));
    assert_eq!(p, format!("/home/user/.cache/lspz/my-project-{h}.sock"));
    let q = socket_path_for_workspace("/home/user/my-project", "/tmp/");
    assert_eq!(q, format!("/tmp/lspz/my-project-{h}.sock"));
}

#[test]
fn test_record_counters_and_uptime() {
    let mut status = DaemonStatus::new(1_000);
    assert_eq!(status.total_connections, 0);
    assert_eq!(status.total_requests, 0);

    status.record_connection();
    status.record_request();
    status.record_request();
    status.refresh_uptime(1_000);

    assert_eq!(status.total_connections, 1);
    assert_eq!(status.total_requests, 2);
    assert!(status.uptime_secs < 60);
}

#[test]
fn uptime_counts_from_start() {
    let mut status = DaemonStatus::new(1_000);
    status.refresh_uptime(1_125);
    assert_eq!(status.uptime_secs, 125);
}

#[test]
fn touch_session_adds_then_bumps() {
    let mut status = DaemonStatus::new(100);
    status.touch_session("rust:ra", "rust", "ra", None, 110);
    status.touch_session("rust:ra", "rust", "ra", None, 150);
    status.touch_session("go:gopls:/w", "go", "gopls", Some("/w".to_string()), 160);
    assert_eq!(status.sessions.len(), 2);
    assert_eq!(status.sessions[0].request_count, 2);
    assert_eq!(status.sessions[0].created_at, 110);
    assert_eq!(status.sessions[0].last_used_at, 150);
    assert_eq!(status.sessions[1].workspace_root.as_deref(), Some("/w"));
    status.touch_by_key("absent", 200);
    assert_eq!(status.sessions.len(), 2);
}

#[test]
fn retain_sessions_keeps_live_ones_in_order() {
    let mut status = DaemonStatus::new(0);
    status.touch_session("a", "rust", "ra", None, 1);
    status.touch_session("b", "go", "gopls", None, 2);
    status.touch_session("c", "py", "pyright", None, 3);
    status.retain_sessions(&vec!["c".to_string(), "a".to_string()]);
    let keys: Vec<&str> = status.sessions.iter().map(|s| s.key.as_str()).collect();
    assert_eq!(keys, vec!["a", "c"]);
}

#[test]
fn status_reports() {
    let mut status = DaemonStatus::new(0);
    status.uptime_secs = 125;
    status.total_requests = 3;
    status.total_connections = 1;
    assert_eq!(
        status.format_human(200),
        "  Uptime: 2m 5s\n  Requests: 3\n  Connections: 1\n  Sessions: 0\n\n  (no active sessions)\n"
    );
    status.touch_session("rust:ra:/w", "rust", "ra", Some("/w".to_string()), 100);
    assert_eq!(
        status.format_human(230),
        "  Uptime: 2m 5s\n  Requests: 3\n  Connections: 1\n  Sessions: 1\n\n  rust (ra)\n    workspace: /w\n    key: rust:ra:/w\n    requests: 1\n    age: 2m\n    idle: 10s\n"
    );
    assert_eq!(
        status.format_toon(230),
        "# daemon status\n# uptime_secs=125\n# total_requests=3\n# total_connections=1\n# sessions=1\n#\n# key | language | backend | workspace | requests | age_s | idle_s\n# --- | -------- | ------- | --------- | -------- | ----- | ------\nrust:ra:/w | rust | ra | /w | 1 | 130 | 130\n"
    );
}

#[test]
fn routes_by_method() {
    assert_eq!(route("lsp/spawn"), Route::Spawn);
    assert_eq!(route("lsp/request"), Route::Request);
    assert_eq!(route("lsp/notify"), Route::Notify);
    assert_eq!(route("lsp/wait_notify"), Route::WaitNotify);
    assert_eq!(route("daemon/status"), Route::Status);
    assert_eq!(route("daemon/shutdown"), Route::Shutdown);
    assert_eq!(route("other"), Route::Unknown);
    assert_eq!(unknown_method_message("other"), "Unknown method: other");
}

#[test]
fn session_keys() {
    assert_eq!(session_key("rust", "ra", Some("/w")), "rust:ra:/w");
    assert_eq!(session_key("rust", "ra", None), "rust:ra");
}

#[test]
fn reaper_exits_after_idle_ttl() {
    assert_eq!(reaper_step(None, true, 10), (None, false));
    assert_eq!(reaper_step(Some(5), true, 10), (None, false));
    assert_eq!(reaper_step(None, false, 10), (Some(10), false));
    assert_eq!(reaper_step(Some(10), false, 10 + DAEMON_IDLE_TTL_SECS - 1), (Some(10), false));
    assert_eq!(reaper_step(Some(10), false, 10 + DAEMON_IDLE_TTL_SECS), (Some(10), true));
}

#[test]
fn test_daemon_response_ok() {
    let r = DaemonResponse::ok(1, Json::Bool(true));
    assert_eq!(r.id, 1);
    assert!(r.error.is_none());
    assert!(matches!(r.result, Json::Bool(true)));
}

#[test]
fn test_daemon_response_err() {
    let r = DaemonResponse::err(2, "boom");
    assert_eq!(r.id, 2);
    assert_eq!(r.error.as_deref(), Some("boom"));
    assert!(matches!(r.result, Json::Null));
}
