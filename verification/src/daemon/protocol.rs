//! The messages between daemon clients and the daemon (newline-delimited
//! JSON; each request has an id that its response repeats).
use vstd::prelude::*;

use crate::json::{opt_view, Json, JsonV};

verus! {

/// A request from a client to the daemon.
#[derive(Debug)]
pub struct DaemonRequest {
    /// The id its response repeats.
    pub id: u64,
    /// The method name.
    pub method: String,
    /// The params of the method.
    pub params: Json,
}

/// A response from the daemon.
#[derive(Debug)]
pub struct DaemonResponse {
    /// The id of the request.
    pub id: u64,
    /// The error message, on failure.
    pub error: Option<String>,
    /// The result (`null` on failure).
    pub result: Json,
}

impl DaemonResponse {
    /// A success response.
    pub fn ok(id: u64, result: Json) -> (r: DaemonResponse)
        ensures
            r.id == id,
            r.error is None,
            r.result@ == result@,
    {
        DaemonResponse { id, error: None, result }
    }

    /// An error response.
    pub fn err(id: u64, message: &str) -> (r: DaemonResponse)
        ensures
            r.id == id,
            r.error matches Some(m) && m@ == message@,
            r.result@ == JsonV::Null,
    {
        DaemonResponse { id, error: Some(message.to_owned()), result: Json::Null }
    }
}

/// The params of `lsp/spawn`: get or create a session.
#[derive(Debug)]
pub struct SpawnParams {
    /// The language identifier.
    pub language: String,
    /// The server command.
    pub backend: String,
    /// The canonical workspace root, if any.
    pub root_path: Option<String>,
    /// Extra arguments for the server.
    pub extra_args: Vec<String>,
}

/// The params of `lsp/request`: send a request and wait for its response.
#[derive(Debug)]
pub struct LspRequestParams {
    /// The session key (`language:backend:root`).
    pub session_key: String,
    /// The LSP method.
    pub method: String,
    /// The LSP params.
    pub params: Json,
}

/// The params of `lsp/notify`: send a notification.
#[derive(Debug)]
pub struct LspNotifyParams {
    /// The session key.
    pub session_key: String,
    /// The LSP method.
    pub method: String,
    /// The LSP params.
    pub params: Json,
}

/// The params of `lsp/wait_notify`: wait for a notification from the server.
#[derive(Debug)]
pub struct WaitNotifyParams {
    /// The session key.
    pub session_key: String,
    /// The notification method to wait for.
    pub method: String,
    /// The document URI to wait for, if any.
    pub filter_uri: Option<String>,
    /// How long to wait, in milliseconds (the session default when absent).
    pub timeout_ms: Option<u64>,
}

/// The params of `lsp/sync_document`: open or update a document.
#[derive(Debug)]
pub struct SyncDocumentParams {
    /// The session key.
    pub session_key: String,
    /// The document URI.
    pub uri: String,
    /// The LSP language id.
    pub language_id: String,
    /// The full text.
    pub content: String,
}

} // verus!
