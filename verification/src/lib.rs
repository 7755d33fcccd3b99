//! lspz: an LSP proxy library that compresses language server responses for
//! coding agents. Client messages pass unchanged; server responses go through
//! a chain of interceptors that write them in a compact form, and a failing
//! interceptor forwards its input as it came.
pub mod agent;
pub mod command;
pub mod compact;
pub mod config;
pub mod daemon;
pub mod error;
pub mod init;
pub mod framing;
pub mod interceptors;
pub mod json;
pub mod json_rpc;
pub mod json_text;
pub mod languages;
pub mod proxy;
pub mod text;
pub mod toon;
