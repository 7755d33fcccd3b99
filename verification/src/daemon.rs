//! The daemon that keeps language server sessions alive between clients: its
//! socket path, its status and its wire types.
pub mod protocol;
pub mod report;
pub mod server;
pub mod socket;
pub mod status;
