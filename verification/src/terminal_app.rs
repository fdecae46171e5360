//! Session state of a terminal window.

use vstd::prelude::*;

verus! {

/// Where a terminal session stands.
#[derive(Debug, Clone)]
pub enum TerminalStatus {
    Connecting,
    Connected,
    Disconnected(String),
    Error(String),
    HostNotFound,
}

/// What a terminal session connects to.
#[derive(Debug, Clone)]
pub enum TerminalInit {
    /// A saved host, by name.
    SavedHost(String),
    /// A one-off SSH connection.
    QuickSsh { address: String, port: u16, user: String, pass: String },
}

} // verus!
