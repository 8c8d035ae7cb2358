//! Responses sent from the guest daemon to the host, one JSON line each.
//! Hosts skip any response they do not act on (forward compatibility).

use vstd::prelude::*;

verus! {

/// A response line sent from the guest daemon to the UI host.
#[derive(Debug, Clone)]
pub enum GuestResponse {
    /// A chunk of stdout or stderr from the running command.
    Stream { stream: StreamKind, data: String },
    /// The command exited with process exit code `exit` (0 = success).
    Exit { exit: i32 },
    /// Response to `Ping`.
    Pong { pong: bool },
    /// Response to `Version`.
    VersionInfo { version: u32, pelagos_version: String },
    /// An error occurred; terminal, no `Exit` follows.
    Error { error: String },
    /// Precedes a raw binary payload of `size` bytes.
    RawBytes { size: u64 },
    /// The guest is ready for the next command.
    Ready { ready: bool },
    /// Response to `KubernetesStatus`.
    KubernetesStatus { running: bool },
}

/// Which output stream a `Stream` chunk came from.
#[derive(Debug, Clone, Copy, PartialEq, Eq, Structural)]
pub enum StreamKind {
    Stdout,
    Stderr,
}

} // verus!
