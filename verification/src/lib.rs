//! Host-side logic of the pelagos container UI and the shared types of its
//! guest protocol, with their contracts.
//!
//! Host and guest exchange newline-delimited JSON: the host sends one
//! [`GuestCommand`] line, the guest answers with zero or more
//! [`GuestResponse::Stream`] lines and one terminal response.

pub mod backend;
pub mod command;
pub mod commands;
pub mod paths;
pub mod pty;
pub mod response;
pub mod terminal;
pub mod text;
pub mod tray;
pub mod types;

pub use command::GuestCommand;
pub use response::GuestResponse;
pub use types::{ContainerInfo, ContainerStatus, GuestMount, HealthStatus, ImageInfo, VmStatus};

use vstd::prelude::*;

verus! {

/// Current protocol version.  Increment when adding new variants or fields
/// that older guests cannot handle.
pub const PROTOCOL_VERSION: u32 = 2;

} // verus!
