//! Commands sent from the host to the guest daemon.
//!
//! On the wire each command is one JSON object with a `"cmd"` discriminant,
//! e.g. `{"cmd":"ping"}` or `{"cmd":"ps","all":true,"json":true}`, terminated
//! by a newline.

use std::collections::HashMap;
use vstd::prelude::*;

use crate::types::GuestMount;

verus! {

/// A command sent from the UI host process to the guest daemon.
#[derive(Debug, Clone)]
pub enum GuestCommand {
    /// Health check; the guest replies with `Pong`.
    Ping,
    /// Request the guest's protocol version; the guest replies with `VersionInfo`.
    Version,
    /// List containers (`pelagos ps [--all] [--format json]`).
    Ps {
        /// Include exited containers.
        all: bool,
        /// Request JSON output.
        json: bool,
    },
    /// Start a container from an image (`pelagos run`).
    Run {
        /// OCI image reference.
        image: String,
        /// The command to run inside the container.
        args: Vec<String>,
        /// Environment variables.
        env: HashMap<String, String>,
        /// Bind mounts.
        mounts: Vec<GuestMount>,
        /// Port forwards as `HOST:CONTAINER` strings.
        publish: Vec<String>,
        /// Network mode (`pasta` when ports are published).
        network: Option<String>,
        /// Optional container name (`--name`).
        name: Option<String>,
        /// Run detached (`--detach`).
        detach: bool,
    },
    /// Stop a running container by name.
    Stop { name: String },
    /// Remove a container by name (`--force` when `force`).
    Rm { name: String, force: bool },
    /// Run a command inside a running container.
    ExecInto {
        container: String,
        args: Vec<String>,
        env: HashMap<String, String>,
        tty: bool,
    },
    /// Stream container logs (`--follow` when `follow`).
    Logs { name: String, follow: bool },
    /// Open a shell directly in the VM.
    Shell { tty: bool },
    /// List cached images.
    ImageLs { json: bool },
    /// Pull an image from a registry.
    ImagePull { reference: String },
    /// Remove a cached image.
    ImageRm { reference: String },
    /// Ask whether the Kubernetes control plane runs.
    KubernetesStatus,
    /// Start the Kubernetes control plane.
    KubernetesStart,
    /// Stop the Kubernetes control plane.
    KubernetesStop,
}

} // verus!
