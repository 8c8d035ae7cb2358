//! Data types shared by commands, responses and the host-side backends.

use std::collections::HashMap;
use vstd::prelude::*;

use crate::text::{chars_of, has_prefix, join, join_strings, owned, push_char, starts_with, string_of, views};

verus! {

// ---------------------------------------------------------------------------
// VM-level types
// ---------------------------------------------------------------------------

/// Whether the guest VM is reachable and running.
///
/// Produced by the host-side backend, not the guest: the host infers VM state
/// from connection success or failure.
#[derive(Debug, Clone, PartialEq, Eq, Structural)]
pub enum VmStatus {
    /// VM is running and the guest daemon responded to a ping.
    Running,
    /// VM process exists but the guest daemon did not respond.
    Starting,
    /// VM is not running.
    Stopped,
}

// ---------------------------------------------------------------------------
// Container-level types
// ---------------------------------------------------------------------------

/// Container lifecycle status; its text form is `"running"` / `"exited"`.
#[derive(Debug, Clone, PartialEq, Eq, Structural)]
pub enum ContainerStatus {
    Running,
    Exited,
}

impl ContainerStatus {
    /// The lowercase text form of the status.
    pub open spec fn text(&self) -> Seq<char> {
        match self {
            ContainerStatus::Running => seq!['r', 'u', 'n', 'n', 'i', 'n', 'g'],
            ContainerStatus::Exited => seq!['e', 'x', 'i', 't', 'e', 'd'],
        }
    }

    /// The lowercase text form of the status (`"running"` or `"exited"`).
    pub fn to_string(&self) -> (s: String)
        ensures
            s@ == self.text(),
    {
        match self {
            ContainerStatus::Running => {
                let s = owned("running");
                proof {
                    reveal_strlit("running");
                }
                s
            },
            ContainerStatus::Exited => {
                let s = owned("exited");
                proof {
                    reveal_strlit("exited");
                }
                s
            },
        }
    }
}

/// Health check status for containers that declare a HEALTHCHECK.
#[derive(Debug, Clone, PartialEq, Eq, Structural)]
pub enum HealthStatus {
    Starting,
    Healthy,
    Unhealthy,
    /// The container declares no health check (text form `"none"`).
    NoCheck,
}

/// A virtiofs bind mount applied inside a container.
///
/// The host directory shared under `tag` is mounted at `/mnt/<tag>` in the VM;
/// `subpath` (empty for the whole share) selects a directory within it, which
/// appears at `container_path` inside the container.
#[derive(Debug, Clone)]
pub struct GuestMount {
    /// virtiofs tag; `share0` is always `$HOME`.
    pub tag: String,
    /// Relative subpath within the share (empty = the whole share).
    pub subpath: String,
    /// Absolute path inside the container.
    pub container_path: String,
    /// Mount is read-only if `true`.
    pub read_only: bool,
}

/// The mathematical value of a [`GuestMount`].
pub struct GuestMountView {
    pub tag: Seq<char>,
    pub subpath: Seq<char>,
    pub container_path: Seq<char>,
    pub read_only: bool,
}

impl View for GuestMount {
    type V = GuestMountView;

    open spec fn view(&self) -> GuestMountView {
        GuestMountView {
            tag: self.tag@,
            subpath: self.subpath@,
            container_path: self.container_path@,
            read_only: self.read_only,
        }
    }
}

/// The views of a sequence of mounts.
pub open spec fn mount_views(v: Seq<GuestMount>) -> Seq<GuestMountView> {
    v.map_values(|m: GuestMount| m@)
}

/// A minimal, stable view of a running or exited container.
#[derive(Debug, Clone)]
pub struct ContainerInfo {
    /// Unique container name.
    pub name: String,
    /// Current lifecycle status.
    pub status: ContainerStatus,
    /// PID of the container process inside the VM (0 if not yet assigned).
    pub pid: i32,
    /// ISO 8601 timestamp of container start.
    pub started_at: String,
    /// Rootfs path or image reference used at container start.
    pub rootfs: String,
    /// Full command vector run inside the container.
    pub command: Vec<String>,
    /// OCI image reference, when started from a pulled image.
    pub image: Option<String>,
    /// Exit code; `None` while running.
    pub exit_code: Option<i32>,
    /// Health check state; `None` if no HEALTHCHECK was defined.
    pub health: Option<HealthStatus>,
    /// IP address on the default bridge network.
    pub bridge_ip: Option<String>,
    /// IP addresses per named network.
    pub network_ips: HashMap<String, String>,
    /// Container labels.
    pub labels: HashMap<String, String>,
}

/// The command line of a container shown in one line, cut to `max`
/// characters: when longer, its first `max - 1` characters followed by `…`
/// (nothing at all when `max` is 0).
pub open spec fn command_summary_of(command: Seq<Seq<char>>, max: nat) -> Seq<char> {
    let s = join(command, seq![' ']);
    if s.len() <= max {
        s
    } else if max == 0 {
        Seq::empty()
    } else {
        s.take(max - 1).push('…')
    }
}

impl ContainerInfo {
    /// Returns `true` if the container is currently running.
    pub fn is_running(&self) -> (r: bool)
        ensures
            r == (self.status == ContainerStatus::Running),
    {
        match self.status {
            ContainerStatus::Running => true,
            ContainerStatus::Exited => false,
        }
    }

    /// A short human-readable summary of the command, truncated to `max`
    /// characters.
    pub fn command_summary(&self, max: usize) -> (r: String)
        ensures
            r@.len() <= max,
            r@ == command_summary_of(views(self.command@), max as nat),
    {
        let s = join_strings(&self.command, " ");
        proof {
            reveal_strlit(" ");
            assert(" "@ =~= seq![' ']);
        }
        let v = chars_of(s.as_str());
        if v.len() <= max {
            s
        } else if max == 0 {
            String::new()
        } else {
            let cut: usize = max - 1;
            let mut r = string_of(&v, 0, cut);
            push_char(&mut r, '…');
            assert(v@.subrange(0, cut as int) == v@.take(cut as int));
            r
        }
    }
}

/// A locally cached OCI image.
#[derive(Debug, Clone)]
pub struct ImageInfo {
    /// Full OCI reference, e.g. `"docker.io/library/alpine:latest"`.
    pub reference: String,
    /// Content-addressable digest, e.g. `"sha256:abc123..."`.
    pub digest: String,
    /// Layer digests.
    pub layers: Vec<String>,
}

/// The `sha256:` prefix of a digest.
pub open spec fn sha256_prefix() -> Seq<char> {
    seq!['s', 'h', 'a', '2', '5', '6', ':']
}

/// The first 12 characters of a digest (all of them when fewer), after its
/// `sha256:` prefix when it has one.
pub open spec fn short_digest_of(digest: Seq<char>) -> Seq<char> {
    let hex = if has_prefix(digest, sha256_prefix()) {
        digest.skip(7)
    } else {
        digest
    };
    hex.take(
        if hex.len() < 12 {
            hex.len() as int
        } else {
            12
        },
    )
}

impl ImageInfo {
    /// First 12 hex chars of the digest, without the `"sha256:"` prefix.
    pub fn short_digest(&self) -> (r: &str)
        ensures
            r@ == short_digest_of(self.digest@),
    {
        let d = self.digest.as_str();
        let v = chars_of(d);
        let prefixed = starts_with(d, "sha256:");
        proof {
            reveal_strlit("sha256:");
            assert("sha256:"@ =~= sha256_prefix());
        }
        let from: usize = if prefixed {
            7
        } else {
            0
        };
        let to: usize = if v.len() - from < 12 {
            v.len()
        } else {
            from + 12
        };
        let r = d.substring_char(from, to);
        assert(r@ =~= short_digest_of(self.digest@));
        r
    }
}

} // verus!
