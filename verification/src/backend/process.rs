//! Linux backend logic: the runtime is reached by spawning `pelagos` CLI
//! subprocesses.  This module decides the argument vectors, reads exit
//! statuses, and plans the Kubernetes control-plane start; the application
//! spawns the processes.

use vstd::prelude::*;

use crate::backend::BackendError;
use crate::paths::{has_suffix, path_exists, which};
use crate::text::{flag_pairs, owned, push_all, push_arg, push_flag_pairs, push_str, views};
use crate::types::{mount_views, GuestMount, GuestMountView};

verus! {

/// The Linux backend: the resolved path of the `pelagos` binary, or `None`
/// when it is not installed (every operation then fails with
/// `BinaryNotFound`).
#[derive(Debug, Clone)]
pub struct ProcessBackend {
    pub bin: Option<String>,
}

impl ProcessBackend {
    /// The backend for the result of looking `pelagos` up in `PATH`.
    pub fn from_lookup(found: Option<String>) -> (r: Result<Self, BackendError>)
        ensures
            match found {
                Some(p) => r matches Ok(b) && b.bin == Some(p),
                None => r matches Err(BackendError::BinaryNotFound),
            },
    {
        match found {
            Some(p) => Ok(ProcessBackend { bin: Some(p) }),
            None => Err(BackendError::BinaryNotFound),
        }
    }

    /// Locate `pelagos` in `PATH` and return a backend instance.  Whether it
    /// is found depends on the environment; a found path is a `pelagos`
    /// binary (it ends with that name).
    pub fn new() -> (r: Result<Self, BackendError>)
        ensures
            r matches Ok(b) ==> (b.bin matches Some(p) && p@.len() > 0 && has_suffix(
                p@,
                "pelagos"@,
            )),
            r matches Err(e) ==> e matches BackendError::BinaryNotFound,
    {
        proof {
            reveal_strlit("pelagos");
        }
        Self::from_lookup(which("pelagos"))
    }

    /// A backend that reports `BinaryNotFound` for every operation.
    pub fn unavailable() -> (b: Self)
        ensures
            b.bin is None,
    {
        ProcessBackend { bin: None }
    }

    /// The binary to run, or `BinaryNotFound` when there is none.
    pub fn binary(&self) -> (r: Result<String, BackendError>)
        ensures
            match self.bin {
                Some(p) => r matches Ok(q) && q@ == p@,
                None => r matches Err(BackendError::BinaryNotFound),
            },
    {
        match &self.bin {
            Some(p) => Ok(owned(p.as_str())),
            None => Err(BackendError::BinaryNotFound),
        }
    }

    /// Whether the Kubernetes control plane runs, given whether processes
    /// named `api-server` and `kubelet` run: both must.  A backend without
    /// a binary reports `BinaryNotFound` instead, as for every operation.
    pub fn kubernetes_status_of(&self, api_running: bool, kubelet_running: bool) -> (r: Result<
        bool,
        BackendError,
    >)
        ensures
            self.bin is None ==> r matches Err(BackendError::BinaryNotFound),
            self.bin is Some ==> r == Ok::<bool, BackendError>(api_running && kubelet_running),
    {
        match &self.bin {
            None => Err(BackendError::BinaryNotFound),
            Some(_) => Ok(api_running && kubelet_running),
        }
    }

    /// The `pelagos` that `pelagos-dockerd` is told to use: the resolved
    /// binary, or plain `pelagos` when there is none.
    pub fn pelagos_for_dockerd(&self) -> (r: String)
        ensures
            match self.bin {
                Some(p) => r@ == p@,
                None => r@ == "pelagos"@,
            },
    {
        match &self.bin {
            Some(p) => owned(p.as_str()),
            None => owned("pelagos"),
        }
    }
}

/// The backend the Linux application runs with: the one found in `PATH`, or
/// one that reports the binary missing.
pub fn make_backend() -> (b: ProcessBackend)
    ensures
        b.bin matches Some(p) ==> p@.len() > 0 && has_suffix(p@, "pelagos"@),
{
    match ProcessBackend::new() {
        Ok(b) => b,
        Err(_) => ProcessBackend::unavailable(),
    }
}

// ---------------------------------------------------------------------------
// Argument vectors
// ---------------------------------------------------------------------------

/// `pelagos ps --all --format json`.
pub fn ps_args() -> (r: Vec<String>)
    ensures
        views(r@) == seq!["ps"@, "--all"@, "--format"@, "json"@],
{
    let mut r = Vec::new();
    push_arg(&mut r, "ps");
    push_arg(&mut r, "--all");
    push_arg(&mut r, "--format");
    push_arg(&mut r, "json");
    r
}

/// `pelagos --version`, the reachability check.
pub fn version_args() -> (r: Vec<String>)
    ensures
        views(r@) == seq!["--version"@],
{
    let mut r = Vec::new();
    push_arg(&mut r, "--version");
    r
}

/// `pelagos stop <name>`.
pub fn stop_args(name: &str) -> (r: Vec<String>)
    ensures
        views(r@) == seq!["stop"@, name@],
{
    let mut r = Vec::new();
    push_arg(&mut r, "stop");
    push_arg(&mut r, name);
    r
}

/// `pelagos rm [--force] <name>`.
pub fn remove_args(name: &str, force: bool) -> (r: Vec<String>)
    ensures
        views(r@) == if force {
            seq!["rm"@, "--force"@, name@]
        } else {
            seq!["rm"@, name@]
        },
{
    let mut r = Vec::new();
    push_arg(&mut r, "rm");
    if force {
        push_arg(&mut r, "--force");
    }
    push_arg(&mut r, name);
    r
}

/// `pelagos image ls --json`.
pub fn image_list_args() -> (r: Vec<String>)
    ensures
        views(r@) == seq!["image"@, "ls"@, "--json"@],
{
    let mut r = Vec::new();
    push_arg(&mut r, "image");
    push_arg(&mut r, "ls");
    push_arg(&mut r, "--json");
    r
}

/// `pelagos image pull <reference>`.
pub fn pull_args(reference: &str) -> (r: Vec<String>)
    ensures
        views(r@) == seq!["image"@, "pull"@, reference@],
{
    let mut r = Vec::new();
    push_arg(&mut r, "image");
    push_arg(&mut r, "pull");
    push_arg(&mut r, reference);
    r
}

/// `pelagos image rm <reference>`.
pub fn image_remove_args(reference: &str) -> (r: Vec<String>)
    ensures
        views(r@) == seq!["image"@, "rm"@, reference@],
{
    let mut r = Vec::new();
    push_arg(&mut r, "image");
    push_arg(&mut r, "rm");
    push_arg(&mut r, reference);
    r
}

/// `pelagos logs [--follow] <name>`.
pub fn logs_args(name: &str, follow: bool) -> (r: Vec<String>)
    ensures
        views(r@) == if follow {
            seq!["logs"@, "--follow"@, name@]
        } else {
            seq!["logs"@, name@]
        },
{
    let mut r = Vec::new();
    push_arg(&mut r, "logs");
    if follow {
        push_arg(&mut r, "--follow");
    }
    push_arg(&mut r, name);
    r
}

/// The host side of a bind mount. The process backend runs the runtime on
/// the host itself, so the mount's `tag` holds the host directory and is
/// passed as it is, followed by `/<subpath>` when a subpath is given.
pub open spec fn mount_source(m: GuestMountView) -> Seq<char> {
    if m.subpath.len() == 0 {
        m.tag
    } else {
        m.tag + "/"@ + m.subpath
    }
}

/// The `--mount` value of a mount: `SRC:CONTAINER_PATH`, with `:ro` when
/// read-only.
pub open spec fn mount_text(m: GuestMountView) -> Seq<char> {
    if m.read_only {
        mount_source(m) + ":"@ + m.container_path + ":ro"@
    } else {
        mount_source(m) + ":"@ + m.container_path
    }
}

/// The `--mount` value of a mount.
pub fn mount_arg(m: &GuestMount) -> (r: String)
    ensures
        r@ == mount_text(m@),
{
    let mut r = owned(m.tag.as_str());
    if !m.subpath.as_str().is_empty() {
        push_str(&mut r, "/");
        push_str(&mut r, m.subpath.as_str());
    }
    push_str(&mut r, ":");
    push_str(&mut r, m.container_path.as_str());
    if m.read_only {
        push_str(&mut r, ":ro");
    }
    r
}

/// `--mount v` for each mount, in order.
pub open spec fn mount_args_of(mounts: Seq<GuestMountView>) -> Seq<Seq<char>>
    decreases mounts.len(),
{
    if mounts.len() == 0 {
        Seq::empty()
    } else {
        mount_args_of(mounts.drop_last()) + seq!["--mount"@, mount_text(mounts.last())]
    }
}

/// The arguments of `pelagos run`: the name, detach flag, published ports
/// (with the `pasta` network when there are any), mounts, then the image
/// and the command to run in the container.
pub open spec fn run_args_of(
    image: Seq<char>,
    name: Option<Seq<char>>,
    args: Seq<Seq<char>>,
    detach: bool,
    ports: Seq<Seq<char>>,
    mounts: Seq<GuestMountView>,
) -> Seq<Seq<char>> {
    seq!["run"@] + match name {
        Some(n) => seq!["--name"@, n],
        None => Seq::empty(),
    } + if detach {
        seq!["--detach"@]
    } else {
        Seq::empty()
    } + flag_pairs("--publish"@, ports) + if ports.len() > 0 {
        seq!["--network"@, "pasta"@]
    } else {
        Seq::empty()
    } + mount_args_of(mounts) + seq![image] + args
}

/// Detach law: asking for a detached run adds exactly one `--detach`, right
/// after `run` and the `--name` pair when a name is given, and changes
/// nothing else; whether a name is given or not plays no part in it.
pub proof fn lemma_run_args_detach(
    image: Seq<char>,
    name: Option<Seq<char>>,
    args: Seq<Seq<char>>,
    ports: Seq<Seq<char>>,
    mounts: Seq<GuestMountView>,
)
    ensures
        ({
            let on = run_args_of(image, name, args, true, ports, mounts);
            let off = run_args_of(image, name, args, false, ports, mounts);
            let k: int = if name is Some {
                3
            } else {
                1
            };
            &&& on.len() == off.len() + 1
            &&& on[k] == "--detach"@
            &&& on.take(k) == off.take(k)
            &&& on.skip(k + 1) == off.skip(k)
            &&& off.take(k) == match name {
                Some(n) => seq!["run"@, "--name"@, n],
                None => seq!["run"@],
            }
        }),
{
    let a: Seq<Seq<char>> = seq!["run"@] + match name {
        Some(n) => seq!["--name"@, n],
        None => Seq::empty(),
    };
    let rest = flag_pairs("--publish"@, ports) + (if ports.len() > 0 {
        seq!["--network"@, "pasta"@]
    } else {
        Seq::empty()
    }) + mount_args_of(mounts) + seq![image] + args;
    let on = run_args_of(image, name, args, true, ports, mounts);
    let off = run_args_of(image, name, args, false, ports, mounts);
    assert(on =~= a + seq!["--detach"@] + rest);
    assert(off =~= a + rest);
    let k = a.len() as int;
    assert(on.take(k) =~= a);
    assert(off.take(k) =~= a);
    assert(on.skip(k + 1) =~= rest);
    assert(off.skip(k) =~= rest);
}

/// The arguments of `pelagos run` for a container.
pub fn run_args(
    image: &str,
    name: Option<&str>,
    args: &Vec<String>,
    detach: bool,
    ports: &Vec<String>,
    mounts: &Vec<GuestMount>,
) -> (r: Vec<String>)
    ensures
        views(r@) == run_args_of(
            image@,
            match name {
                Some(n) => Some(n@),
                None => None,
            },
            views(args@),
            detach,
            views(ports@),
            mount_views(mounts@),
        ),
{
    let mut r = Vec::new();
    push_arg(&mut r, "run");
    if let Some(n) = name {
        push_arg(&mut r, "--name");
        push_arg(&mut r, n);
    }
    if detach {
        push_arg(&mut r, "--detach");
    }
    push_flag_pairs(&mut r, "--publish", ports);
    if ports.len() > 0 {
        push_arg(&mut r, "--network");
        push_arg(&mut r, "pasta");
    }
    let ghost a4 = views(r@);
    let mut i: usize = 0;
    while i < mounts.len()
        invariant
            0 <= i <= mounts.len(),
            views(r@) == a4 + mount_args_of(mount_views(mounts@).take(i as int)),
        decreases mounts.len() - i,
    {
        assert(mount_views(mounts@).take(i + 1).drop_last() == mount_views(mounts@).take(i as int));
        let m = mount_arg(&mounts[i]);
        push_arg(&mut r, "--mount");
        push_arg(&mut r, m.as_str());
        assert(views(r@) =~= a4 + mount_args_of(mount_views(mounts@).take(i + 1)));
        i = i + 1;
    }
    assert(mount_views(mounts@).take(mounts.len() as int) == mount_views(mounts@));
    push_arg(&mut r, image);
    push_all(&mut r, args);
    assert(views(r@) =~= run_args_of(
        image@,
        match name {
            Some(n) => Some(n@),
            None => None,
        },
        views(args@),
        detach,
        views(ports@),
        mount_views(mounts@),
    ));
    r
}

// ---------------------------------------------------------------------------
// Exit statuses
// ---------------------------------------------------------------------------

/// A finished `pelagos` run: status 0 is success; any other status fails
/// with the status and what `pelagos` wrote to stderr.
pub fn check_status(code: i32, stderr: String) -> (r: Result<(), BackendError>)
    ensures
        code == 0 ==> r is Ok,
        code != 0 ==> (r matches Err(BackendError::CommandFailed { code: c, stderr: s }) && c
            == code && s@ == stderr@),
{
    if code != 0 {
        Err(BackendError::CommandFailed { code, stderr })
    } else {
        Ok(())
    }
}

/// The exit code reported for a process: its status code, or -1 when it
/// has none (it was killed by a signal).
pub fn exit_code_of(code: Option<i32>) -> (r: i32)
    ensures
        code matches Some(c) ==> r == c,
        code is None ==> r == -1,
{
    match code {
        Some(c) => c,
        None => -1,
    }
}

// ---------------------------------------------------------------------------
// Finding helper binaries
// ---------------------------------------------------------------------------

/// `dir/name`.
pub open spec fn in_dir(dir: Seq<char>, name: Seq<char>) -> Seq<char> {
    dir + "/"@ + name
}

/// The places where a helper binary is looked for: `dir/name` for each
/// directory, in order.
pub open spec fn bin_candidates_of(name: Seq<char>, dirs: Seq<Seq<char>>) -> Seq<Seq<char>> {
    Seq::new(dirs.len(), |i: int| in_dir(dirs[i], name))
}

/// The first `dir/name` found to exist (`found[i]` for `dirs[i]`), in the
/// order of `dirs`, or `name` itself when none was found.
pub open spec fn first_existing_of(name: Seq<char>, dirs: Seq<Seq<char>>, found: Seq<bool>) -> Seq<
    char,
>
    decreases dirs.len(),
{
    if dirs.len() == 0 || found.len() == 0 {
        name
    } else if found[0] {
        in_dir(dirs[0], name)
    } else {
        first_existing_of(name, dirs.skip(1), found.skip(1))
    }
}

/// `dir/name` for each directory, in order.
pub fn bin_candidates(name: &str, dirs: &Vec<String>) -> (r: Vec<String>)
    ensures
        views(r@) == bin_candidates_of(name@, views(dirs@)),
{
    let mut r: Vec<String> = Vec::new();
    let mut i: usize = 0;
    while i < dirs.len()
        invariant
            0 <= i <= dirs.len(),
            views(r@) == bin_candidates_of(name@, views(dirs@)).take(i as int),
        decreases dirs.len() - i,
    {
        let mut p = owned(dirs[i].as_str());
        push_str(&mut p, "/");
        push_str(&mut p, name);
        let ghost before = views(r@);
        r.push(p);
        assert(views(r@) =~= before.push(p@));
        i = i + 1;
    }
    r
}

/// The binary to run, given which candidate places were found to exist:
/// the first `dir/name` found, in the order of `dirs`, else `name` itself
/// (left to a `PATH` search).
pub fn first_existing(name: &str, dirs: &Vec<String>, found: &Vec<bool>) -> (r: String)
    requires
        found.len() == dirs.len(),
    ensures
        r@ == first_existing_of(name@, views(dirs@), found@),
{
    let mut i: usize = 0;
    assert(views(dirs@).skip(0) =~= views(dirs@));
    assert(found@.skip(0) =~= found@);
    while i < dirs.len()
        invariant
            0 <= i <= dirs.len(),
            found.len() == dirs.len(),
            first_existing_of(name@, views(dirs@), found@) == first_existing_of(
                name@,
                views(dirs@).skip(i as int),
                found@.skip(i as int),
            ),
        decreases dirs.len() - i,
    {
        let ghost d = views(dirs@).skip(i as int);
        let ghost f = found@.skip(i as int);
        assert(d[0] == dirs@[i as int]@);
        assert(f[0] == found@[i as int]);
        if found[i] {
            let mut p = owned(dirs[i].as_str());
            push_str(&mut p, "/");
            push_str(&mut p, name);
            return p;
        }
        assert(d.skip(1) =~= views(dirs@).skip(i + 1));
        assert(f.skip(1) =~= found@.skip(i + 1));
        i = i + 1;
    }
    assert(views(dirs@).skip(i as int).len() == 0);
    owned(name)
}

/// The binary to run for `name`: each `dir/name` is probed in turn until
/// one exists (what exists depends on the disk), and the choice is that of
/// [`first_existing`] for what the probes found.
pub fn find_bin(name: &str, dirs: &Vec<String>) -> (r: String)
    ensures
        exists|found: Seq<bool>|
            found.len() == dirs@.len() && r@ == #[trigger] first_existing_of(
                name@,
                views(dirs@),
                found,
            ),
{
    let candidates = bin_candidates(name, dirs);
    assert(views(candidates@).len() == candidates@.len());
    assert(views(dirs@).len() == dirs@.len());
    let mut found: Vec<bool> = Vec::new();
    let mut seen = false;
    let mut i: usize = 0;
    while i < candidates.len()
        invariant
            0 <= i <= candidates.len(),
            candidates.len() == dirs.len(),
            found.len() == i,
        decreases candidates.len() - i,
    {
        let hit = if seen {
            false
        } else {
            path_exists(candidates[i].as_str())
        };
        seen = seen || hit;
        found.push(hit);
        i = i + 1;
    }
    first_existing(name, dirs, &found)
}

// ---------------------------------------------------------------------------
// Kubernetes control plane
// ---------------------------------------------------------------------------

/// What the starter does after spawning a service.
#[derive(Debug, Clone, Copy, PartialEq, Eq, Structural)]
pub enum AfterLaunch {
    /// Give the service half a second.
    Pause,
    /// Wait (up to 30 s) until the API server accepts connections on port
    /// 6443, then report it ready.
    AwaitApiServer,
    /// Go on at once.
    Proceed,
}

/// One service to spawn, detached from the UI's stdio.
#[derive(Debug, Clone)]
pub struct Launch {
    pub program: String,
    pub args: Vec<String>,
    pub env: Vec<(String, String)>,
    /// The progress line sent once it is spawned.
    pub announce: String,
    pub after: AfterLaunch,
}

/// The mathematical value of a [`Launch`].
pub struct LaunchView {
    pub program: Seq<char>,
    pub args: Seq<Seq<char>>,
    pub env: Seq<(Seq<char>, Seq<char>)>,
    pub announce: Seq<char>,
    pub after: AfterLaunch,
}

impl View for Launch {
    type V = LaunchView;

    open spec fn view(&self) -> LaunchView {
        LaunchView {
            program: self.program@,
            args: views(self.args@),
            env: self.env@.map_values(|p: (String, String)| (p.0@, p.1@)),
            announce: self.announce@,
            after: self.after,
        }
    }
}

/// Where the control plane keeps its state.
pub open spec fn kubernetes_data_path() -> Seq<char> {
    "/var/lib/rusternetes/cluster.db"@
}

/// `pelagos-dockerd`, told which `pelagos` to drive.
pub open spec fn dockerd_launch_of(dockerd: Seq<char>, pelagos: Seq<char>) -> LaunchView {
    LaunchView {
        program: dockerd,
        args: seq!["--pelagos-bin"@, pelagos],
        env: Seq::empty(),
        announce: "started pelagos-dockerd"@,
        after: AfterLaunch::Pause,
    }
}

/// The API server, on SQLite, without authentication, with a self-signed
/// certificate for the local host.
pub open spec fn api_server_launch_of(api: Seq<char>) -> LaunchView {
    LaunchView {
        program: api,
        args: seq![
            "--storage-backend"@,
            "sqlite"@,
            "--data-dir"@,
            kubernetes_data_path(),
            "--skip-auth"@,
            "--tls"@,
            "--tls-self-signed"@,
            "--tls-san"@,
            "localhost,127.0.0.1"@,
        ],
        env: Seq::empty(),
        announce: "started api-server, waiting for ready..."@,
        after: AfterLaunch::AwaitApiServer,
    }
}

/// The kubelet, for node `pelagos-node` on the bridge network, talking to
/// `pelagos-dockerd`.
pub open spec fn kubelet_launch_of(kubelet: Seq<char>) -> LaunchView {
    LaunchView {
        program: kubelet,
        args: seq![
            "--node-name"@,
            "pelagos-node"@,
            "--storage-backend"@,
            "sqlite"@,
            "--data-dir"@,
            kubernetes_data_path(),
            "--network"@,
            "bridge"@,
        ],
        env: seq![
            ("DOCKER_HOST"@, "unix:///var/run/pelagos-dockerd.sock"@),
            ("RUST_MIN_STACK"@, "8388608"@),
        ],
        announce: "started kubelet"@,
        after: AfterLaunch::Proceed,
    }
}

/// The services to start, in order, skipping those already running.
pub open spec fn kubernetes_plan_of(
    pelagos: Seq<char>,
    dockerd: Seq<char>,
    api: Seq<char>,
    kubelet: Seq<char>,
    dockerd_running: bool,
    api_running: bool,
    kubelet_running: bool,
) -> Seq<LaunchView> {
    (if dockerd_running {
        Seq::empty()
    } else {
        seq![dockerd_launch_of(dockerd, pelagos)]
    }) + (if api_running {
        Seq::empty()
    } else {
        seq![api_server_launch_of(api)]
    }) + (if kubelet_running {
        Seq::empty()
    } else {
        seq![kubelet_launch_of(kubelet)]
    })
}

/// Start-once laws of the control plane: each service is launched exactly
/// when it is not already running, whatever the state of the others.  A
/// kubelet that is down adds one launch, the last, of the kubelet binary; a
/// dockerd that is down adds one launch, the first, of the dockerd binary
/// told which `pelagos` to use; an api-server that is down adds one launch
/// of the api-server binary, after dockerd's, that waits for the API; and
/// nothing running is launched again.
pub proof fn lemma_kubernetes_plan_starts_what_is_down(
    pelagos: Seq<char>,
    dockerd: Seq<char>,
    api: Seq<char>,
    kubelet: Seq<char>,
    dockerd_running: bool,
    api_running: bool,
    kubelet_running: bool,
)
    ensures
        kubernetes_plan_of(pelagos, dockerd, api, kubelet, true, true, true).len() == 0,
        ({
            let down = kubernetes_plan_of(
                pelagos,
                dockerd,
                api,
                kubelet,
                dockerd_running,
                api_running,
                false,
            );
            let up = kubernetes_plan_of(
                pelagos,
                dockerd,
                api,
                kubelet,
                dockerd_running,
                api_running,
                true,
            );
            &&& down.len() == up.len() + 1
            &&& down.drop_last() == up
            &&& down.last().program == kubelet
            &&& down.last().announce == "started kubelet"@
        }),
        ({
            let down = kubernetes_plan_of(
                pelagos,
                dockerd,
                api,
                kubelet,
                false,
                api_running,
                kubelet_running,
            );
            let up = kubernetes_plan_of(
                pelagos,
                dockerd,
                api,
                kubelet,
                true,
                api_running,
                kubelet_running,
            );
            &&& down.len() == up.len() + 1
            &&& down.skip(1) == up
            &&& down[0].program == dockerd
            &&& down[0].args == seq!["--pelagos-bin"@, pelagos]
            &&& down[0].announce == "started pelagos-dockerd"@
        }),
        ({
            let down = kubernetes_plan_of(
                pelagos,
                dockerd,
                api,
                kubelet,
                dockerd_running,
                false,
                kubelet_running,
            );
            let up = kubernetes_plan_of(
                pelagos,
                dockerd,
                api,
                kubelet,
                dockerd_running,
                true,
                kubelet_running,
            );
            let j: int = if dockerd_running {
                0
            } else {
                1
            };
            &&& down.len() == up.len() + 1
            &&& down.take(j) == up.take(j)
            &&& down.skip(j + 1) == up.skip(j)
            &&& down[j].program == api
            &&& down[j].after == AfterLaunch::AwaitApiServer
        }),
{
    let d = if dockerd_running {
        Seq::<LaunchView>::empty()
    } else {
        seq![dockerd_launch_of(dockerd, pelagos)]
    };
    let a = if api_running {
        Seq::<LaunchView>::empty()
    } else {
        seq![api_server_launch_of(api)]
    };
    let k = if kubelet_running {
        Seq::<LaunchView>::empty()
    } else {
        seq![kubelet_launch_of(kubelet)]
    };
    let e = Seq::<LaunchView>::empty();
    let dl = seq![dockerd_launch_of(dockerd, pelagos)];
    let al = seq![api_server_launch_of(api)];
    let kl = seq![kubelet_launch_of(kubelet)];
    assert(kubernetes_plan_of(pelagos, dockerd, api, kubelet, true, true, true) =~= e + e + e);
    assert(kubernetes_plan_of(pelagos, dockerd, api, kubelet, dockerd_running, api_running, false)
        =~= d + a + kl);
    assert(kubernetes_plan_of(pelagos, dockerd, api, kubelet, dockerd_running, api_running, true)
        =~= d + a + e);
    assert((d + a + kl).drop_last() =~= d + a + e);
    assert(kubernetes_plan_of(pelagos, dockerd, api, kubelet, false, api_running, kubelet_running)
        =~= dl + a + k);
    assert(kubernetes_plan_of(pelagos, dockerd, api, kubelet, true, api_running, kubelet_running)
        =~= e + a + k);
    assert((dl + a + k).skip(1) =~= e + a + k);
    assert(kubernetes_plan_of(pelagos, dockerd, api, kubelet, dockerd_running, false, kubelet_running)
        =~= d + al + k);
    assert(kubernetes_plan_of(pelagos, dockerd, api, kubelet, dockerd_running, true, kubelet_running)
        =~= d + e + k);
    let j = d.len() as int;
    assert((d + al + k).take(j) =~= d);
    assert((d + e + k).take(j) =~= d);
    assert((d + al + k).skip(j + 1) =~= k);
    assert((d + e + k).skip(j) =~= k);
    assert((d + al + k)[j] == api_server_launch_of(api));
}

/// Appends one environment entry.
fn push_env(v: &mut Vec<(String, String)>, k: &str, val: &str)
    ensures
        final(v)@.map_values(|p: (String, String)| (p.0@, p.1@)) == old(v)@.map_values(
            |p: (String, String)| (p.0@, p.1@),
        ).push((k@, val@)),
{
    v.push((owned(k), owned(val)));
    assert(v@.map_values(|p: (String, String)| (p.0@, p.1@)) =~= old(v)@.map_values(
        |p: (String, String)| (p.0@, p.1@),
    ).push((k@, val@)));
}

/// The launches that start the control plane, in order, skipping the
/// services already running.
pub fn kubernetes_plan(
    pelagos: &str,
    dockerd: &str,
    api: &str,
    kubelet: &str,
    dockerd_running: bool,
    api_running: bool,
    kubelet_running: bool,
) -> (r: Vec<Launch>)
    ensures
        r@.map_values(|l: Launch| l@) == kubernetes_plan_of(
            pelagos@,
            dockerd@,
            api@,
            kubelet@,
            dockerd_running,
            api_running,
            kubelet_running,
        ),
{
    let mut r: Vec<Launch> = Vec::new();
    if !dockerd_running {
        let mut args: Vec<String> = Vec::new();
        assert(views(args@) =~= Seq::<Seq<char>>::empty());
        push_arg(&mut args, "--pelagos-bin");
        push_arg(&mut args, pelagos);
        let env: Vec<(String, String)> = Vec::new();
        assert(env@.map_values(|p: (String, String)| (p.0@, p.1@)) =~= Seq::empty());
        let l = Launch {
            program: owned(dockerd),
            args,
            env,
            announce: owned("started pelagos-dockerd"),
            after: AfterLaunch::Pause,
        };
        assert(l@.args =~= dockerd_launch_of(dockerd@, pelagos@).args);
        assert(l@.env =~= dockerd_launch_of(dockerd@, pelagos@).env);
        assert(l@ == dockerd_launch_of(dockerd@, pelagos@));
        r.push(l);
    }
    if !api_running {
        let mut args: Vec<String> = Vec::new();
        assert(views(args@) =~= Seq::<Seq<char>>::empty());
        push_arg(&mut args, "--storage-backend");
        push_arg(&mut args, "sqlite");
        push_arg(&mut args, "--data-dir");
        push_arg(&mut args, "/var/lib/rusternetes/cluster.db");
        push_arg(&mut args, "--skip-auth");
        push_arg(&mut args, "--tls");
        push_arg(&mut args, "--tls-self-signed");
        push_arg(&mut args, "--tls-san");
        push_arg(&mut args, "localhost,127.0.0.1");
        let env: Vec<(String, String)> = Vec::new();
        assert(env@.map_values(|p: (String, String)| (p.0@, p.1@)) =~= Seq::empty());
        let l = Launch {
            program: owned(api),
            args,
            env,
            announce: owned("started api-server, waiting for ready..."),
            after: AfterLaunch::AwaitApiServer,
        };
        assert(l@.args =~= api_server_launch_of(api@).args);
        assert(l@.env =~= api_server_launch_of(api@).env);
        assert(l@ == api_server_launch_of(api@));
        r.push(l);
    }
    if !kubelet_running {
        let mut args: Vec<String> = Vec::new();
        assert(views(args@) =~= Seq::<Seq<char>>::empty());
        push_arg(&mut args, "--node-name");
        push_arg(&mut args, "pelagos-node");
        push_arg(&mut args, "--storage-backend");
        push_arg(&mut args, "sqlite");
        push_arg(&mut args, "--data-dir");
        push_arg(&mut args, "/var/lib/rusternetes/cluster.db");
        push_arg(&mut args, "--network");
        push_arg(&mut args, "bridge");
        let mut env: Vec<(String, String)> = Vec::new();
        assert(env@.map_values(|p: (String, String)| (p.0@, p.1@)) =~= Seq::empty());
        push_env(&mut env, "DOCKER_HOST", "unix:///var/run/pelagos-dockerd.sock");
        push_env(&mut env, "RUST_MIN_STACK", "8388608");
        let l = Launch {
            program: owned(kubelet),
            args,
            env,
            announce: owned("started kubelet"),
            after: AfterLaunch::Proceed,
        };
        assert(l@.args =~= kubelet_launch_of(kubelet@).args);
        assert(l@.env =~= kubelet_launch_of(kubelet@).env);
        assert(l@ == kubelet_launch_of(kubelet@));
        r.push(l);
    }
    assert(r@.map_values(|l: Launch| l@) =~= kubernetes_plan_of(
        pelagos@,
        dockerd@,
        api@,
        kubelet@,
        dockerd_running,
        api_running,
        kubelet_running,
    ));
    r
}

/// The processes stopped to take the control plane down, in order.
pub fn kubernetes_process_names() -> (r: Vec<String>)
    ensures
        views(r@) == seq!["kubelet"@, "api-server"@, "pelagos-dockerd"@],
{
    let mut r = Vec::new();
    push_arg(&mut r, "kubelet");
    push_arg(&mut r, "api-server");
    push_arg(&mut r, "pelagos-dockerd");
    r
}

} // verus!
