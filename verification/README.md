# pelagos

Host-side logic of the pelagos container desktop UI, verified with Verus.

The UI talks to the pelagos container runtime either by running `pelagos`
CLI subprocesses (Linux) or over a vsock connection to the guest daemon in a
Linux VM (macOS), exchanging newline-delimited JSON.  The library holds the
protocol types and everything the host decides:

- `types`, `command`, `response`: the protocol's data types.
- `backend::process`: `pelagos` argument vectors, exit statuses, the
  Kubernetes control-plane start plan.
- `backend::vsock`: the guest commands sent, the line-by-line handling of
  guest replies (collecting stdout, following output, status), port
  forwards, the daemon socket path.
- `commands`: volume specs read into mounts, VM status.
- `pty`: labels, pending parameters and live sessions of terminal windows,
  and the command a session runs.
- `terminal`: shell quoting, AppleScript escaping, the interactive command
  line and the choice of terminal emulator.
- `tray`: what the tray shows and what its menu entries do.
- `text`, `paths`: string and path helpers with their specifications.

`app/` holds the I/O around it: subprocesses, sockets, PTYs, JSON encoding.

The maps keyed by window label or container name (pending PTY parameters,
live PTY sessions, running log streams) are `pty::LabelMap`: a `Vec` of
`(label, value)` pairs whose labels are distinct, viewed as a
`Map<Seq<char>, V>`.  vstd's specification of `HashMap` gives a usable key
model only for keys such as integers; with `String` keys nothing about
lookups or removals can be proved through it, so the map is kept in a form
whose every operation is verified against the `Map` view.
