//! Interactive container sessions in terminal windows: the pending session
//! parameters and live sessions kept per window label, the labels
//! themselves, and the `pelagos` command a session runs.  The PTY and the
//! windows are handled by the application.

use vstd::prelude::*;

use crate::paths::{has_suffix, path_exists, which};
use crate::text::{
    flag_pairs, has_prefix, lemma_flag_pairs_at, owned, push_all, push_arg, push_flag_pairs, push_str, same_text,
    starts_with, text_option, views,
};

verus! {

// ---------------------------------------------------------------------------
// A map keyed by window label
// ---------------------------------------------------------------------------

/// Some entry of `e` has key `k`.
pub open spec fn holds_key<V>(e: Seq<(String, V)>, k: Seq<char>) -> bool {
    exists|i: int| 0 <= i < e.len() && (#[trigger] e[i]).0@ == k
}

/// The position of an entry with key `k`.
pub open spec fn position_of<V>(e: Seq<(String, V)>, k: Seq<char>) -> int {
    choose|i: int| 0 <= i < e.len() && (#[trigger] e[i]).0@ == k
}

/// No two entries share a key.
pub open spec fn unique_keys<V>(e: Seq<(String, V)>) -> bool {
    forall|i: int, j: int| 0 <= i < e.len() && 0 <= j < e.len() && i != j ==> (#[trigger] e[i]).0@
        != (#[trigger] e[j]).0@
}

/// The map the entries stand for.
pub open spec fn entries_map<V>(e: Seq<(String, V)>) -> Map<Seq<char>, V> {
    Map::new(|k: Seq<char>| holds_key(e, k), |k: Seq<char>| e[position_of(e, k)].1)
}

/// In a list with unique keys, the entry found for a key is the one at `i`.
proof fn lemma_position_unique<V>(e: Seq<(String, V)>, i: int)
    requires
        unique_keys(e),
        0 <= i < e.len(),
    ensures
        holds_key(e, e[i].0@),
        position_of(e, e[i].0@) == i,
        entries_map(e)[e[i].0@] == e[i].1,
{
    assert(holds_key(e, e[i].0@));
}

/// Values kept per window label, as a list of entries with distinct labels.
#[derive(Debug)]
pub struct LabelMap<V> {
    entries: Vec<(String, V)>,
}

impl<V> View for LabelMap<V> {
    type V = Map<Seq<char>, V>;

    closed spec fn view(&self) -> Map<Seq<char>, V> {
        entries_map(self.entries@)
    }
}

impl<V> LabelMap<V> {
    /// Well-formedness: the labels are distinct.
    pub closed spec fn wf(&self) -> bool {
        unique_keys(self.entries@)
    }

    pub fn new() -> (m: Self)
        ensures
            m.wf(),
            m@ == Map::<Seq<char>, V>::empty(),
    {
        let m = LabelMap { entries: Vec::new() };
        assert(m@ =~= Map::<Seq<char>, V>::empty());
        m
    }

    /// The position of `label`, if present.
    fn find(&self, label: &str) -> (r: Option<usize>)
        requires
            self.wf(),
        ensures
            match r {
                Some(i) => i < self.entries@.len() && self.entries@[i as int].0@ == label@,
                None => !holds_key(self.entries@, label@),
            },
    {
        let mut i: usize = 0;
        while i < self.entries.len()
            invariant
                0 <= i <= self.entries@.len(),
                forall|j: int| 0 <= j < i ==> (#[trigger] self.entries@[j]).0@ != label@,
            decreases self.entries@.len() - i,
        {
            if same_text(self.entries[i].0.as_str(), label) {
                return Some(i);
            }
            i = i + 1;
        }
        None
    }

    /// Whether no label is present.
    pub fn is_empty(&self) -> (r: bool)
        requires
            self.wf(),
        ensures
            r == (self@.dom() == Set::<Seq<char>>::empty()),
    {
        let r = self.entries.len() == 0;
        if !r {
            proof {
                lemma_position_unique(self.entries@, 0);
                assert(self@.dom().contains(self.entries@[0].0@));
            }
        } else {
            assert(self@.dom() =~= Set::<Seq<char>>::empty());
        }
        r
    }

    /// Whether `label` is present.
    pub fn contains_key(&self, label: &str) -> (r: bool)
        requires
            self.wf(),
        ensures
            r == self@.contains_key(label@),
    {
        match self.find(label) {
            Some(i) => {
                proof {
                    lemma_position_unique(self.entries@, i as int);
                }
                true
            },
            None => false,
        }
    }

    /// The value kept for `label`.
    pub fn get(&self, label: &str) -> (r: Option<&V>)
        requires
            self.wf(),
        ensures
            match r {
                Some(v) => self@.contains_key(label@) && *v == self@[label@],
                None => !self@.contains_key(label@),
            },
    {
        match self.find(label) {
            Some(i) => {
                proof {
                    lemma_position_unique(self.entries@, i as int);
                }
                Some(&self.entries[i].1)
            },
            None => None,
        }
    }

    /// Keeps `v` for `label`, handing back the value it replaces.
    pub fn insert(&mut self, label: String, v: V) -> (r: Option<V>)
        requires
            old(self).wf(),
        ensures
            final(self).wf(),
            final(self)@ == old(self)@.insert(label@, v),
            match r {
                Some(o) => old(self)@.contains_key(label@) && o == old(self)@[label@],
                None => !old(self)@.contains_key(label@),
            },
    {
        let ghost k = label@;
        match self.find(label.as_str()) {
            Some(i) => {
                proof {
                    lemma_position_unique(self.entries@, i as int);
                }
                let ghost before = self.entries@;
                let (_, o) = self.entries.remove(i);
                self.entries.insert(i, (label, v));
                let ghost after = self.entries@;
                assert(after =~= before.update(i as int, after[i as int]));
                assert(unique_keys(after)) by {
                    assert forall|a: int, b: int|
                        0 <= a < after.len() && 0 <= b < after.len() && a != b implies (
                    #[trigger] after[a]).0@ != (#[trigger] after[b]).0@ by {
                        if a != i && b != i {
                            assert(after[a] == before[a] && after[b] == before[b]);
                        } else if a == i {
                            assert(after[b] == before[b]);
                        } else {
                            assert(after[a] == before[a]);
                        }
                    }
                }
                assert(entries_map(after) =~= entries_map(before).insert(k, v)) by {
                    assert forall|key: Seq<char>| #[trigger]
                        entries_map(after).contains_key(key) == entries_map(before).insert(
                            k,
                            v,
                        ).contains_key(key) by {
                        if holds_key(after, key) {
                            let j = choose|j: int| 0 <= j < after.len() && (#[trigger] after[j]).0@
                                == key;
                            if j != i {
                                assert(before[j] == after[j]);
                            }
                        }
                        if holds_key(before, key) {
                            let j = choose|j: int|
                                0 <= j < before.len() && (#[trigger] before[j]).0@ == key;
                            if j != i {
                                assert(before[j] == after[j]);
                            }
                        }
                        if key == k {
                            assert(after[i as int].0@ == k);
                        }
                    }
                    assert forall|key: Seq<char>| #[trigger]
                        entries_map(after).contains_key(key) implies entries_map(after)[key]
                        == entries_map(before).insert(k, v)[key] by {
                        let j = choose|j: int| 0 <= j < after.len() && (#[trigger] after[j]).0@
                            == key;
                        lemma_position_unique(after, j);
                        if j != i {
                            assert(before[j] == after[j]);
                            lemma_position_unique(before, j);
                        }
                    }
                }
                Some(o)
            },
            None => {
                let ghost before = self.entries@;
                self.entries.push((label, v));
                let ghost after = self.entries@;
                assert(unique_keys(after)) by {
                    assert forall|a: int, b: int|
                        0 <= a < after.len() && 0 <= b < after.len() && a != b implies (
                    #[trigger] after[a]).0@ != (#[trigger] after[b]).0@ by {
                        if a < before.len() && b < before.len() {
                            assert(after[a] == before[a] && after[b] == before[b]);
                        } else if a < before.len() {
                            assert(after[a] == before[a]);
                        } else {
                            assert(after[b] == before[b]);
                        }
                    }
                }
                assert(entries_map(after) =~= entries_map(before).insert(k, v)) by {
                    assert forall|key: Seq<char>| #[trigger]
                        entries_map(after).contains_key(key) == entries_map(before).insert(
                            k,
                            v,
                        ).contains_key(key) by {
                        if holds_key(after, key) {
                            let j = choose|j: int| 0 <= j < after.len() && (#[trigger] after[j]).0@
                                == key;
                            if j < before.len() {
                                assert(before[j] == after[j]);
                            }
                        }
                        if holds_key(before, key) {
                            let j = choose|j: int|
                                0 <= j < before.len() && (#[trigger] before[j]).0@ == key;
                            assert(before[j] == after[j]);
                        }
                        if key == k {
                            assert(after[before.len() as int].0@ == k);
                        }
                    }
                    assert forall|key: Seq<char>| #[trigger]
                        entries_map(after).contains_key(key) implies entries_map(after)[key]
                        == entries_map(before).insert(k, v)[key] by {
                        let j = choose|j: int| 0 <= j < after.len() && (#[trigger] after[j]).0@
                            == key;
                        lemma_position_unique(after, j);
                        if j < before.len() {
                            assert(before[j] == after[j]);
                            lemma_position_unique(before, j);
                        }
                    }
                }
                None
            },
        }
    }

    /// Removes `label`, handing back its value; nothing changes when it is
    /// absent.
    pub fn remove(&mut self, label: &str) -> (r: Option<V>)
        requires
            old(self).wf(),
        ensures
            final(self).wf(),
            final(self)@ == old(self)@.remove(label@),
            match r {
                Some(o) => old(self)@.contains_key(label@) && o == old(self)@[label@],
                None => !old(self)@.contains_key(label@),
            },
    {
        let ghost k = label@;
        match self.find(label) {
            Some(i) => {
                proof {
                    lemma_position_unique(self.entries@, i as int);
                }
                let ghost before = self.entries@;
                let (_, o) = self.entries.remove(i);
                let ghost after = self.entries@;
                assert(after =~= before.remove(i as int));
                assert(unique_keys(after)) by {
                    assert forall|a: int, b: int|
                        0 <= a < after.len() && 0 <= b < after.len() && a != b implies (
                    #[trigger] after[a]).0@ != (#[trigger] after[b]).0@ by {
                        let a0 = if a < i {
                            a
                        } else {
                            a + 1
                        };
                        let b0 = if b < i {
                            b
                        } else {
                            b + 1
                        };
                        assert(after[a] == before[a0] && after[b] == before[b0]);
                    }
                }
                assert(entries_map(after) =~= entries_map(before).remove(k)) by {
                    assert forall|key: Seq<char>| #[trigger]
                        entries_map(after).contains_key(key) == entries_map(before).remove(
                            k,
                        ).contains_key(key) by {
                        if holds_key(after, key) {
                            let j = choose|j: int| 0 <= j < after.len() && (#[trigger] after[j]).0@
                                == key;
                            let j0 = if j < i {
                                j
                            } else {
                                j + 1
                            };
                            assert(after[j] == before[j0]);
                        }
                        if holds_key(before, key) && key != k {
                            let j = choose|j: int|
                                0 <= j < before.len() && (#[trigger] before[j]).0@ == key;
                            let j1 = if j < i {
                                j
                            } else {
                                j - 1
                            };
                            assert(after[j1] == before[j]);
                        }
                    }
                    assert forall|key: Seq<char>| #[trigger]
                        entries_map(after).contains_key(key) implies entries_map(after)[key]
                        == entries_map(before).remove(k)[key] by {
                        let j = choose|j: int| 0 <= j < after.len() && (#[trigger] after[j]).0@
                            == key;
                        let j0 = if j < i {
                            j
                        } else {
                            j + 1
                        };
                        assert(after[j] == before[j0]);
                        lemma_position_unique(after, j);
                        lemma_position_unique(before, j0);
                    }
                }
                Some(o)
            },
            None => {
                assert(entries_map(self.entries@) =~= entries_map(self.entries@).remove(k));
                None
            },
        }
    }
}

// ---------------------------------------------------------------------------
// Sessions
// ---------------------------------------------------------------------------

/// What kind of pelagos session to spawn in a terminal window.
#[derive(Debug, Clone)]
pub enum PtyMode {
    /// `pelagos run --tty --interactive [opts] <image> [args]`
    Run {
        image: String,
        name: Option<String>,
        args: Vec<String>,
        ports: Vec<String>,
        volumes: Vec<String>,
    },
    /// `pelagos exec -i <container> [cmd]`
    Exec { container: String, cmd: Vec<String> },
}

/// Pending session parameters, held between opening a terminal window and
/// starting its PTY.
#[derive(Debug, Clone)]
pub struct PtyParams {
    pub mode: PtyMode,
}

/// Pending parameters and live sessions (of type `S`), per window label.
#[derive(Debug)]
pub struct PtyMap<S> {
    pub pending: LabelMap<PtyParams>,
    pub sessions: LabelMap<S>,
}

/// The error for a label with no pending session.
pub open spec fn no_pending_text(label: Seq<char>) -> Seq<char> {
    "no pending PTY for label "@ + label
}

/// The error for a label with no live session.
pub open spec fn no_session_text(label: Seq<char>) -> Seq<char> {
    "no PTY session for label "@ + label
}

impl<S> PtyMap<S> {
    pub open spec fn wf(&self) -> bool {
        self.pending.wf() && self.sessions.wf()
    }

    /// An empty map: nothing pending, no sessions.
    pub fn new() -> (m: Self)
        ensures
            m.wf(),
            m.pending@ == Map::<Seq<char>, PtyParams>::empty(),
            m.sessions@ == Map::<Seq<char>, S>::empty(),
    {
        PtyMap { pending: LabelMap::new(), sessions: LabelMap::new() }
    }

    /// Parks the parameters of a window's session until the window starts it.
    pub fn park(&mut self, label: String, params: PtyParams)
        requires
            old(self).wf(),
        ensures
            final(self).wf(),
            final(self).pending@ == old(self).pending@.insert(label@, params),
            final(self).sessions@ == old(self).sessions@,
    {
        let _ = self.pending.insert(label, params);
    }

    /// Takes the pending parameters of `label`: an error when the label is
    /// unknown or its session was already started.
    pub fn take_pending(&mut self, label: &str) -> (r: Result<PtyParams, String>)
        requires
            old(self).wf(),
        ensures
            final(self).wf(),
            final(self).pending@ == old(self).pending@.remove(label@),
            final(self).sessions@ == old(self).sessions@,
            match r {
                Ok(p) => old(self).pending@.contains_key(label@) && p == old(self).pending@[label@],
                Err(m) => !old(self).pending@.contains_key(label@) && m@ == no_pending_text(
                    label@,
                ),
            },
    {
        match self.pending.remove(label) {
            Some(p) => Ok(p),
            None => {
                let mut m = owned("no pending PTY for label ");
                push_str(&mut m, label);
                Err(m)
            },
        }
    }

    /// Keeps the live session of `label`.
    pub fn add_session(&mut self, label: String, session: S)
        requires
            old(self).wf(),
        ensures
            final(self).wf(),
            final(self).sessions@ == old(self).sessions@.insert(label@, session),
            final(self).pending@ == old(self).pending@,
    {
        let _ = self.sessions.insert(label, session);
    }

    /// Forgets everything kept for `label` (dropping a session closes it);
    /// an unknown label changes nothing.
    pub fn close(&mut self, label: &str)
        requires
            old(self).wf(),
        ensures
            final(self).wf(),
            final(self).pending@ == old(self).pending@.remove(label@),
            final(self).sessions@ == old(self).sessions@.remove(label@),
    {
        let _ = self.sessions.remove(label);
        let _ = self.pending.remove(label);
    }
}

/// The error for a label with no live session.
pub fn no_session_message(label: &str) -> (m: String)
    ensures
        m@ == no_session_text(label@),
{
    let mut m = owned("no PTY session for label ");
    push_str(&mut m, label);
    m
}

/// Start-once law: once the pending parameters of a label are taken, the
/// label has none, so starting it again is refused.
pub proof fn lemma_pending_taken_once(pending: Map<Seq<char>, PtyParams>, label: Seq<char>)
    ensures
        !pending.remove(label).contains_key(label),
{
}

/// Closing an unknown label changes nothing.
pub proof fn lemma_close_unknown_is_noop<V>(m: Map<Seq<char>, V>, label: Seq<char>)
    requires
        !m.contains_key(label),
    ensures
        m.remove(label) == m,
{
    assert(m.remove(label) =~= m);
}

/// Replacement law, as used for log streams: keeping a new value (the new
/// stream's task) under a name, with [`LabelMap::insert`], hands back
/// exactly the value that was kept for that name, if any (the running
/// stream, which the caller cancels); afterwards the name holds the new
/// value and every other name holds what it held before.
pub proof fn lemma_insert_replaces<V>(
    before: Map<Seq<char>, V>,
    name: Seq<char>,
    v: V,
    replaced: Option<V>,
)
    requires
        match replaced {
            Some(o) => before.contains_key(name) && o == before[name],
            None => !before.contains_key(name),
        },
    ensures
        before.insert(name, v).contains_key(name),
        before.insert(name, v)[name] == v,
        replaced is Some <==> before.contains_key(name),
        forall|k: Seq<char>|
            k != name ==> (#[trigger] before.insert(name, v).contains_key(k) == before.contains_key(k)
                && (before.contains_key(k) ==> before.insert(name, v)[k] == before[k])),
        before.insert(name, v).remove(name) == before.remove(name),
{
    assert(before.insert(name, v).remove(name) =~= before.remove(name));
}

// ---------------------------------------------------------------------------
// Window labels and titles
// ---------------------------------------------------------------------------

/// The prefix of every terminal window label; it tells terminal windows from
/// the main window.
pub open spec fn label_prefix() -> Seq<char> {
    "terminal-"@
}

pub open spec fn is_lower_hex(c: char) -> bool {
    ('0' <= c && c <= '9') || ('a' <= c && c <= 'f')
}

/// The size a PTY is opened with, before the window reports its own:
/// 24 rows of 80 columns.
pub fn initial_pty_size() -> (r: (u16, u16))
    ensures
        r == (24u16, 80u16),
{
    (24, 80)
}

/// What a request to close a window leads to.
#[derive(Debug, Clone, Copy, PartialEq, Eq, Structural)]
pub enum CloseAction {
    /// A terminal window: its PTY session is ended (as by `pty_close`).
    EndSession,
    /// Any other window: the close is turned into hiding the main window,
    /// so the app stays in the tray.
    HideMain,
}

/// What closing the window `label` does: terminal windows (labels starting
/// with `terminal-`) end their session; other windows hide the main window.
pub fn close_action(label: &str) -> (r: CloseAction)
    ensures
        has_prefix(label@, label_prefix()) ==> r == CloseAction::EndSession,
        !has_prefix(label@, label_prefix()) ==> r == CloseAction::HideMain,
{
    if starts_with(label, "terminal-") {
        CloseAction::EndSession
    } else {
        CloseAction::HideMain
    }
}

/// `uuid::Uuid::new_v4().simple()` as text: a random identifier written as
/// 32 lowercase hexadecimal digits.
#[verifier::external_body]
fn random_id() -> (r: String)
    ensures
        r@.len() == 32,
        forall|i: int| 0 <= i < 32 ==> is_lower_hex(#[trigger] r@[i]),
{
    uuid::Uuid::new_v4().simple().to_string()
}

/// The window label for an identifier: `terminal-<id>`.
pub fn label_for(id: &str) -> (r: String)
    ensures
        r@ == label_prefix() + id@,
{
    let mut r = owned("terminal-");
    push_str(&mut r, id);
    r
}

/// A fresh terminal window label: `terminal-` and 32 random lowercase hex
/// digits.
pub fn new_terminal_label() -> (r: String)
    ensures
        r@.len() == label_prefix().len() + 32,
        has_prefix(r@, label_prefix()),
        forall|i: int| label_prefix().len() <= i < r@.len() ==> is_lower_hex(#[trigger] r@[i]),
{
    let id = random_id();
    let r = label_for(id.as_str());
    proof {
        reveal_strlit("terminal-");
        assert(r@.take(label_prefix().len() as int) =~= label_prefix());
        assert forall|i: int| label_prefix().len() <= i < r@.len() implies is_lower_hex(
            #[trigger] r@[i],
        ) by {
            assert(r@[i] == id@[i - 9]);
        }
    }
    r
}

/// Label law: a label made from a non-empty identifier starts with
/// `terminal-` and is longer than it.
pub proof fn lemma_label_is_prefixed(id: Seq<char>)
    requires
        id.len() > 0,
    ensures
        has_prefix(label_prefix() + id, label_prefix()),
        (label_prefix() + id).len() > label_prefix().len(),
{
    assert((label_prefix() + id).take(label_prefix().len() as int) =~= label_prefix());
}

/// The title of a window running an image: `pelagos — <image>`.
pub fn run_window_title(image: &str) -> (t: String)
    ensures
        t@ == "pelagos — "@ + image@,
{
    let mut t = owned("pelagos — ");
    push_str(&mut t, image);
    t
}

/// The title of a window exec'ing into a container: `pelagos — exec <container>`.
pub fn exec_window_title(container: &str) -> (t: String)
    ensures
        t@ == "pelagos — exec "@ + container@,
{
    let mut t = owned("pelagos — exec ");
    push_str(&mut t, container);
    t
}

// ---------------------------------------------------------------------------
// The command a session runs
// ---------------------------------------------------------------------------

/// The `pelagos` arguments of a session: `run --tty --interactive` with the
/// name, ports (`-p`, then `-n pasta` when there are any) and volumes
/// (`-v`), the image and its command; or `exec -i` into a container with
/// its command, `sh` when none is given.
pub open spec fn pty_args_of(mode: PtyMode) -> Seq<Seq<char>> {
    match mode {
        PtyMode::Run { image, name, args, ports, volumes } => seq![
            "run"@,
            "--tty"@,
            "--interactive"@,
        ] + match name {
            Some(n) => seq!["--name"@, n@],
            None => Seq::empty(),
        } + flag_pairs("-p"@, views(ports@)) + if ports@.len() > 0 {
            seq!["-n"@, "pasta"@]
        } else {
            Seq::empty()
        } + flag_pairs("-v"@, views(volumes@)) + seq![image@] + views(args@),
        PtyMode::Exec { container, cmd } => seq!["exec"@, "-i"@, container@] + if cmd@.len()
            == 0 {
            seq!["sh"@]
        } else {
            views(cmd@)
        },
    }
}

/// Volume law of a `run` session: whatever the name and the ports, the
/// arguments end with `-v v` for every volume `v`, in order, then the image,
/// then the command; and all of this comes after `run --tty --interactive`.
pub proof fn lemma_pty_run_volumes(mode: PtyMode)
    ensures
        match mode {
            PtyMode::Run { image, name, args, ports, volumes } => {
                let r = pty_args_of(mode);
                let vols = views(volumes@);
                let a = views(args@);
                let k = r.len() - a.len() - 1 - 2 * vols.len();
                &&& k >= 3
                &&& r.take(3) == seq!["run"@, "--tty"@, "--interactive"@]
                &&& forall|i: int|
                    0 <= i < vols.len() ==> #[trigger] r[k + 2 * i] == "-v"@ && r[k + 2 * i + 1]
                        == vols[i]
                &&& r[r.len() - a.len() - 1] == image@
                &&& r.skip(r.len() - a.len()) == a
            },
            PtyMode::Exec { .. } => true,
        },
{
    match mode {
        PtyMode::Run { image, name, args, ports, volumes } => {
            let r = pty_args_of(mode);
            let vols = views(volumes@);
            let a = views(args@);
            let head: Seq<Seq<char>> = seq!["run"@, "--tty"@, "--interactive"@] + match name {
                Some(n) => seq!["--name"@, n@],
                None => Seq::empty(),
            } + flag_pairs("-p"@, views(ports@)) + if ports@.len() > 0 {
                seq!["-n"@, "pasta"@]
            } else {
                Seq::empty()
            };
            let fv = flag_pairs("-v"@, vols);
            if vols.len() > 0 {
                lemma_flag_pairs_at("-v"@, vols, 0);
            }
            assert(fv.len() == 2 * vols.len());
            assert(r =~= head + fv + seq![image@] + a);
            let k = head.len() as int;
            assert(k == r.len() - a.len() - 1 - 2 * vols.len());
            assert(r.take(3) =~= seq!["run"@, "--tty"@, "--interactive"@]);
            assert forall|i: int| 0 <= i < vols.len() implies #[trigger] r[k + 2 * i] == "-v"@
                && r[k + 2 * i + 1] == vols[i] by {
                lemma_flag_pairs_at("-v"@, vols, i);
            }
            assert(r.skip(r.len() - a.len()) =~= a);
        },
        PtyMode::Exec { .. } => {},
    }
}

/// The `pelagos` arguments of a session.
pub fn pty_args(mode: &PtyMode) -> (r: Vec<String>)
    ensures
        views(r@) == pty_args_of(*mode),
{
    let mut r: Vec<String> = Vec::new();
    match mode {
        PtyMode::Run { image, name, args, ports, volumes } => {
            push_arg(&mut r, "run");
            push_arg(&mut r, "--tty");
            push_arg(&mut r, "--interactive");
            if let Some(n) = name {
                push_arg(&mut r, "--name");
                push_arg(&mut r, n.as_str());
            }
            push_flag_pairs(&mut r, "-p", ports);
            if ports.len() > 0 {
                push_arg(&mut r, "-n");
                push_arg(&mut r, "pasta");
            }
            push_flag_pairs(&mut r, "-v", volumes);
            push_arg(&mut r, image.as_str());
            push_all(&mut r, args);
        },
        PtyMode::Exec { container, cmd } => {
            push_arg(&mut r, "exec");
            push_arg(&mut r, "-i");
            push_arg(&mut r, container.as_str());
            if cmd.len() == 0 {
                push_arg(&mut r, "sh");
            } else {
                push_all(&mut r, cmd);
            }
        },
    }
    assert(views(r@) =~= pty_args_of(*mode));
    r
}

/// The Homebrew location of `pelagos` on Apple silicon.
pub open spec fn homebrew_bin() -> Seq<char> {
    "/opt/homebrew/bin/pelagos"@
}

/// The Homebrew location of `pelagos` on Intel Macs.
pub open spec fn usr_local_bin() -> Seq<char> {
    "/usr/local/bin/pelagos"@
}

/// Where `pelagos` is, given whether each Homebrew location exists and
/// what a `PATH` search found: `/opt/homebrew/bin/pelagos` first, then
/// `/usr/local/bin/pelagos`, then the `PATH` result.
pub open spec fn pelagos_location_of(homebrew: bool, usr_local: bool, on_path: Option<Seq<char>>) -> Option<
    Seq<char>,
> {
    if homebrew {
        Some(homebrew_bin())
    } else if usr_local {
        Some(usr_local_bin())
    } else {
        on_path
    }
}

/// The binary to run: the location found, or plain `pelagos`.
pub open spec fn pelagos_choice_of(homebrew: bool, usr_local: bool, on_path: Option<Seq<char>>) -> Seq<
    char,
> {
    match pelagos_location_of(homebrew, usr_local, on_path) {
        Some(p) => p,
        None => "pelagos"@,
    }
}

/// Where `pelagos` is, from the two Homebrew probes and the `PATH` search.
pub fn pelagos_bin_location(homebrew: bool, usr_local: bool, on_path: Option<String>) -> (r: Option<
    String,
>)
    ensures
        text_option(r) == pelagos_location_of(homebrew, usr_local, text_option(on_path)),
{
    proof {
        reveal_strlit("/opt/homebrew/bin/pelagos");
        reveal_strlit("/usr/local/bin/pelagos");
    }
    if homebrew {
        Some(owned("/opt/homebrew/bin/pelagos"))
    } else if usr_local {
        Some(owned("/usr/local/bin/pelagos"))
    } else {
        on_path
    }
}

/// The binary to run, from the two Homebrew probes and the `PATH` search:
/// the location found, else plain `pelagos`.
pub fn pelagos_bin_choice(homebrew: bool, usr_local: bool, on_path: Option<String>) -> (r: String)
    ensures
        r@ == pelagos_choice_of(homebrew, usr_local, text_option(on_path)),
{
    match pelagos_bin_location(homebrew, usr_local, on_path) {
        Some(p) => p,
        None => owned("pelagos"),
    }
}

/// The places probed for `pelagos` before a `PATH` search, in order.
pub fn pelagos_candidates() -> (r: Vec<String>)
    ensures
        views(r@) == seq![homebrew_bin(), usr_local_bin()],
{
    let mut r: Vec<String> = Vec::new();
    push_arg(&mut r, "/opt/homebrew/bin/pelagos");
    push_arg(&mut r, "/usr/local/bin/pelagos");
    r
}

/// What a `PATH` search for `pelagos` can give: nothing, or a non-empty
/// path that ends with `pelagos`.
pub open spec fn pelagos_search_result(on_path: Option<Seq<char>>) -> bool {
    on_path matches Some(p) ==> p.len() > 0 && has_suffix(p, "pelagos"@)
}

/// Look for the `pelagos` host binary: the places of
/// [`pelagos_candidates`] first, in order (GUI apps start with a `PATH`
/// without them), then a `PATH` search for `pelagos`; each probe is made
/// only when the ones before it found nothing.  What is found depends on
/// the disk and the environment.
pub fn locate_pelagos_bin() -> (r: Option<String>)
    ensures
        exists|homebrew: bool, usr_local: bool, on_path: Option<Seq<char>>|
            pelagos_search_result(on_path) && #[trigger] pelagos_location_of(
                homebrew,
                usr_local,
                on_path,
            ) == text_option(r),
{
    proof {
        reveal_strlit("pelagos");
    }
    let candidates = pelagos_candidates();
    assert(views(candidates@).len() == candidates@.len());
    let homebrew = path_exists(candidates[0].as_str());
    let usr_local = if homebrew {
        false
    } else {
        path_exists(candidates[1].as_str())
    };
    let on_path = if homebrew || usr_local {
        None
    } else {
        which("pelagos")
    };
    let ghost found = text_option(on_path);
    assert(pelagos_search_result(found));
    let r = pelagos_bin_location(homebrew, usr_local, on_path);
    assert(pelagos_location_of(homebrew, usr_local, found) == text_option(r));
    r
}

/// The `pelagos` binary to run: the location found by
/// [`locate_pelagos_bin`], else plain `pelagos` (left to the system's
/// search).  The result is never empty, and always ends with `pelagos`.
pub fn find_pelagos_bin() -> (r: String)
    ensures
        r@.len() > 0,
        has_suffix(r@, "pelagos"@),
        exists|homebrew: bool, usr_local: bool, on_path: Option<Seq<char>>|
            pelagos_search_result(on_path) && r@ == #[trigger] pelagos_choice_of(
                homebrew,
                usr_local,
                on_path,
            ),
{
    proof {
        reveal_strlit("/opt/homebrew/bin/pelagos");
        reveal_strlit("/usr/local/bin/pelagos");
        reveal_strlit("pelagos");
    }
    let location = locate_pelagos_bin();
    let ghost (homebrew, usr_local, on_path) = choose|
        homebrew: bool,
        usr_local: bool,
        on_path: Option<Seq<char>>,
    |
        pelagos_search_result(on_path) && #[trigger] pelagos_location_of(
            homebrew,
            usr_local,
            on_path,
        ) == text_option(location);
    let r = match location {
        Some(p) => p,
        None => owned("pelagos"),
    };
    assert(r@ == pelagos_choice_of(homebrew, usr_local, on_path));
    proof {
        let t = "pelagos"@;
        if homebrew {
            assert(r@.skip(r@.len() - t.len()) =~= t);
        } else if usr_local {
            assert(r@.skip(r@.len() - t.len()) =~= t);
        } else if on_path is None {
            assert(r@.skip(0) =~= t);
        }
    }
    r
}

} // verus!
