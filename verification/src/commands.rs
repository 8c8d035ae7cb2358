//! The logic behind the commands the UI front end invokes: reading volume
//! specs into mounts, and the VM status shown for a ping.

use vstd::prelude::*;

use crate::backend::BackendError;
use crate::paths::{
    home_dir, is_absolute_path, join_path, path_join, path_stays_within, path_strip_prefix,
    stays_within, strip_path_prefix,
};
use crate::text::{
    debug_quoted, debug_text, has_prefix, owned, push_str, same_text, splitn3, splitn3_at,
    starts_with, string_of, chars_of, text_option, views,
};
use crate::types::{mount_views, GuestMount, GuestMountView, VmStatus};

verus! {

/// The virtiofs tag under which `$HOME` is always shared with the VM.
pub open spec fn home_share_tag() -> Seq<char> {
    "share0"@
}

/// A host path with a leading `~/` (or a bare `~`) taken as the home
/// directory.
pub open spec fn expand_home(raw: Seq<char>, home: Seq<char>) -> Seq<char> {
    if has_prefix(raw, "~/"@) {
        path_join(home, raw.skip(2))
    } else if raw == "~"@ {
        home
    } else {
        raw
    }
}

/// The pieces of a volume spec are `HOST:CONTAINER` or `HOST:CONTAINER:ro`.
pub open spec fn well_formed_parts(parts: Seq<Seq<char>>) -> bool {
    parts.len() >= 2 && (parts.len() == 2 || parts[2] == "ro"@)
}

/// Whether the optional third piece of a volume spec asks for read-only.
pub open spec fn read_only_flag(parts: Seq<Seq<char>>) -> bool {
    parts.len() > 2 && parts[2] == "ro"@
}

/// The error for a spec that is not `HOST:CONTAINER[:ro]`.
pub open spec fn malformed_message(spec: Seq<char>) -> Seq<char> {
    "invalid volume spec "@ + debug_text(spec) + ": expected HOST:CONTAINER or HOST:CONTAINER:ro"@
}

/// The mount of a host path, given what `Path::strip_prefix` left of it
/// below the home directory: a subpath of the home share when something is
/// left and it does not climb out of the home directory through `..`
/// components; otherwise the error for a path outside the home directory.
pub open spec fn mount_of_strip(
    strip: Option<Seq<char>>,
    host: Seq<char>,
    container_path: Seq<char>,
    read_only: bool,
) -> Result<GuestMountView, Seq<char>> {
    match strip {
        Some(sub) if stays_within(sub) => Ok(
            GuestMountView {
                tag: home_share_tag(),
                subpath: sub,
                container_path,
                read_only,
            },
        ),
        _ => Err(
            "volume host path "@ + host
                + " is outside $HOME — only paths under $HOME are accessible in the VM without a restart"@,
        ),
    }
}

/// One `HOST:CONTAINER[:ro]` volume spec read against the home directory:
/// the host path (after `~` expansion) must be absolute and lie under the
/// home directory, which the VM sees as share `share0`, without leaving it
/// through `..` components; the mount's subpath is what lies below the home
/// directory.
pub open spec fn volume_of(spec: Seq<char>, home: Seq<char>) -> Result<GuestMountView, Seq<char>> {
    let parts = splitn3(spec, ':');
    if !well_formed_parts(parts) {
        Err(malformed_message(spec))
    } else {
        let raw = parts[0];
        let host = expand_home(raw, home);
        if !is_absolute_path(host) {
            Err("volume host path "@ + debug_text(raw) + " must be absolute (or start with ~/)"@)
        } else {
            mount_of_strip(path_strip_prefix(host, home), host, parts[1], read_only_flag(parts))
        }
    }
}

/// A volume is accepted only when its spec is well formed and its host
/// path, after `~` expansion, is absolute and lies under the home
/// directory; the mount is then the home share at what lies below the home
/// directory, a subpath that never climbs above the share, so no accepted
/// mount reaches outside it.
pub proof fn lemma_accepted_volume_stays_in_home(spec: Seq<char>, home: Seq<char>)
    ensures
        volume_of(spec, home) matches Ok(m) ==> {
            let parts = splitn3(spec, ':');
            let host = expand_home(parts[0], home);
            &&& well_formed_parts(parts)
            &&& is_absolute_path(host)
            &&& path_strip_prefix(host, home) == Some(m.subpath)
            &&& stays_within(m.subpath)
            &&& m.tag == home_share_tag()
            &&& m.container_path == parts[1]
            &&& m.read_only == (parts.len() > 2)
        },
{
}

/// All volume specs read in order; the first bad one gives the error.
pub open spec fn volumes_of(specs: Seq<Seq<char>>, home: Seq<char>) -> Result<
    Seq<GuestMountView>,
    Seq<char>,
>
    decreases specs.len(),
{
    if specs.len() == 0 {
        Ok(Seq::empty())
    } else {
        match volume_of(specs[0], home) {
            Err(e) => Err(e),
            Ok(m) => match volumes_of(specs.skip(1), home) {
                Ok(ms) => Ok(seq![m] + ms),
                Err(e) => Err(e),
            },
        }
    }
}

/// Volume specs read against the home directory if there is one: no specs
/// give no mounts (the home directory is not needed), and without a home
/// directory any spec is an error.
pub open spec fn volumes_with_home(specs: Seq<Seq<char>>, home: Option<Seq<char>>) -> Result<
    Seq<GuestMountView>,
    Seq<char>,
> {
    if specs.len() == 0 {
        Ok(Seq::empty())
    } else {
        match home {
            None => Err("cannot determine $HOME"@),
            Some(h) => volumes_of(specs, h),
        }
    }
}

/// `done` put in front of the mounts of a result.
pub open spec fn prepend_mounts(
    done: Seq<GuestMountView>,
    r: Result<Seq<GuestMountView>, Seq<char>>,
) -> Result<Seq<GuestMountView>, Seq<char>> {
    match r {
        Ok(ms) => Ok(done + ms),
        Err(e) => Err(e),
    }
}

/// A result of the library against its mathematical value.
pub open spec fn mounts_agree(
    r: Result<Vec<GuestMount>, BackendError>,
    s: Result<Seq<GuestMountView>, Seq<char>>,
) -> bool {
    match (r, s) {
        (Ok(v), Ok(ms)) => mount_views(v@) == ms,
        (Err(BackendError::Other(m)), Err(e)) => m@ == e,
        _ => false,
    }
}

/// One mount of the library against its mathematical value.
pub open spec fn mount_agrees(
    r: Result<GuestMount, BackendError>,
    s: Result<GuestMountView, Seq<char>>,
) -> bool {
    match (r, s) {
        (Ok(m), Ok(v)) => m@ == v,
        (Err(BackendError::Other(msg)), Err(e)) => msg@ == e,
        _ => false,
    }
}

/// The mount of a host path from what `Path::strip_prefix` left of it below
/// the home directory.
pub fn mount_from_strip(
    strip: Option<String>,
    host: &str,
    container_path: &str,
    read_only: bool,
) -> (r: Result<GuestMount, BackendError>)
    ensures
        mount_agrees(r, mount_of_strip(text_option(strip), host@, container_path@, read_only)),
{
    let inside = match &strip {
        Some(sub) => path_stays_within(sub.as_str()),
        None => false,
    };
    match strip {
        Some(subpath) if inside => Ok(
            GuestMount {
                tag: owned("share0"),
                subpath,
                container_path: owned(container_path),
                read_only,
            },
        ),
        _ => {
            let mut msg = owned("volume host path ");
            push_str(&mut msg, host);
            push_str(
                &mut msg,
                " is outside $HOME — only paths under $HOME are accessible in the VM without a restart",
            );
            Err(BackendError::Other(msg))
        },
    }
}

/// One volume spec read against the home directory.
pub fn parse_volume(spec: &str, home: &str) -> (r: Result<GuestMount, BackendError>)
    ensures
        mount_agrees(r, volume_of(spec@, home@)),
{
    let parts = splitn3_at(spec, ':');
    proof {
        reveal_strlit("ro");
    }
    if !(parts.len() >= 2 && (parts.len() == 2 || same_text(parts[2].as_str(), "ro"))) {
        let mut msg = owned("invalid volume spec ");
        push_str(&mut msg, debug_quoted(spec).as_str());
        push_str(&mut msg, ": expected HOST:CONTAINER or HOST:CONTAINER:ro");
        return Err(BackendError::Other(msg));
    }
    let raw = parts[0].as_str();
    assert(raw@ == splitn3(spec@, ':')[0]);
    proof {
        reveal_strlit("~/");
        reveal_strlit("~");
    }
    let expanded = if starts_with(raw, "~/") {
        let v = chars_of(raw);
        let rest = string_of(&v, 2, v.len());
        assert(rest@ == raw@.skip(2));
        join_path(home, rest.as_str())
    } else if same_text(raw, "~") {
        owned(home)
    } else {
        owned(raw)
    };
    assert(expanded@ == expand_home(raw@, home@));
    let ve = chars_of(expanded.as_str());
    if !(ve.len() > 0 && ve[0] == '/') {
        let mut msg = owned("volume host path ");
        push_str(&mut msg, debug_quoted(raw).as_str());
        push_str(&mut msg, " must be absolute (or start with ~/)");
        return Err(BackendError::Other(msg));
    }
    let read_only = parts.len() > 2;
    assert(read_only == read_only_flag(splitn3(spec@, ':')));
    let strip = strip_path_prefix(expanded.as_str(), home);
    mount_from_strip(strip, expanded.as_str(), parts[1].as_str(), read_only)
}

/// Volume specs read against a given home directory, in order; the first
/// bad spec gives the error.
pub fn parse_volumes_in(specs: &Vec<String>, home: &str) -> (r: Result<Vec<GuestMount>, BackendError>)
    ensures
        mounts_agree(r, volumes_of(views(specs@), home@)),
{
    let mut mounts: Vec<GuestMount> = Vec::new();
    let mut i: usize = 0;
    proof {
        assert(views(specs@).skip(0) =~= views(specs@));
        assert(mount_views(mounts@) =~= Seq::<GuestMountView>::empty());
        match volumes_of(views(specs@), home@) {
            Ok(ms) => {
                assert(Seq::<GuestMountView>::empty() + ms =~= ms);
            },
            Err(_) => {},
        }
    }
    while i < specs.len()
        invariant
            0 <= i <= specs.len(),
            volumes_of(views(specs@), home@) == prepend_mounts(
                mount_views(mounts@),
                volumes_of(views(specs@).skip(i as int), home@),
            ),
        decreases specs.len() - i,
    {
        let ghost rest = views(specs@).skip(i as int);
        assert(rest[0] == specs@[i as int]@);
        assert(rest.skip(1) =~= views(specs@).skip(i + 1));
        match parse_volume(specs[i].as_str(), home) {
            Ok(m) => {
                let ghost before = mount_views(mounts@);
                mounts.push(m);
                assert(mount_views(mounts@) =~= before.push(m@));
                assert forall|ms: Seq<GuestMountView>| #![auto] before + (seq![m@] + ms) == before.push(
                    m@,
                ) + ms by {
                    assert(before + (seq![m@] + ms) =~= before.push(m@) + ms);
                }
            },
            Err(e) => {
                return Err(e);
            },
        }
        i = i + 1;
    }
    assert(views(specs@).skip(specs.len() as int) =~= Seq::<Seq<char>>::empty());
    assert(mount_views(mounts@) + Seq::<GuestMountView>::empty() =~= mount_views(mounts@));
    Ok(mounts)
}

/// Volume specs read against the home directory that was looked up, if
/// any: no specs give no mounts, no home directory gives
/// `cannot determine $HOME`, and otherwise the specs are read against it.
pub fn parse_volumes_with_home(specs: &Vec<String>, home: Option<String>) -> (r: Result<
    Vec<GuestMount>,
    BackendError,
>)
    ensures
        mounts_agree(r, volumes_with_home(views(specs@), text_option(home))),
{
    if specs.len() == 0 {
        let v: Vec<GuestMount> = Vec::new();
        assert(mount_views(v@) =~= Seq::<GuestMountView>::empty());
        return Ok(v);
    }
    match home {
        None => Err(BackendError::Other(owned("cannot determine $HOME"))),
        Some(h) => parse_volumes_in(specs, h.as_str()),
    }
}

/// Parse `HOST:CONTAINER[:ro]` volume specs into mounts of the home share.
/// No specs give no mounts; otherwise the home directory is looked up (an
/// error when there is none) and the specs are read against it.
pub fn parse_volumes(specs: &Vec<String>) -> (r: Result<Vec<GuestMount>, BackendError>)
    ensures
        specs@.len() == 0 ==> (r matches Ok(v) && v@.len() == 0),
        exists|home: Option<Seq<char>>|
            mounts_agree(r, #[trigger] volumes_with_home(views(specs@), home)),
{
    if specs.len() == 0 {
        let v: Vec<GuestMount> = Vec::new();
        assert(mount_views(v@) =~= Seq::<GuestMountView>::empty());
        let r: Result<Vec<GuestMount>, BackendError> = Ok(v);
        assert(mounts_agree(r, volumes_with_home(views(specs@), None)));
        return r;
    }
    let home = home_dir();
    let r = parse_volumes_with_home(specs, home);
    assert(mounts_agree(r, volumes_with_home(views(specs@), text_option(home))));
    r
}

/// A `HOST:CONTAINER[:ro]` spec as a bind mount of the host path itself
/// (held in `tag`, with an empty subpath), read-only only when the third
/// piece is `ro`; `None` when there is no `:`.
pub open spec fn bind_volume_of(spec: Seq<char>) -> Option<GuestMountView> {
    let parts = splitn3(spec, ':');
    if parts.len() < 2 {
        None
    } else {
        Some(
            GuestMountView {
                tag: parts[0],
                subpath: Seq::empty(),
                container_path: parts[1],
                read_only: read_only_flag(parts),
            },
        )
    }
}

/// The bind mounts of well-formed specs, in order; malformed specs are
/// passed over.
pub open spec fn bind_volumes_of(specs: Seq<Seq<char>>) -> Seq<GuestMountView>
    decreases specs.len(),
{
    if specs.len() == 0 {
        Seq::empty()
    } else {
        bind_volumes_of(specs.drop_last()) + match bind_volume_of(specs.last()) {
            Some(m) => seq![m],
            None => Seq::empty(),
        }
    }
}

/// Volume specs as bind mounts for the Linux process backend, which passes
/// host paths to `pelagos` directly.
pub fn parse_bind_volumes(specs: &Vec<String>) -> (r: Vec<GuestMount>)
    ensures
        mount_views(r@) == bind_volumes_of(views(specs@)),
{
    let mut r: Vec<GuestMount> = Vec::new();
    let mut i: usize = 0;
    while i < specs.len()
        invariant
            0 <= i <= specs.len(),
            mount_views(r@) == bind_volumes_of(views(specs@).take(i as int)),
        decreases specs.len() - i,
    {
        assert(views(specs@).take(i + 1).drop_last() == views(specs@).take(i as int));
        let parts = splitn3_at(specs[i].as_str(), ':');
        if parts.len() >= 2 {
            let read_only = parts.len() > 2 && same_text(parts[2].as_str(), "ro");
            let m = GuestMount {
                tag: owned(parts[0].as_str()),
                subpath: String::new(),
                container_path: owned(parts[1].as_str()),
                read_only,
            };
            let ghost before = mount_views(r@);
            r.push(m);
            assert(mount_views(r@) =~= before.push(m@));
        } else {
            assert(mount_views(r@) + Seq::<GuestMountView>::empty() =~= mount_views(r@));
        }
        i = i + 1;
    }
    assert(views(specs@).take(specs.len() as int) == views(specs@));
    r
}

/// The VM status for a ping: `Running` if the guest answered, `Stopped`
/// otherwise.
pub fn vm_status_for(ping_ok: bool) -> (s: VmStatus)
    ensures
        ping_ok ==> s == VmStatus::Running,
        !ping_ok ==> s == VmStatus::Stopped,
{
    if ping_ok {
        VmStatus::Running
    } else {
        VmStatus::Stopped
    }
}

} // verus!
