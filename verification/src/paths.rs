//! Unix paths held as text, and the lookups of the host environment that the
//! backends make (home directory, `PATH` search, file existence).

use vstd::prelude::*;

use crate::text::{chars_of, owned, push_char, push_str};

verus! {

/// `p` ends with `t`.
pub open spec fn has_suffix(p: Seq<char>, t: Seq<char>) -> bool {
    t.len() <= p.len() && p.skip(p.len() - t.len()) == t
}

/// `Path::is_absolute` on Unix: the path starts at the root.
pub open spec fn is_absolute_path(p: Seq<char>) -> bool {
    p.len() > 0 && p[0] == '/'
}

/// `Path::join` on Unix: an absolute `rel` replaces `base`; otherwise `rel`
/// is appended, with a `/` between when `base` is non-empty and does not
/// already end with one.
pub open spec fn path_join(base: Seq<char>, rel: Seq<char>) -> Seq<char> {
    if is_absolute_path(rel) {
        rel
    } else if base.len() == 0 || base.last() == '/' {
        base + rel
    } else {
        base + seq!['/'] + rel
    }
}

/// Joining a relative path keeps it as the end of the result.
pub proof fn lemma_join_has_suffix(base: Seq<char>, rel: Seq<char>)
    requires
        !is_absolute_path(rel),
    ensures
        has_suffix(path_join(base, rel), rel),
{
    let p = path_join(base, rel);
    assert(p.skip(p.len() - rel.len()) =~= rel);
}

/// `Path::join` on Unix.
pub fn join_path(base: &str, rel: &str) -> (r: String)
    ensures
        r@ == path_join(base@, rel@),
{
    let vr = chars_of(rel);
    if vr.len() > 0 && vr[0] == '/' {
        return owned(rel);
    }
    let vb = chars_of(base);
    let mut r = owned(base);
    if !(vb.len() == 0 || vb[vb.len() - 1] == '/') {
        push_char(&mut r, '/');
    }
    push_str(&mut r, rel);
    r
}

/// The depth after one component of a relative path: `..` climbs one
/// level, an empty or `.` component stays, any other name goes one down.
pub open spec fn depth_after(depth: int, component: Seq<char>) -> int {
    if component == seq!['.', '.'] {
        depth - 1
    } else if component.len() == 0 || component == seq!['.'] {
        depth
    } else {
        depth + 1
    }
}

/// Walking a relative path character by character: whether no finished
/// component has climbed above the start so far, the depth reached, and
/// the component being read.
pub open spec fn walk(p: Seq<char>) -> (bool, int, Seq<char>)
    decreases p.len(),
{
    if p.len() == 0 {
        (true, 0, Seq::empty())
    } else {
        let (ok, depth, current) = walk(p.drop_last());
        if p.last() == '/' {
            let d = depth_after(depth, current);
            (ok && d >= 0, d, Seq::empty())
        } else {
            (ok, depth, current.push(p.last()))
        }
    }
}

/// A relative path never climbs above where it starts: read component by
/// component, the `..` components never outnumber the names before them.
/// So `a/../b` stays within, while `..`, `../x` and `a/../../x` leave.
pub open spec fn stays_within(p: Seq<char>) -> bool {
    let (ok, depth, current) = walk(p);
    ok && depth_after(depth, current) >= 0
}

/// Once the walk has climbed out, it stays out.
proof fn lemma_walk_out_stays_out(p: Seq<char>, i: int, j: int)
    requires
        0 <= i <= j <= p.len(),
        !walk(p.take(i)).0,
    ensures
        !walk(p.take(j)).0,
    decreases j - i,
{
    if i < j {
        lemma_walk_out_stays_out(p, i, j - 1);
        assert(p.take(j).drop_last() =~= p.take(j - 1));
    }
}

/// Whether a relative path stays within where it starts.
pub fn path_stays_within(path: &str) -> (r: bool)
    ensures
        r == stays_within(path@),
{
    let v = chars_of(path);
    let mut depth: usize = 0;
    let mut current: Vec<char> = Vec::new();
    let mut i: usize = 0;
    assert(path@.take(0) =~= Seq::<char>::empty());
    while i < v.len()
        invariant
            i <= v.len(),
            v@ == path@,
            depth <= i,
            walk(path@.take(i as int)) == (true, depth as int, current@),
        decreases v.len() - i,
    {
        let c = v[i];
        assert(path@.take(i + 1).drop_last() =~= path@.take(i as int));
        assert(path@.take(i + 1).last() == c);
        if c == '/' {
            let dots = current.len() == 2 && current[0] == '.' && current[1] == '.';
            let stay = current.len() == 0 || (current.len() == 1 && current[0] == '.');
            proof {
                if dots {
                    assert(current@ =~= seq!['.', '.']);
                }
                if current.len() == 1 && current[0] == '.' {
                    assert(current@ =~= seq!['.']);
                }
            }
            if dots {
                if depth == 0 {
                    proof {
                        lemma_walk_out_stays_out(path@, i + 1, path@.len() as int);
                        assert(path@.take(path@.len() as int) =~= path@);
                    }
                    return false;
                }
                depth = depth - 1;
            } else if !stay {
                depth = depth + 1;
            }
            current = Vec::new();
        } else {
            current.push(c);
        }
        i = i + 1;
    }
    assert(path@.take(v.len() as int) =~= path@);
    let dots = current.len() == 2 && current[0] == '.' && current[1] == '.';
    proof {
        if dots {
            assert(current@ =~= seq!['.', '.']);
        }
    }
    !(dots && depth == 0)
}

/// What `Path::strip_prefix` leaves of `path` once the components of `base`
/// are taken off its front, or `None` when `base` is not a prefix of it
/// component by component.
pub uninterp spec fn path_strip_prefix(path: Seq<char>, base: Seq<char>) -> Option<Seq<char>>;

/// `std::path::Path::strip_prefix`, its result as text.  What the result is
/// (component-wise matching, separators and `.` components dropped at the
/// cut) is left to the name `path_strip_prefix`; both arguments are text,
/// so the result is text too and converting it loses nothing.
#[verifier::external_body]
pub fn strip_path_prefix(path: &str, base: &str) -> (r: Option<String>)
    ensures
        r is Some == path_strip_prefix(path@, base@) is Some,
        r matches Some(s) ==> path_strip_prefix(path@, base@) == Some(s@),
{
    std::path::Path::new(path).strip_prefix(base).ok().map(|p| p.to_string_lossy().into_owned())
}

/// `dirs::home_dir`: the current user's home directory, from `$HOME` or the
/// user database, as text (bytes that are not valid UTF-8 read as U+FFFD).
/// It depends on the environment, so nothing is promised of it.
#[verifier::external_body]
pub fn home_dir() -> (r: Option<String>) {
    dirs::home_dir().map(|p| p.to_string_lossy().into_owned())
}

/// `which::which`: the path of an executable named `name` found on `$PATH`.
/// Which file is found depends on the environment and the disk.  For a
/// name without `/`, each `$PATH` entry is joined with the name
/// (`dir.join(name)`), so a found path ends with the name; a found path is
/// never empty.  The path is given as text, bytes that are not valid UTF-8
/// read as U+FFFD (the `/` before the name and the name itself, being text,
/// are kept as they are).
#[verifier::external_body]
pub fn which(name: &str) -> (r: Option<String>)
    ensures
        r matches Some(p) ==> p@.len() > 0,
        !name@.contains('/') ==> (r matches Some(p) ==> has_suffix(p@, name@)),
{
    which::which(name).ok().map(|p| p.to_string_lossy().into_owned())
}

/// `std::path::Path::exists`: whether something exists at `path`.  It
/// depends on the disk, so nothing is promised of it.
#[verifier::external_body]
pub fn path_exists(path: &str) -> (r: bool) {
    std::path::Path::new(path).exists()
}

} // verus!
