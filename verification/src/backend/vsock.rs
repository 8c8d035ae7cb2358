//! macOS backend logic: the guest daemon is reached over vsock (exposed by
//! the pelagos-mac daemon as a Unix socket).  The exchange is one command
//! line out, then response lines in until a terminal one; the functions here
//! decide, line by line, what the host does.

use vstd::prelude::*;

use crate::backend::BackendError;
use crate::command::GuestCommand;
use crate::response::{GuestResponse, StreamKind};
use crate::text::{
    blank, decimal, is_blank, lines, lines_of, owned, parse_u16, parse_u16_of,
    push_decimal, push_str, split_once, split_once_at, text_option, views,
};
use crate::paths::{has_suffix, home_dir, join_path, lemma_join_has_suffix, path_join};
use crate::types::GuestMount;
use std::collections::HashMap;

verus! {

/// What one read from the guest connection gave.
#[derive(Debug)]
pub enum Reply {
    /// The connection reached end of file.
    Closed,
    /// A line that is not a response this host knows.
    Unparseable,
    /// A response line.
    Response(GuestResponse),
}

/// What the host does after one reply.
#[derive(Debug)]
pub enum Next<T> {
    /// Read the next reply.
    Read,
    /// The exchange is over, with this result.
    Finish(Result<T, BackendError>),
}

// ---------------------------------------------------------------------------
// Collecting stdout (list, stop, remove, ping, image list/remove, k8s stop)
// ---------------------------------------------------------------------------

/// The result of an exchange that collects stdout: stdout chunks are
/// appended to `acc`; `Exit`, `Pong` or end of file end it with the text so
/// far; `Error` ends it with the guest's message; anything else is skipped.
pub open spec fn collect_outcome(acc: Seq<char>, replies: Seq<Reply>) -> Result<Seq<char>, Seq<char>>
    decreases replies.len(),
{
    if replies.len() == 0 {
        Ok(acc)
    } else {
        match replies[0] {
            Reply::Response(GuestResponse::Stream { stream: StreamKind::Stdout, data }) => {
                collect_outcome(acc + data@, replies.skip(1))
            },
            Reply::Response(GuestResponse::Exit { .. }) => Ok(acc),
            Reply::Response(GuestResponse::Pong { .. }) => Ok(acc),
            Reply::Closed => Ok(acc),
            Reply::Response(GuestResponse::Error { error }) => Err(error@),
            _ => collect_outcome(acc, replies.skip(1)),
        }
    }
}

/// Replies that an exchange collecting stdout passes over.
pub open spec fn ignored_by_collect(r: Reply) -> bool {
    match r {
        Reply::Response(GuestResponse::Stream { stream: StreamKind::Stdout, .. }) => false,
        Reply::Response(GuestResponse::Exit { .. }) => false,
        Reply::Response(GuestResponse::Pong { .. }) => false,
        Reply::Response(GuestResponse::Error { .. }) => false,
        Reply::Closed => false,
        _ => true,
    }
}

/// Replies that end an exchange collecting stdout.
pub open spec fn ends_collect(r: Reply) -> bool {
    match r {
        Reply::Response(GuestResponse::Exit { .. }) => true,
        Reply::Response(GuestResponse::Pong { .. }) => true,
        Reply::Response(GuestResponse::Error { .. }) => true,
        Reply::Closed => true,
        _ => false,
    }
}

/// One step of an exchange that collects stdout into `acc`.  On
/// `Finish(Ok(()))` the exchange's result is the text in `acc`.
pub fn collect_step(acc: &mut String, reply: &Reply) -> (n: Next<()>)
    ensures
        match n {
            Next::Read => forall|rest: Seq<Reply>|
                #[trigger] collect_outcome(old(acc)@, seq![*reply] + rest) == collect_outcome(
                    final(acc)@,
                    rest,
                ),
            Next::Finish(Ok(())) => final(acc)@ == old(acc)@ && forall|rest: Seq<Reply>|
                #[trigger] collect_outcome(old(acc)@, seq![*reply] + rest) == Ok::<
                    Seq<char>,
                    Seq<char>,
                >(old(acc)@),
            Next::Finish(Err(BackendError::Other(m))) => final(acc)@ == old(acc)@ && forall|
                rest: Seq<Reply>,
            |
                #[trigger] collect_outcome(old(acc)@, seq![*reply] + rest) == Err::<
                    Seq<char>,
                    Seq<char>,
                >(m@),
            Next::Finish(Err(_)) => false,
        },
{
    let n = match reply {
        Reply::Response(GuestResponse::Stream { stream: StreamKind::Stdout, data }) => {
            push_str(acc, data.as_str());
            Next::Read
        },
        Reply::Response(GuestResponse::Exit { .. }) => Next::Finish(Ok(())),
        Reply::Response(GuestResponse::Pong { .. }) => Next::Finish(Ok(())),
        Reply::Closed => Next::Finish(Ok(())),
        Reply::Response(GuestResponse::Error { error }) => Next::Finish(
            Err(BackendError::Other(error.clone())),
        ),
        _ => Next::Read,
    };
    assert forall|rest: Seq<Reply>| (seq![*reply] + rest)[0] == *reply && (seq![*reply]
        + rest).skip(1) == rest by {
        assert((seq![*reply] + rest).skip(1) =~= rest);
    }
    n
}

/// Skipping law: a reply that the collecting exchange ignores can stand
/// anywhere in the replies without changing the result.
pub proof fn lemma_collect_skips_ignored(
    acc: Seq<char>,
    before: Seq<Reply>,
    r: Reply,
    after: Seq<Reply>,
)
    requires
        ignored_by_collect(r),
    ensures
        collect_outcome(acc, before + seq![r] + after) == collect_outcome(acc, before + after),
    decreases before.len(),
{
    if before.len() == 0 {
        assert(before + seq![r] + after == seq![r] + after);
        assert((seq![r] + after).skip(1) =~= after);
        assert(before + after =~= after);
    } else {
        let first = before[0];
        assert((before + seq![r] + after)[0] == first);
        assert((before + after)[0] == first);
        assert((before + seq![r] + after).skip(1) =~= before.skip(1) + seq![r] + after);
        assert((before + after).skip(1) =~= before.skip(1) + after);
        match first {
            Reply::Response(GuestResponse::Stream { stream: StreamKind::Stdout, data }) => {
                lemma_collect_skips_ignored(acc + data@, before.skip(1), r, after);
            },
            _ => {
                lemma_collect_skips_ignored(acc, before.skip(1), r, after);
            },
        }
    }
}

/// Terminal law: nothing after a reply that ends the collecting exchange
/// reaches its result.
pub proof fn lemma_collect_ignores_after_end(
    acc: Seq<char>,
    before: Seq<Reply>,
    r: Reply,
    after: Seq<Reply>,
)
    requires
        ends_collect(r),
    ensures
        collect_outcome(acc, before + seq![r] + after) == collect_outcome(acc, before + seq![r]),
    decreases before.len(),
{
    if before.len() == 0 {
        assert(before + seq![r] + after =~= seq![r] + after);
        assert(before + seq![r] =~= seq![r]);
    } else {
        let first = before[0];
        assert((before + seq![r] + after)[0] == first);
        assert((before + seq![r])[0] == first);
        assert((before + seq![r] + after).skip(1) =~= before.skip(1) + seq![r] + after);
        assert((before + seq![r]).skip(1) =~= before.skip(1) + seq![r]);
        match first {
            Reply::Response(GuestResponse::Stream { stream: StreamKind::Stdout, data }) => {
                lemma_collect_ignores_after_end(acc + data@, before.skip(1), r, after);
            },
            _ => {
                lemma_collect_ignores_after_end(acc, before.skip(1), r, after);
            },
        }
    }
}

/// The stdout text of a sequence of response chunks.
pub open spec fn stdout_text(chunks: Seq<GuestResponse>) -> Seq<char>
    decreases chunks.len(),
{
    if chunks.len() == 0 {
        Seq::empty()
    } else {
        match chunks.last() {
            GuestResponse::Stream { stream: StreamKind::Stdout, data } => stdout_text(
                chunks.drop_last(),
            ) + data@,
            _ => stdout_text(chunks.drop_last()),
        }
    }
}

/// Exchange law: when the guest sends stream chunks and then `Exit`, the
/// collected result is the concatenation of the stdout chunks, in order.
pub proof fn lemma_collect_stream_then_exit(chunks: Seq<GuestResponse>, code: i32)
    requires
        forall|i: int| 0 <= i < chunks.len() ==> (#[trigger] chunks[i] is Stream),
    ensures
        collect_outcome(
            Seq::empty(),
            chunks.map_values(|c: GuestResponse| Reply::Response(c)).push(
                Reply::Response(GuestResponse::Exit { exit: code }),
            ),
        ) == Ok::<Seq<char>, Seq<char>>(stdout_text(chunks)),
    decreases chunks.len(),
{
    lemma_collect_chunks(Seq::empty(), chunks, code);
    assert(Seq::<char>::empty() + stdout_text(chunks) =~= stdout_text(chunks));
}

proof fn lemma_collect_chunks(acc: Seq<char>, chunks: Seq<GuestResponse>, code: i32)
    requires
        forall|i: int| 0 <= i < chunks.len() ==> (#[trigger] chunks[i] is Stream),
    ensures
        collect_outcome(
            acc,
            chunks.map_values(|c: GuestResponse| Reply::Response(c)).push(
                Reply::Response(GuestResponse::Exit { exit: code }),
            ),
        ) == Ok::<Seq<char>, Seq<char>>(acc + stdout_text(chunks)),
    decreases chunks.len(),
{
    let replies = chunks.map_values(|c: GuestResponse| Reply::Response(c)).push(
        Reply::Response(GuestResponse::Exit { exit: code }),
    );
    if chunks.len() == 0 {
        assert(acc + Seq::<char>::empty() =~= acc);
    } else {
        let first = chunks[0];
        let tail = chunks.skip(1);
        assert(replies[0] == Reply::Response(first));
        assert(replies.skip(1) =~= tail.map_values(|c: GuestResponse| Reply::Response(c)).push(
            Reply::Response(GuestResponse::Exit { exit: code }),
        ));
        assert forall|i: int| 0 <= i < tail.len() implies (#[trigger] tail[i] is Stream) by {
            assert(tail[i] == chunks[i + 1]);
        }
        lemma_stdout_text_front(chunks);
        match first {
            GuestResponse::Stream { stream: StreamKind::Stdout, data } => {
                lemma_collect_chunks(acc + data@, tail, code);
                assert(acc + data@ + stdout_text(tail) =~= acc + (data@ + stdout_text(tail)));
            },
            _ => {
                lemma_collect_chunks(acc, tail, code);
            },
        }
    }
}

/// `stdout_text` read from the front.
proof fn lemma_stdout_text_front(chunks: Seq<GuestResponse>)
    requires
        chunks.len() > 0,
    ensures
        stdout_text(chunks) == (match chunks[0] {
            GuestResponse::Stream { stream: StreamKind::Stdout, data } => data@ + stdout_text(
                chunks.skip(1),
            ),
            _ => stdout_text(chunks.skip(1)),
        }),
    decreases chunks.len(),
{
    if chunks.len() == 1 {
        assert(chunks.drop_last() =~= Seq::<GuestResponse>::empty());
        assert(chunks.skip(1) =~= Seq::<GuestResponse>::empty());
        assert(Seq::<char>::empty() + Seq::<char>::empty() =~= Seq::<char>::empty());
        match chunks[0] {
            GuestResponse::Stream { stream: StreamKind::Stdout, data } => {
                assert(Seq::<char>::empty() + data@ =~= data@ + Seq::<char>::empty());
            },
            _ => {},
        }
    } else {
        lemma_stdout_text_front(chunks.drop_last());
        assert(chunks.drop_last()[0] == chunks[0]);
        assert(chunks.drop_last().skip(1) =~= chunks.skip(1).drop_last());
        assert(chunks.skip(1).last() == chunks.last());
        match chunks.last() {
            GuestResponse::Stream { stream: StreamKind::Stdout, data: d } => {
                match chunks[0] {
                    GuestResponse::Stream { stream: StreamKind::Stdout, data } => {
                        assert(data@ + stdout_text(chunks.skip(1).drop_last()) + d@ =~= data@ + (
                        stdout_text(chunks.skip(1).drop_last()) + d@));
                    },
                    _ => {},
                }
            },
            _ => {},
        }
    }
}


// ---------------------------------------------------------------------------
// Following output (run, pull, logs, k8s start)
// ---------------------------------------------------------------------------

/// The result of an exchange that follows output: `Exit` ends it with its
/// exit code, end of file with the code so far, `Error` with the guest's
/// message; anything else is passed over.
pub open spec fn follow_outcome(exit: i32, replies: Seq<Reply>) -> Result<i32, Seq<char>>
    decreases replies.len(),
{
    if replies.len() == 0 {
        Ok(exit)
    } else {
        match replies[0] {
            Reply::Response(GuestResponse::Exit { exit: e }) => Ok(e),
            Reply::Response(GuestResponse::Error { error }) => Err(error@),
            Reply::Closed => Ok(exit),
            _ => follow_outcome(exit, replies.skip(1)),
        }
    }
}

/// The exit code an exchange that follows output starts from: 0, which is
/// its result when the exchange ends (end of file) before any `Exit`.
pub fn follow_start() -> (exit: i32)
    ensures
        exit == 0,
        follow_outcome(exit, seq![Reply::Closed]) == Ok::<i32, Seq<char>>(0),
{
    0
}

/// The lines an exchange that follows output hands on: the lines of every
/// stream chunk (stdout and stderr alike) before the exchange ends.
pub open spec fn forwarded_lines(replies: Seq<Reply>) -> Seq<Seq<char>>
    decreases replies.len(),
{
    if replies.len() == 0 {
        Seq::empty()
    } else {
        match replies[0] {
            Reply::Response(GuestResponse::Stream { data, .. }) => lines(data@) + forwarded_lines(
                replies.skip(1),
            ),
            Reply::Response(GuestResponse::Exit { .. }) => Seq::empty(),
            Reply::Response(GuestResponse::Error { .. }) => Seq::empty(),
            Reply::Closed => Seq::empty(),
            _ => forwarded_lines(replies.skip(1)),
        }
    }
}

/// One step of an exchange that follows output, with the exit code so far
/// in `exit`.  Returns what to do next and the lines to hand on now.  On
/// `Finish(Ok(()))` the exchange's result is the code in `exit`.
pub fn follow_step(exit: &mut i32, reply: &Reply) -> (r: (Next<()>, Vec<String>))
    ensures
        match r.0 {
            Next::Read => forall|rest: Seq<Reply>|
                {
                    &&& #[trigger] follow_outcome(old(exit)@, seq![*reply] + rest) == follow_outcome(
                        final(exit)@,
                        rest,
                    )
                    &&& forwarded_lines(seq![*reply] + rest) == views(r.1@) + forwarded_lines(rest)
                },
            Next::Finish(Ok(())) => r.1@.len() == 0 && forall|rest: Seq<Reply>|
                {
                    &&& #[trigger] follow_outcome(old(exit)@, seq![*reply] + rest) == Ok::<
                        i32,
                        Seq<char>,
                    >(final(exit)@)
                    &&& forwarded_lines(seq![*reply] + rest) == Seq::<Seq<char>>::empty()
                },
            Next::Finish(Err(BackendError::Other(m))) => r.1@.len() == 0 && final(exit)@ == old(
                exit,
            )@ && forall|rest: Seq<Reply>|
                {
                    &&& #[trigger] follow_outcome(old(exit)@, seq![*reply] + rest) == Err::<
                        i32,
                        Seq<char>,
                    >(m@)
                    &&& forwarded_lines(seq![*reply] + rest) == Seq::<Seq<char>>::empty()
                },
            Next::Finish(Err(_)) => false,
        },
{
    let r = match reply {
        Reply::Response(GuestResponse::Stream { data, .. }) => (Next::Read, lines_of(data.as_str())),
        Reply::Response(GuestResponse::Exit { exit: e }) => {
            *exit = *e;
            (Next::Finish(Ok(())), Vec::new())
        },
        Reply::Response(GuestResponse::Error { error }) => (
            Next::Finish(Err(BackendError::Other(error.clone()))),
            Vec::new(),
        ),
        Reply::Closed => (Next::Finish(Ok(())), Vec::new()),
        _ => (Next::Read, Vec::new()),
    };
    assert forall|rest: Seq<Reply>| (seq![*reply] + rest)[0] == *reply && (seq![*reply]
        + rest).skip(1) == rest by {
        assert((seq![*reply] + rest).skip(1) =~= rest);
    }
    assert(views(Seq::<String>::empty()) =~= Seq::<Seq<char>>::empty());
    assert forall|rest: Seq<Reply>| #![auto] views(Seq::<String>::empty()) + forwarded_lines(rest)
        == forwarded_lines(rest) by {
        assert(views(Seq::<String>::empty()) + forwarded_lines(rest) =~= forwarded_lines(rest));
    }
    r
}

/// Replies that an exchange following output passes over without handing
/// anything on.
pub open spec fn ignored_by_follow(r: Reply) -> bool {
    match r {
        Reply::Response(GuestResponse::Stream { .. }) => false,
        Reply::Response(GuestResponse::Exit { .. }) => false,
        Reply::Response(GuestResponse::Error { .. }) => false,
        Reply::Closed => false,
        _ => true,
    }
}

/// Replies that end an exchange following output.
pub open spec fn ends_follow(r: Reply) -> bool {
    match r {
        Reply::Response(GuestResponse::Exit { .. }) => true,
        Reply::Response(GuestResponse::Error { .. }) => true,
        Reply::Closed => true,
        _ => false,
    }
}

/// Skipping law for followed output: a reply that is neither output nor an
/// end can stand anywhere without changing the result or the lines handed
/// on.
pub proof fn lemma_follow_skips_ignored(
    exit: i32,
    before: Seq<Reply>,
    r: Reply,
    after: Seq<Reply>,
)
    requires
        ignored_by_follow(r),
    ensures
        follow_outcome(exit, before + seq![r] + after) == follow_outcome(exit, before + after),
        forwarded_lines(before + seq![r] + after) == forwarded_lines(before + after),
    decreases before.len(),
{
    if before.len() == 0 {
        assert(before + seq![r] + after == seq![r] + after);
        assert((seq![r] + after).skip(1) =~= after);
        assert(before + after =~= after);
    } else {
        assert((before + seq![r] + after)[0] == before[0]);
        assert((before + after)[0] == before[0]);
        assert((before + seq![r] + after).skip(1) =~= before.skip(1) + seq![r] + after);
        assert((before + after).skip(1) =~= before.skip(1) + after);
        lemma_follow_skips_ignored(exit, before.skip(1), r, after);
    }
}

/// Terminal law for followed output: nothing after the end reaches the
/// result or the lines handed on.
pub proof fn lemma_follow_ignores_after_end(
    exit: i32,
    before: Seq<Reply>,
    r: Reply,
    after: Seq<Reply>,
)
    requires
        ends_follow(r),
    ensures
        follow_outcome(exit, before + seq![r] + after) == follow_outcome(exit, before + seq![r]),
        forwarded_lines(before + seq![r] + after) == forwarded_lines(before + seq![r]),
    decreases before.len(),
{
    if before.len() == 0 {
        assert(before + seq![r] + after =~= seq![r] + after);
        assert(before + seq![r] =~= seq![r]);
    } else {
        assert((before + seq![r] + after)[0] == before[0]);
        assert((before + seq![r])[0] == before[0]);
        assert((before + seq![r] + after).skip(1) =~= before.skip(1) + seq![r] + after);
        assert((before + seq![r]).skip(1) =~= before.skip(1) + seq![r]);
        lemma_follow_ignores_after_end(exit, before.skip(1), r, after);
    }
}

// ---------------------------------------------------------------------------
// Kubernetes status
// ---------------------------------------------------------------------------

/// The result of a Kubernetes status exchange: the first `KubernetesStatus`
/// answer gives it; `Exit` or end of file without one means not running;
/// `Error` gives the guest's message.
pub open spec fn status_outcome(replies: Seq<Reply>) -> Result<bool, Seq<char>>
    decreases replies.len(),
{
    if replies.len() == 0 {
        Ok(false)
    } else {
        match replies[0] {
            Reply::Response(GuestResponse::KubernetesStatus { running }) => Ok(running),
            Reply::Response(GuestResponse::Error { error }) => Err(error@),
            Reply::Response(GuestResponse::Exit { .. }) => Ok(false),
            Reply::Closed => Ok(false),
            _ => status_outcome(replies.skip(1)),
        }
    }
}

/// One step of a Kubernetes status exchange.
pub fn status_step(reply: &Reply) -> (n: Next<bool>)
    ensures
        reply matches Reply::Response(GuestResponse::KubernetesStatus { running }) ==> (n matches Next::Finish(
            Ok(b),
        ) && b == running),
        match n {
            Next::Read => forall|rest: Seq<Reply>|
                #[trigger] status_outcome(seq![*reply] + rest) == status_outcome(rest),
            Next::Finish(Ok(b)) => forall|rest: Seq<Reply>|
                #[trigger] status_outcome(seq![*reply] + rest) == Ok::<bool, Seq<char>>(b),
            Next::Finish(Err(BackendError::Other(m))) => forall|rest: Seq<Reply>|
                #[trigger] status_outcome(seq![*reply] + rest) == Err::<bool, Seq<char>>(m@),
            Next::Finish(Err(_)) => false,
        },
{
    let n = match reply {
        Reply::Response(GuestResponse::KubernetesStatus { running }) => Next::Finish(Ok(*running)),
        Reply::Response(GuestResponse::Error { error }) => Next::Finish(
            Err(BackendError::Other(error.clone())),
        ),
        Reply::Response(GuestResponse::Exit { .. }) => Next::Finish(Ok(false)),
        Reply::Closed => Next::Finish(Ok(false)),
        _ => Next::Read,
    };
    assert forall|rest: Seq<Reply>| (seq![*reply] + rest)[0] == *reply && (seq![*reply]
        + rest).skip(1) == rest by {
        assert((seq![*reply] + rest).skip(1) =~= rest);
    }
    n
}

/// Status law: a status exchange reports what the guest answered.  Once
/// the replies passed over are read, a `KubernetesStatus` answer ends the
/// exchange with its `running` field, whatever follows.
pub proof fn lemma_status_reports_answer(skipped: Seq<Reply>, running: bool, rest: Seq<Reply>)
    requires
        forall|i: int| 0 <= i < skipped.len() ==> #[trigger] ignored_by_status(skipped[i]),
    ensures
        status_outcome(
            skipped + seq![Reply::Response(GuestResponse::KubernetesStatus { running })] + rest,
        ) == Ok::<bool, Seq<char>>(running),
    decreases skipped.len(),
{
    let answer = Reply::Response(GuestResponse::KubernetesStatus { running });
    let all = skipped + seq![answer] + rest;
    if skipped.len() == 0 {
        assert(all =~= seq![answer] + rest);
        assert(all[0] == answer);
    } else {
        assert(ignored_by_status(skipped[0]));
        assert(all[0] == skipped[0]);
        assert(all.skip(1) =~= skipped.skip(1) + seq![answer] + rest);
        assert forall|i: int| 0 <= i < skipped.skip(1).len() implies #[trigger] ignored_by_status(
            skipped.skip(1)[i],
        ) by {
            assert(ignored_by_status(skipped[i + 1]));
        }
        lemma_status_reports_answer(skipped.skip(1), running, rest);
    }
}

/// Replies that a status exchange passes over.
pub open spec fn ignored_by_status(r: Reply) -> bool {
    match r {
        Reply::Response(GuestResponse::KubernetesStatus { .. }) => false,
        Reply::Response(GuestResponse::Exit { .. }) => false,
        Reply::Response(GuestResponse::Error { .. }) => false,
        Reply::Closed => false,
        _ => true,
    }
}

/// Skipping law for the status exchange: a reply it passes over can stand
/// anywhere without changing the result.
pub proof fn lemma_status_skips_ignored(before: Seq<Reply>, r: Reply, after: Seq<Reply>)
    requires
        ignored_by_status(r),
    ensures
        status_outcome(before + seq![r] + after) == status_outcome(before + after),
    decreases before.len(),
{
    if before.len() == 0 {
        assert(before + seq![r] + after == seq![r] + after);
        assert((seq![r] + after).skip(1) =~= after);
        assert(before + after =~= after);
    } else {
        assert((before + seq![r] + after)[0] == before[0]);
        assert((before + after)[0] == before[0]);
        assert((before + seq![r] + after).skip(1) =~= before.skip(1) + seq![r] + after);
        assert((before + after).skip(1) =~= before.skip(1) + after);
        lemma_status_skips_ignored(before.skip(1), r, after);
    }
}

// ---------------------------------------------------------------------------
// Results of collected output
// ---------------------------------------------------------------------------

/// A listing whose collected output is blank means the VM is not ready yet;
/// otherwise the output is handed on for parsing.
pub fn require_output(stdout: String) -> (r: Result<String, BackendError>)
    ensures
        is_blank(stdout@) ==> (r matches Err(BackendError::Other(m)) && m@ == "VM not ready"@),
        !is_blank(stdout@) ==> (r matches Ok(s) && s@ == stdout@),
{
    if blank(stdout.as_str()) {
        Err(BackendError::Other(owned("VM not ready")))
    } else {
        Ok(stdout)
    }
}

/// The error for a failed connection to the daemon socket: a timeout, a
/// missing socket (the VM is stopped), or another I/O failure with its
/// message.
pub fn connect_failure(timed_out: bool, not_found: bool, detail: String) -> (e: BackendError)
    ensures
        timed_out ==> (e matches BackendError::Other(m) && m@ == "vsock connect timed out"@),
        !timed_out && not_found ==> (e matches BackendError::Other(m) && m@ == "VM stopped"@),
        !timed_out && !not_found ==> (e matches BackendError::Io(m) && m@ == detail@),
{
    if timed_out {
        BackendError::Other(owned("vsock connect timed out"))
    } else if not_found {
        BackendError::Other(owned("VM stopped"))
    } else {
        BackendError::Io(detail)
    }
}

// ---------------------------------------------------------------------------
// Port forwards
// ---------------------------------------------------------------------------

/// A `HOST:CONTAINER` port-forward spec as `(host_port, container_port)`.
pub open spec fn port_spec_of(spec: Seq<char>) -> Option<(u16, u16)> {
    match split_once(spec, ':') {
        Some((h, c)) => match (parse_u16(h), parse_u16(c)) {
            (Some(hp), Some(cp)) => Some((hp, cp)),
            _ => None,
        },
        None => None,
    }
}

/// Parse a `HOST:CONTAINER` port-forward spec into `(host_port, container_port)`.
/// Returns `None` if the spec is not in the expected format.
pub fn parse_port_spec(spec: &str) -> (r: Option<(u16, u16)>)
    ensures
        r == port_spec_of(spec@),
{
    match split_once_at(spec, ':') {
        Some((h, c)) => {
            let hp = parse_u16_of(h.as_str());
            let cp = parse_u16_of(c.as_str());
            match (hp, cp) {
                (Some(a), Some(b)) => Some((a, b)),
                _ => None,
            }
        },
        None => None,
    }
}

/// The port forwards to register for a run: each well-formed spec, in order;
/// malformed specs are passed over.
pub open spec fn port_forwards_of(ports: Seq<Seq<char>>) -> Seq<(u16, u16)>
    decreases ports.len(),
{
    if ports.len() == 0 {
        Seq::empty()
    } else {
        port_forwards_of(ports.drop_last()) + match port_spec_of(ports.last()) {
            Some(p) => seq![p],
            None => Seq::empty(),
        }
    }
}

/// The port forwards to register with the daemon before a run.
pub fn port_forwards(ports: &Vec<String>) -> (r: Vec<(u16, u16)>)
    ensures
        r@ == port_forwards_of(views(ports@)),
{
    let mut r: Vec<(u16, u16)> = Vec::new();
    let mut i: usize = 0;
    while i < ports.len()
        invariant
            0 <= i <= ports.len(),
            r@ == port_forwards_of(views(ports@).take(i as int)),
        decreases ports.len() - i,
    {
        assert(views(ports@).take(i + 1).drop_last() == views(ports@).take(i as int));
        if let Some(p) = parse_port_spec(ports[i].as_str()) {
            r.push(p);
        } else {
            assert(r@ + Seq::<(u16, u16)>::empty() == r@);
        }
        i = i + 1;
    }
    assert(views(ports@).take(ports.len() as int) == views(ports@));
    r
}

/// The one-line message that registers a port forward with the daemon:
/// `{"RegisterPort":{"host_port":H,"container_port":C}}` and a newline.
pub open spec fn register_port_text(host_port: u16, container_port: u16) -> Seq<char> {
    "{\"RegisterPort\":{\"host_port\":"@ + decimal(host_port as nat) + ",\"container_port\":"@
        + decimal(container_port as nat) + "}}\n"@
}

/// The message that registers a port forward with the daemon.
pub fn register_port_message(host_port: u16, container_port: u16) -> (s: String)
    ensures
        s@ == register_port_text(host_port, container_port),
{
    let mut s = owned("{\"RegisterPort\":{\"host_port\":");
    push_decimal(&mut s, host_port as u64);
    push_str(&mut s, ",\"container_port\":");
    push_decimal(&mut s, container_port as u64);
    push_str(&mut s, "}}\n");
    s
}


// ---------------------------------------------------------------------------
// Commands the backend sends
// ---------------------------------------------------------------------------

/// The listing command: all containers, as JSON (the UI always asks for JSON).
pub fn list_containers_command() -> (c: GuestCommand)
    ensures
        c matches GuestCommand::Ps { all: true, json: true },
{
    GuestCommand::Ps { all: true, json: true }
}

/// The image listing command, as JSON.
pub fn list_images_command() -> (c: GuestCommand)
    ensures
        c matches GuestCommand::ImageLs { json: true },
{
    GuestCommand::ImageLs { json: true }
}

/// The command that starts a container: no extra environment, the given
/// mounts, the ports published, and the `pasta` network exactly when there
/// are ports to publish.
pub fn run_command(
    image: &str,
    name: Option<&str>,
    args: Vec<String>,
    detach: bool,
    ports: Vec<String>,
    mounts: Vec<GuestMount>,
) -> (c: GuestCommand)
    ensures
        c matches GuestCommand::Run {
            image: i,
            args: a,
            env: e,
            mounts: m,
            publish: p,
            network: net,
            name: n,
            detach: d,
        } && i@ == image@ && a == args && e@ == Map::<String, String>::empty() && m == mounts && p
            == ports && d == detach && (n is Some <==> name is Some) && (n matches Some(x) ==> x@
            == name->0@) && (net is None <==> ports@.len() == 0) && (net matches Some(x) ==> x@
            == "pasta"@),
{
    let network = if ports.len() == 0 {
        None
    } else {
        Some(owned("pasta"))
    };
    let n = match name {
        Some(x) => Some(owned(x)),
        None => None,
    };
    GuestCommand::Run {
        image: owned(image),
        args,
        env: HashMap::new(),
        mounts,
        publish: ports,
        network,
        name: n,
        detach,
    }
}

// ---------------------------------------------------------------------------
// The daemon socket
// ---------------------------------------------------------------------------

/// Where the pelagos-mac daemon socket lies below the home directory.
pub open spec fn socket_suffix() -> Seq<char> {
    ".local/share/pelagos/vm.sock"@
}

/// The daemon socket path for a home directory (`/tmp` when there is none).
pub open spec fn socket_path_of(home: Option<Seq<char>>) -> Seq<char> {
    path_join(
        match home {
            Some(h) => h,
            None => "/tmp"@,
        },
        socket_suffix(),
    )
}

/// The daemon socket path for a home directory (`/tmp` when there is none).
pub fn socket_path_for(home: Option<String>) -> (p: String)
    ensures
        p@ == socket_path_of(text_option(home)),
{
    match home {
        Some(h) => join_path(h.as_str(), ".local/share/pelagos/vm.sock"),
        None => join_path("/tmp", ".local/share/pelagos/vm.sock"),
    }
}

/// The default daemon socket, `~/.local/share/pelagos/vm.sock`.  The home
/// directory comes from the environment; whatever it is, the path ends with
/// `.local/share/pelagos/vm.sock`.
pub fn default_socket_path() -> (p: String)
    ensures
        exists|home: Option<Seq<char>>| p@ == #[trigger] socket_path_of(home),
        has_suffix(p@, socket_suffix()),
{
    let home = home_dir();
    let ghost looked_up = text_option(home);
    let ghost h = match &home {
        Some(h) => h@,
        None => "/tmp"@,
    };
    let p = socket_path_for(home);
    proof {
        reveal_strlit(".local/share/pelagos/vm.sock");
        lemma_join_has_suffix(h, socket_suffix());
    }
    assert(p@ == socket_path_of(looked_up));
    p
}

/// The vsock backend: where the daemon socket is.
#[derive(Debug, Clone)]
pub struct VsockBackend {
    pub socket_path: String,
}

impl VsockBackend {
    pub fn new(socket_path: &str) -> (b: Self)
        ensures
            b.socket_path@ == socket_path@,
    {
        VsockBackend { socket_path: owned(socket_path) }
    }

    /// The backend for the default socket path.
    pub fn with_default_path() -> (b: Self)
        ensures
            exists|home: Option<Seq<char>>| b.socket_path@ == #[trigger] socket_path_of(home),
            has_suffix(b.socket_path@, socket_suffix()),
    {
        VsockBackend { socket_path: default_socket_path() }
    }
}

/// The backend the macOS application runs with.
pub fn make_backend() -> (b: VsockBackend)
    ensures
        exists|home: Option<Seq<char>>| b.socket_path@ == #[trigger] socket_path_of(home),
        has_suffix(b.socket_path@, socket_suffix()),
{
    VsockBackend::with_default_path()
}

} // verus!
