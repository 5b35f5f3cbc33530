//! Who is sent what: a command is answered once, and whoever waited and waits no
//! longer has been handed a job.

use crate::api::{ConnId, Nanos, SysSnapshot};
use crate::proto::{CommandView, JobId, ResponseView};
use crate::resting::waits;
use crate::rules::{Model, Out};
use vstd::prelude::*;

verus! {

/// How many of the replies go to connection `c`.
pub open spec fn replies_to(out: Out, c: ConnId) -> nat
    decreases out.len(),
{
    if out.len() == 0 {
        0
    } else if out.last().0 == c {
        replies_to(out.drop_last(), c) + 1
    } else {
        replies_to(out.drop_last(), c)
    }
}

/// Whether connection `c` waits in `a` and no longer in `b`.
pub open spec fn served(a: Model, b: Model, c: ConnId) -> bool {
    waits(a, c) && !waits(b, c)
}

/// Whether the same connections wait in `a` and in `b`.
pub open spec fn same_waits(a: Model, b: Model) -> bool {
    forall|c: ConnId| #[trigger] waits(b, c) == waits(a, c)
}

/// Whether from `a` to `b` jobs were handed out and nothing else was sent: each
/// connection that waits no longer was handed one, and nobody began to wait.
pub open spec fn handed(a: Model, before: Out, b: Model, out: Out) -> bool {
    &&& before.is_prefix_of(out)
    &&& forall|i: int| before.len() <= i < out.len() ==> (#[trigger] out[i]).1 is Reserved
    &&& forall|c: ConnId| #[trigger]
        replies_to(out, c) == replies_to(before, c) + (if served(a, b, c) {
            1int
        } else {
            0
        })
    &&& forall|c: ConnId| #[trigger] waits(b, c) ==> waits(a, c)
}

/// Whether a command of connection `c` was answered as it should be. Connection
/// `c` gets one reply, unless the command calls for none (`silent`) or has made
/// the connection wait, which not every command can (`may_wait`); every other
/// reply hands a job to a connection that waited and waits no longer, one to
/// each.
pub open spec fn answered(
    a: Model,
    c: ConnId,
    silent: bool,
    may_wait: bool,
    before: Out,
    b: Model,
    out: Out,
) -> bool {
    &&& before.is_prefix_of(out)
    &&& forall|i: int|
        before.len() <= i < out.len() && (#[trigger] out[i]).0 != c ==> out[i].1 is Reserved
            && served(a, b, out[i].0)
    &&& forall|d: ConnId|
        d != c ==> #[trigger] replies_to(out, d) == replies_to(before, d) + (if served(a, b, d) {
            1int
        } else {
            0
        })
    &&& replies_to(out, c) == replies_to(before, c) + (if silent || (!waits(a, c) && waits(b, c)) {
        0int
    } else {
        1
    }) + (if served(a, b, c) {
        1int
    } else {
        0
    })
    &&& forall|d: ConnId| #[trigger] waits(b, d) ==> waits(a, d) || (d == c && may_wait)
}

/// Where nothing is sent, nothing was handed out.
pub proof fn lemma_none_handed(a: Model, b: Model, out: Out)
    requires
        same_waits(a, b),
    ensures
        handed(a, out, b, out),
{
    assert forall|c: ConnId| !served(a, b, c) by {
        assert(waits(b, c) == waits(a, c));
    }
}

/// Handing out jobs and handing out more.
pub proof fn lemma_handed_on(a: Model, o1: Out, b: Model, o2: Out, c: Model, o3: Out)
    requires
        handed(a, o1, b, o2),
        handed(b, o2, c, o3),
    ensures
        handed(a, o1, c, o3),
{
    assert forall|i: int| o1.len() <= i < o3.len() implies (#[trigger] o3[i]).1 is Reserved by {
        if i < o2.len() {
            assert(o3[i] == o2[i]);
        }
    }
    assert forall|d: ConnId| #[trigger]
        replies_to(o3, d) == replies_to(o1, d) + (if served(a, c, d) {
            1int
        } else {
            0
        }) by {
        assert(replies_to(o2, d) == replies_to(o1, d) + (if served(a, b, d) {
            1int
        } else {
            0
        }));
        assert(waits(c, d) ==> waits(b, d));
        assert(waits(b, d) ==> waits(a, d));
    }
    assert(o1.is_prefix_of(o3)) by {
        assert(o3.take(o1.len() as int) =~= o2.take(o1.len() as int));
    }
}

/// Steps that leave those that wait as they are, before and after.
pub proof fn lemma_handed_amid(a: Model, b: Model, c: Model, d: Model, before: Out, out: Out)
    requires
        same_waits(a, b),
        handed(b, before, c, out),
        same_waits(c, d),
    ensures
        handed(a, before, d, out),
{
    lemma_none_handed(a, b, before);
    lemma_none_handed(c, d, out);
    lemma_handed_on(a, before, b, before, c, out);
    lemma_handed_on(a, before, c, out, d, out);
}

/// Handing one job over.
pub proof fn lemma_one_handed(
    m: Model,
    id: JobId,
    now: Nanos,
    before: Out,
    p: (ConnId, ResponseView),
)
    requires
        m.awaited(id),
        waits(m, m.next_waiter(m.jobs[id].tube)),
        p.0 == m.next_waiter(m.jobs[id].tube),
        p.1 is Reserved,
    ensures
        handed(m, before, m.handing_over(id, now), before.push(p)),
{
    let n = m.handing_over(id, now);
    let c = p.0;
    let out = before.push(p);
    assert(out.drop_last() =~= before);
    assert forall|d: ConnId| #[trigger] waits(n, d) == (waits(m, d) && d != c) by {}
    assert forall|d: ConnId| #[trigger]
        replies_to(out, d) == replies_to(before, d) + (if served(m, n, d) {
            1int
        } else {
            0
        }) by {
        assert(waits(n, d) == (waits(m, d) && d != c));
    }
    assert(out.take(before.len() as int) =~= before);
}

/// A reply after jobs were handed out.
pub proof fn lemma_answered(
    a: Model,
    b: Model,
    c: ConnId,
    before: Out,
    mid: Out,
    r: ResponseView,
)
    requires
        handed(a, before, b, mid),
    ensures
        answered(a, c, false, false, before, b, mid.push((c, r))),
{
    let out = mid.push((c, r));
    assert(out.drop_last() =~= mid);
    assert(waits(b, c) ==> waits(a, c));
    assert(replies_to(mid, c) == replies_to(before, c) + (if served(a, b, c) {
        1int
    } else {
        0
    }));
    assert(before.is_prefix_of(out)) by {
        assert(out.take(before.len() as int) =~= mid.take(before.len() as int));
    }
    assert forall|i: int|
        before.len() <= i < out.len() && (#[trigger] out[i]).0 != c implies out[i].1 is Reserved
        && served(a, b, out[i].0) by {
        assert(out[i] == mid[i]);
        lemma_counted(before, mid, i);
        assert(replies_to(mid, mid[i].0) > replies_to(before, mid[i].0));
    }
    assert forall|d: ConnId| d != c implies #[trigger] replies_to(out, d) == replies_to(before, d)
        + (if served(a, b, d) {
        1int
    } else {
        0
    }) by {
        assert(replies_to(mid, d) == replies_to(before, d) + (if served(a, b, d) {
            1int
        } else {
            0
        }));
    }
}

/// A later reply to a connection is one more than it had.
proof fn lemma_counted(before: Out, out: Out, i: int)
    requires
        before.is_prefix_of(out),
        before.len() <= i < out.len(),
    ensures
        replies_to(out, out[i].0) > replies_to(before, out[i].0),
    decreases out.len(),
{
    let rest = out.drop_last();
    let c = out[i].0;
    assert(before.is_prefix_of(rest)) by {
        assert(rest.take(before.len() as int) =~= out.take(before.len() as int));
    }
    if i == out.len() - 1 {
        lemma_more(before, rest, c);
    } else {
        assert(rest[i] == out[i]);
        lemma_counted(before, rest, i);
    }
}

/// Replies are only added.
proof fn lemma_more(before: Out, out: Out, c: ConnId)
    requires
        before.is_prefix_of(out),
    ensures
        replies_to(out, c) >= replies_to(before, c),
    decreases out.len(),
{
    if out.len() > before.len() {
        let rest = out.drop_last();
        assert(before.is_prefix_of(rest)) by {
            assert(rest.take(before.len() as int) =~= out.take(before.len() as int));
        }
        lemma_more(before, rest, c);
    } else {
        assert(out =~= before);
    }
}

/// A reserve that has handed out jobs, to its own connection perhaps.
pub proof fn lemma_reserved(a: Model, w: Model, b: Model, c: ConnId, before: Out, out: Out)
    requires
        !waits(a, c),
        waits(w, c),
        forall|d: ConnId| d != c ==> #[trigger] waits(w, d) == waits(a, d),
        handed(w, before, b, out),
    ensures
        answered(a, c, false, true, before, b, out),
{
    assert forall|d: ConnId| d != c implies #[trigger] replies_to(out, d) == replies_to(before, d)
        + (if served(a, b, d) {
        1int
    } else {
        0
    }) by {
        assert(waits(w, d) == waits(a, d));
        assert(replies_to(out, d) == replies_to(before, d) + (if served(w, b, d) {
            1int
        } else {
            0
        }));
    }
    assert(replies_to(out, c) == replies_to(before, c) + (if served(w, b, c) {
        1int
    } else {
        0
    }));
    assert forall|i: int|
        before.len() <= i < out.len() && (#[trigger] out[i]).0 != c implies out[i].1 is Reserved
        && served(a, b, out[i].0) by {
        lemma_counted(before, out, i);
        assert(replies_to(out, out[i].0) > replies_to(before, out[i].0));
        assert(served(a, b, out[i].0));
    }
    assert forall|d: ConnId| #[trigger] waits(b, d) implies waits(a, d) || d == c by {
        assert(waits(w, d));
    }
}

/// A reserve whose wait is over at once.
pub proof fn lemma_not_reserved(
    a: Model,
    w: Model,
    n: Model,
    b: Model,
    c: ConnId,
    before: Out,
    mid: Out,
    r: ResponseView,
)
    requires
        !waits(a, c),
        waits(w, c),
        forall|d: ConnId| d != c ==> #[trigger] waits(w, d) == waits(a, d),
        handed(w, before, n, mid),
        waits(n, c),
        !waits(b, c),
        forall|d: ConnId| d != c ==> #[trigger] waits(b, d) == waits(n, d),
    ensures
        answered(a, c, false, true, before, b, mid.push((c, r))),
{
    let out = mid.push((c, r));
    assert(out.drop_last() =~= mid);
    lemma_reserved(a, w, n, c, before, mid);
    assert(before.is_prefix_of(out)) by {
        assert(out.take(before.len() as int) =~= mid.take(before.len() as int));
    }
    assert forall|i: int|
        before.len() <= i < out.len() && (#[trigger] out[i]).0 != c implies out[i].1 is Reserved
        && served(a, b, out[i].0) by {
        assert(out[i] == mid[i]);
        assert(served(a, n, mid[i].0));
        assert(waits(b, mid[i].0) == waits(n, mid[i].0));
    }
    assert forall|d: ConnId| d != c implies #[trigger] replies_to(out, d) == replies_to(before, d)
        + (if served(a, b, d) {
        1int
    } else {
        0
    }) by {
        assert(waits(b, d) == waits(n, d));
        assert(replies_to(mid, d) == replies_to(before, d) + (if served(a, n, d) {
            1int
        } else {
            0
        }));
    }
    assert forall|d: ConnId| #[trigger] waits(b, d) implies waits(a, d) || d == c by {
        if d != c {
            assert(waits(n, d));
        }
    }
}

/// A reply while nobody begins or ceases to wait.
pub proof fn lemma_just_answered(a: Model, b: Model, c: ConnId, before: Out, r: ResponseView)
    requires
        same_waits(a, b),
    ensures
        answered(a, c, false, false, before, b, before.push((c, r))),
{
    lemma_none_handed(a, b, before);
    lemma_answered(a, b, c, before, before, r);
}

/// No reply, with everything as it was.
pub proof fn lemma_silent(m: Model, c: ConnId, out: Out)
    ensures
        answered(m, c, true, false, out, m, out),
{
}

/// Steps before a command's own that leave those that wait as they are.
pub proof fn lemma_answered_since(
    a: Model,
    b: Model,
    n: Model,
    c: ConnId,
    may_wait: bool,
    before: Out,
    out: Out,
)
    requires
        same_waits(a, b),
        answered(b, c, false, may_wait, before, n, out),
    ensures
        answered(a, c, false, may_wait, before, n, out),
{
    assert(waits(b, c) == waits(a, c));
    assert forall|d: ConnId| served(a, n, d) == #[trigger] served(b, n, d) by {
        assert(waits(b, d) == waits(a, d));
    }
    assert forall|d: ConnId| d != c implies #[trigger] replies_to(out, d) == replies_to(before, d)
        + (if served(a, n, d) {
        1int
    } else {
        0
    }) by {
        assert(served(a, n, d) == served(b, n, d));
    }
    assert forall|i: int|
        before.len() <= i < out.len() && (#[trigger] out[i]).0 != c implies out[i].1 is Reserved
        && served(a, n, out[i].0) by {
        assert(served(b, n, out[i].0));
    }
    assert forall|d: ConnId| #[trigger] waits(n, d) implies waits(a, d) || (d == c
        && may_wait) by {
        assert(waits(b, d) == waits(a, d));
    }
    assert(served(a, n, c) == served(b, n, c));
}

/// Whether a command neither hands out jobs nor makes a connection wait.
pub open spec fn plain(cmd: CommandView) -> bool {
    match cmd {
        CommandView::Put { .. } => false,
        CommandView::Reserve => false,
        CommandView::ReserveWithTimeout(_) => false,
        CommandView::Release { .. } => false,
        CommandView::Kick(_) => false,
        CommandView::KickJob(_) => false,
        CommandView::Quit => false,
        _ => true,
    }
}

/// One reply, with those that wait as they were.
spec fn one_reply(m: Model, c: ConnId, r: (Model, Out), out: Out) -> bool {
    same_waits(m, r.0) && r.1.len() > 0 && r.1 == out.push((c, r.1.last().1))
}

/// use, watch and ignore
proof fn lemma_tubes(m: Model, c: ConnId, name: Seq<u8>, out: Out)
    requires
        m.conns.contains_key(c),
    ensures
        one_reply(m, c, m.cmd_use(c, name, out), out),
        one_reply(m, c, m.cmd_watch(c, name, out), out),
        one_reply(m, c, m.cmd_ignore(c, name, out), out),
{
}

/// reserve-job and delete
proof fn lemma_taken(m: Model, now: Nanos, c: ConnId, id: JobId, out: Out)
    requires
        m.conns.contains_key(c),
    ensures
        one_reply(m, c, m.cmd_reserve_job(now, c, id, out), out),
        one_reply(m, c, m.cmd_delete(c, id, out), out),
{
}

/// bury and touch
proof fn lemma_held(m: Model, now: Nanos, c: ConnId, id: JobId, pri: u32, out: Out)
    requires
        m.conns.contains_key(c),
    ensures
        one_reply(m, c, m.cmd_bury(c, id, pri, out), out),
        one_reply(m, c, m.cmd_touch(now, c, id, out), out),
{
}

/// The peeks
proof fn lemma_peeked(m: Model, c: ConnId, id: JobId, out: Out)
    ensures
        one_reply(m, c, m.cmd_peek(c, id, out), out),
        one_reply(m, c, m.cmd_peek_ready(c, out), out),
        one_reply(m, c, m.cmd_peek_delayed(c, out), out),
        one_reply(m, c, m.cmd_peek_buried(c, out), out),
{
}

/// The reports, the lists and pause-tube
proof fn lemma_reported(
    m: Model,
    now: Nanos,
    c: ConnId,
    id: JobId,
    name: Seq<u8>,
    delay: u32,
    sys: SysSnapshot,
    out: Out,
)
    ensures
        one_reply(m, c, m.cmd_stats_job(now, c, id, out), out),
        one_reply(m, c, m.cmd_stats_tube(now, c, name, out), out),
        one_reply(m, c, m.cmd_stats(now, c, sys, out), out),
        one_reply(m, c, m.cmd_list_tubes(c, out), out),
        one_reply(m, c, m.cmd_list_tube_used(c, out), out),
        one_reply(m, c, m.cmd_list_tubes_watched(c, out), out),
        one_reply(m, c, m.cmd_pause_tube(now, c, name, delay, out), out),
{
}

/// A command that neither hands out jobs nor makes a connection wait is answered
/// once, and that is the only reply.
pub proof fn lemma_plain(
    m: Model,
    now: Nanos,
    c: ConnId,
    cmd: CommandView,
    sys: SysSnapshot,
    out: Out,
)
    requires
        m.conns.contains_key(c),
        plain(cmd),
    ensures
        answered(
            m,
            c,
            false,
            false,
            out,
            m.handle(now, c, cmd, sys, out).0,
            m.handle(now, c, cmd, sys, out).1,
        ),
{
    let r = m.handle(now, c, cmd, sys, out);
    match cmd {
        CommandView::Use(name) => lemma_tubes(m, c, name, out),
        CommandView::Watch(name) => lemma_tubes(m, c, name, out),
        CommandView::Ignore(name) => lemma_tubes(m, c, name, out),
        CommandView::ReserveJob(id) => lemma_taken(m, now, c, id, out),
        CommandView::Delete(id) => lemma_taken(m, now, c, id, out),
        CommandView::Bury { id, pri } => lemma_held(m, now, c, id, pri, out),
        CommandView::Touch(id) => lemma_held(m, now, c, id, 0, out),
        CommandView::Peek(id) => lemma_peeked(m, c, id, out),
        CommandView::PeekReady => lemma_peeked(m, c, 0, out),
        CommandView::PeekDelayed => lemma_peeked(m, c, 0, out),
        CommandView::PeekBuried => lemma_peeked(m, c, 0, out),
        CommandView::StatsJob(id) => lemma_reported(m, now, c, id, Seq::empty(), 0, sys, out),
        CommandView::StatsTube(name) => lemma_reported(m, now, c, 0, name, 0, sys, out),
        CommandView::PauseTube { tube, delay } => lemma_reported(
            m,
            now,
            c,
            0,
            tube,
            delay,
            sys,
            out,
        ),
        _ => lemma_reported(m, now, c, 0, Seq::empty(), 0, sys, out),
    }
    assert(one_reply(m, c, r, out));
    lemma_just_answered(m, r.0, c, out, r.1.last().1);
}

} // verus!
