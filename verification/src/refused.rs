//! What a refusal is: a command that is answered so has changed nothing.

use crate::api::{ConnId, Nanos, SysSnapshot};
use crate::proto::{CommandView, JobId, ResponseView};
use crate::rules::{count_jobs, JobSel, Model, Out};
use vstd::prelude::*;

verus! {

/// Whether `out` goes on with replies that hand out jobs, and nothing else.
spec fn hands_out(before: Out, out: Out) -> bool {
    &&& before.len() <= out.len()
    &&& forall|i: int| before.len() <= i < out.len() ==> (#[trigger] out[i]).1 is Reserved
}

/// Handing out jobs sends no other replies.
proof fn lemma_dispatch(m: Model, now: Nanos, before: Out, out: Out)
    requires
        hands_out(before, out),
    ensures
        hands_out(before, m.dispatch(now, out).1),
    decreases count_jobs(m.jobs, JobSel::Ready),
{
    match m.next_awaited() {
        None => {},
        Some(id) => {
            let n = m.handing_over(id, now);
            let c = m.next_waiter(m.jobs[id].tube);
            let o = out.push((c, ResponseView::Reserved { id, body: m.jobs[id].body }));
            assert(hands_out(before, o));
            if count_jobs(n.jobs, JobSel::Ready) < count_jobs(m.jobs, JobSel::Ready) {
                lemma_dispatch(n, now, before, o);
            }
        },
    }
}

/// Whether the last reply is a refusal.
pub open spec fn refuses(before: Out, out: Out) -> bool {
    out.len() > before.len() && (out.last().1 is NotFound || out.last().1 is NotIgnored)
}

/// Whether a step whose last reply is a refusal changes nothing but the count of
/// commands, and sends nothing else.
pub open spec fn harmless(m: Model, r: (Model, Out), out: Out) -> bool {
    refuses(out, r.1) ==> r.0 == (Model { ops: r.0.ops, ..m }) && r.1.drop_last() == out
}

/// A reply is added, and nothing else changes.
proof fn lemma_added(m: Model, n: Model, out: Out, p: (ConnId, ResponseView))
    requires
        n == (Model { ops: n.ops, ..m }),
    ensures
        harmless(m, (n, out.push(p)), out),
{
    assert(out.push(p).drop_last() =~= out);
}

/// A reserve is never answered by a refusal.
proof fn lemma_reserve(m: Model, now: Nanos, c: ConnId, timeout: Option<u32>, out: Out)
    ensures
        harmless(m, m.cmd_reserve(now, c, timeout, out), out),
{
    assert forall|x: Model| hands_out(out, #[trigger] x.process_queue(now, out).1) by {
        lemma_dispatch(x.unpaused(now), now, out, out);
    }
}

/// use, watch and ignore
proof fn lemma_tubes(m: Model, c: ConnId, name: Seq<u8>, out: Out)
    ensures
        harmless(m, m.cmd_use(c, name, out), out),
        harmless(m, m.cmd_watch(c, name, out), out),
        harmless(m, m.cmd_ignore(c, name, out), out),
{
    let n = m.cmd_ignore(c, name, out).0;
    lemma_added(m, Model { ops: n.ops, ..m }, out, (c, ResponseView::NotIgnored));
}

/// reserve-job and delete
proof fn lemma_taken(m: Model, now: Nanos, c: ConnId, id: JobId, out: Out)
    ensures
        harmless(m, m.cmd_reserve_job(now, c, id, out), out),
        harmless(m, m.cmd_delete(c, id, out), out),
{
    lemma_added(m, m, out, (c, ResponseView::NotFound));
    let n = m.cmd_delete(c, id, out).0;
    lemma_added(m, Model { ops: n.ops, ..m }, out, (c, ResponseView::NotFound));
}

/// release
proof fn lemma_released(
    m: Model,
    now: Nanos,
    c: ConnId,
    id: JobId,
    pri: u32,
    delay: u32,
    out: Out,
)
    ensures
        harmless(m, m.cmd_release(now, c, id, pri, delay, out), out),
{
    let n = m.cmd_release(now, c, id, pri, delay, out).0;
    lemma_added(m, Model { ops: n.ops, ..m }, out, (c, ResponseView::NotFound));
}

/// bury and touch
proof fn lemma_held(m: Model, now: Nanos, c: ConnId, id: JobId, pri: u32, out: Out)
    ensures
        harmless(m, m.cmd_bury(c, id, pri, out), out),
        harmless(m, m.cmd_touch(now, c, id, out), out),
{
    let n = m.cmd_bury(c, id, pri, out).0;
    lemma_added(m, Model { ops: n.ops, ..m }, out, (c, ResponseView::NotFound));
    let n = m.cmd_touch(now, c, id, out).0;
    lemma_added(m, Model { ops: n.ops, ..m }, out, (c, ResponseView::NotFound));
}

/// kick and kick-job
proof fn lemma_kicked(m: Model, now: Nanos, c: ConnId, n: u32, id: JobId, out: Out)
    ensures
        harmless(m, m.cmd_kick(now, c, n, out), out),
        harmless(m, m.cmd_kick_job(now, c, id, out), out),
{
    lemma_added(m, m, out, (c, ResponseView::NotFound));
}

/// The peeks
proof fn lemma_peeked(m: Model, c: ConnId, id: JobId, out: Out)
    ensures
        harmless(m, m.cmd_peek(c, id, out), out),
        harmless(m, m.cmd_peek_ready(c, out), out),
        harmless(m, m.cmd_peek_delayed(c, out), out),
        harmless(m, m.cmd_peek_buried(c, out), out),
{
    let r = m.cmd_peek(c, id, out);
    lemma_added(m, r.0, out, r.1.last());
    let r = m.cmd_peek_ready(c, out);
    lemma_added(m, r.0, out, r.1.last());
    let r = m.cmd_peek_delayed(c, out);
    lemma_added(m, r.0, out, r.1.last());
    let r = m.cmd_peek_buried(c, out);
    lemma_added(m, r.0, out, r.1.last());
}

/// stats-job and stats-tube
proof fn lemma_reported(m: Model, now: Nanos, c: ConnId, id: JobId, name: Seq<u8>, out: Out)
    ensures
        harmless(m, m.cmd_stats_job(now, c, id, out), out),
        harmless(m, m.cmd_stats_tube(now, c, name, out), out),
{
    let r = m.cmd_stats_job(now, c, id, out);
    lemma_added(m, r.0, out, r.1.last());
    let r = m.cmd_stats_tube(now, c, name, out);
    lemma_added(m, r.0, out, r.1.last());
}

/// pause-tube
proof fn lemma_paused(m: Model, now: Nanos, c: ConnId, name: Seq<u8>, delay: u32, out: Out)
    ensures
        harmless(m, m.cmd_pause_tube(now, c, name, delay, out), out),
{
    let n = m.cmd_pause_tube(now, c, name, delay, out).0;
    lemma_added(m, Model { ops: n.ops, ..m }, out, (c, ResponseView::NotFound));
}

/// put
proof fn lemma_put(
    m: Model,
    now: Nanos,
    c: ConnId,
    pri: u32,
    delay: u32,
    ttr: u32,
    body: Seq<u8>,
    out: Out,
)
    ensures
        harmless(m, m.cmd_put(now, c, pri, delay, ttr, body, out), out),
{
}

/// A command that is answered `NOT_FOUND` or `NOT_IGNORED` changes nothing but
/// the count of commands, and that is the only reply.
pub proof fn refusal_changes_nothing(
    m: Model,
    now: Nanos,
    c: ConnId,
    cmd: CommandView,
    sys: SysSnapshot,
    out: Out,
)
    ensures
        harmless(m, m.handle(now, c, cmd, sys, out), out),
{
    match cmd {
        CommandView::Put { pri, delay, ttr, body } => lemma_put(
            m,
            now,
            c,
            pri,
            delay,
            ttr,
            body,
            out,
        ),
        CommandView::Use(name) => lemma_tubes(m, c, name, out),
        CommandView::Watch(name) => lemma_tubes(m, c, name, out),
        CommandView::Ignore(name) => lemma_tubes(m, c, name, out),
        CommandView::Reserve => lemma_reserve(m, now, c, None, out),
        CommandView::ReserveWithTimeout(s) => lemma_reserve(m, now, c, Some(s), out),
        CommandView::ReserveJob(id) => lemma_taken(m, now, c, id, out),
        CommandView::Delete(id) => lemma_taken(m, now, c, id, out),
        CommandView::Release { id, pri, delay } => lemma_released(m, now, c, id, pri, delay, out),
        CommandView::Bury { id, pri } => lemma_held(m, now, c, id, pri, out),
        CommandView::Touch(id) => lemma_held(m, now, c, id, 0, out),
        CommandView::Kick(n) => lemma_kicked(m, now, c, n, 0, out),
        CommandView::KickJob(id) => lemma_kicked(m, now, c, 0, id, out),
        CommandView::Peek(id) => lemma_peeked(m, c, id, out),
        CommandView::PeekReady => lemma_peeked(m, c, 0, out),
        CommandView::PeekDelayed => lemma_peeked(m, c, 0, out),
        CommandView::PeekBuried => lemma_peeked(m, c, 0, out),
        CommandView::StatsJob(id) => lemma_reported(m, now, c, id, Seq::empty(), out),
        CommandView::StatsTube(name) => lemma_reported(m, now, c, 0, name, out),
        CommandView::PauseTube { tube, delay } => lemma_paused(m, now, c, tube, delay, out),
        _ => {},
    }
}

/// A put while the server drains makes no job.
pub proof fn draining_takes_no_jobs(
    m: Model,
    now: Nanos,
    c: ConnId,
    pri: u32,
    delay: u32,
    ttr: u32,
    body: Seq<u8>,
    out: Out,
)
    requires
        m.draining,
    ensures
        m.cmd_put(now, c, pri, delay, ttr, body, out).0.jobs == m.jobs,
        m.cmd_put(now, c, pri, delay, ttr, body, out).1 == out.push((c, ResponseView::Draining)),
{
}

} // verus!
