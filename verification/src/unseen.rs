//! The journal is unseen: whether one is kept changes nothing that a client can
//! tell.

use crate::api::{ConnId, EngineConfig, EngineInput, EntryView, Nanos, SysSnapshot};
use crate::journal::{
    here, lemma_beside, lemma_kicked, lemma_readied, lemma_stopped, lemma_told, told, Since,
};
use crate::model::{ConnView, JobState, JobView, TubeId, TubeView};
use crate::ms::{swap_remove, MsView};
use crate::proto::{CommandView, JobId, PutRejection, ResponseView};
use crate::rules::{
    bump, bump32, count_jobs, delayed_set, is_least, later, least, picked_jobs, reserved_set,
    JobSel, Model, OpCounts, Out,
};
use crate::settle::orderly;
use crate::stats::StatsJobView;
use vstd::prelude::*;

verus! {

/// Whether `a` and `b` are the same job, but for the file that it was logged in.
pub open spec fn same_but_file(a: JobView, b: JobView) -> bool {
    b == JobView { file: b.file, ..a }
}

/// Whether the same jobs are in both, but for the files that they were logged
/// in.
pub open spec fn jobs_alike(a: Map<JobId, JobView>, b: Map<JobId, JobView>) -> bool {
    &&& a.dom() == b.dom()
    &&& forall|id: JobId|
        #![trigger a.contains_key(id)]
        #![trigger b.contains_key(id)]
        a.contains_key(id) ==> same_but_file(a[id], b[id])
}

/// Whether `a` and `b` differ at most in whether a journal is kept, in what is
/// in it, and in the files that jobs were logged in.
pub open spec fn alike(a: Model, b: Model) -> bool {
    &&& jobs_alike(a.jobs, b.jobs)
    &&& b == Model {
        cfg: EngineConfig { journal: b.cfg.journal, ..a.cfg },
        journal: b.journal,
        jobs: b.jobs,
        ..a
    }
}

/// Whether two outcomes are alike and the replies are the same.
pub open spec fn same_outcome(a: (Model, Out), b: (Model, Out)) -> bool {
    alike(a.0, b.0) && a.1 == b.1
}

/// What is counted, and what is found by a deadline, is the same.
proof fn lemma_counts(a: Map<JobId, JobView>, b: Map<JobId, JobView>)
    requires
        jobs_alike(a, b),
    ensures
        forall|sel: JobSel| #[trigger] count_jobs(a, sel) == count_jobs(b, sel),
        forall|c: ConnId| #[trigger] reserved_set(a, c) == reserved_set(b, c),
        forall|t: TubeId| #[trigger] delayed_set(a, t) == delayed_set(b, t),
{
    assert forall|id: JobId| #[trigger] a.contains_key(id) == b.contains_key(id) by {
        assert(a.dom().contains(id) == b.dom().contains(id));
    }
    assert forall|sel: JobSel| #[trigger] count_jobs(a, sel) == count_jobs(b, sel) by {
        assert forall|id: JobId| picked_jobs(a, sel).contains(id) == picked_jobs(
            b,
            sel,
        ).contains(id) by {
            assert(a.contains_key(id) == b.contains_key(id));
        }
        assert(picked_jobs(a, sel) =~= picked_jobs(b, sel));
    }
    assert forall|c: ConnId| #[trigger] reserved_set(a, c) == reserved_set(b, c) by {
        assert forall|p: (Nanos, JobId)| reserved_set(a, c).contains(p) == reserved_set(
            b,
            c,
        ).contains(p) by {
            assert(a.contains_key(p.1) == b.contains_key(p.1));
        }
        assert(reserved_set(a, c) =~= reserved_set(b, c));
    }
    assert forall|t: TubeId| #[trigger] delayed_set(a, t) == delayed_set(b, t) by {
        assert forall|p: (Nanos, JobId)| delayed_set(a, t).contains(p) == delayed_set(
            b,
            t,
        ).contains(p) by {
            assert(a.contains_key(p.1) == b.contains_key(p.1));
        }
        assert(delayed_set(a, t) =~= delayed_set(b, t));
    }
}

/// A job leaves alike.
proof fn lemma_removed(a: Model, b: Model, id: JobId)
    requires
        alike(a, b),
        a.jobs.contains_key(id),
    ensures
        alike(a.without_job(id), b.without_job(id)),
        a.without_job(id).jobs == a.jobs.remove(id),
        b.without_job(id).jobs == b.jobs.remove(id),
{
    assert(same_but_file(a.jobs[id], b.jobs[id]));
    let x = a.jobs.remove(id);
    let y = b.jobs.remove(id);
    assert(x.dom() =~= y.dom());
    assert forall|o: JobId|
        #![trigger x.contains_key(o)]
        #![trigger y.contains_key(o)]
        x.contains_key(o) implies same_but_file(x[o], y[o]) by {
        assert(a.jobs.contains_key(o));
    }
    assert(jobs_alike(x, y));
}

/// A job joins alike.
proof fn lemma_added(a: Model, b: Model, j: JobView, k: JobView)
    requires
        alike(a, b),
        same_but_file(j, k),
    ensures
        alike(a.with_job(j), b.with_job(k)),
        a.with_job(j).jobs == a.jobs.insert(j.id, j),
        b.with_job(k).jobs == b.jobs.insert(k.id, k),
{
    let x = a.jobs.insert(j.id, j);
    let y = b.jobs.insert(k.id, k);
    assert(x.dom() =~= y.dom());
    assert forall|o: JobId|
        #![trigger x.contains_key(o)]
        #![trigger y.contains_key(o)]
        x.contains_key(o) implies same_but_file(x[o], y[o]) by {
        if o != j.id {
            assert(a.jobs.contains_key(o));
        }
    }
    assert(jobs_alike(x, y));
}

/// A job moves alike.
proof fn lemma_moved(a: Model, b: Model, id: JobId, j: JobView, k: JobView)
    requires
        alike(a, b),
        a.jobs.contains_key(id),
        same_but_file(j, k),
    ensures
        alike(a.without_job(id).with_job(j), b.without_job(id).with_job(k)),
{
    lemma_removed(a, b, id);
    lemma_added(a.without_job(id), b.without_job(id), j, k);
}

/// The job to hand out next is the same.
proof fn lemma_next_awaited(a: Model, b: Model)
    requires
        alike(a, b),
    ensures
        a.next_awaited() == b.next_awaited(),
{
    assert forall|id: JobId| #[trigger] a.awaited(id) == b.awaited(id) by {
        assert(a.jobs.contains_key(id) == b.jobs.contains_key(id)) by {
            assert(a.jobs.dom().contains(id) == b.jobs.dom().contains(id));
        }
        assert(a.live(a.jobs[id].tube) == b.live(a.jobs[id].tube));
    }
    assert forall|id: JobId| #[trigger] a.is_next_awaited(id) implies b.is_next_awaited(id) by {
        assert forall|o: JobId| #[trigger] b.awaited(o) implies b.before(id, o) by {
            assert(a.awaited(o));
            assert(a.before(id, o));
        }
    }
    assert forall|id: JobId| #[trigger] b.is_next_awaited(id) implies a.is_next_awaited(id) by {
        assert forall|o: JobId| #[trigger] a.awaited(o) implies a.before(id, o) by {
            assert(b.awaited(o));
            assert(b.before(id, o));
        }
    }
    if a.next_awaited() is Some {
        let x = a.next_awaited()->0;
        let y = b.next_awaited()->0;
        assert(a.is_next_awaited(x));
        assert(b.is_next_awaited(x));
        assert(b.is_next_awaited(y));
        assert(b.before(x, y) && b.before(y, x));
    }
}

/// Jobs are handed out alike.
proof fn lemma_dispatch(a: Model, b: Model, now: Nanos, out: Out)
    requires
        alike(a, b),
    ensures
        same_outcome(a.dispatch(now, out), b.dispatch(now, out)),
    decreases count_jobs(a.jobs, JobSel::Ready),
{
    lemma_next_awaited(a, b);
    match a.next_awaited() {
        None => {},
        Some(id) => {
            assert(a.is_next_awaited(id));
            assert(a.jobs.contains_key(id));
            assert(same_but_file(a.jobs[id], b.jobs[id]));
            let t = a.jobs[id].tube;
            let c = a.next_waiter(t);
            let o = out.push((c, ResponseView::Reserved { id, body: a.jobs[id].body }));
            let x = a.handing_over(id, now);
            let y = b.handing_over(id, now);
            let v = TubeView { waiting: a.tube(t).waiting.after_take(), ..a.tube(t) };
            let p = a.with_tube(t, v);
            let q = b.with_tube(t, v);
            lemma_stop_waiting(p, q, c);
            lemma_reserving(p.stop_waiting(c), q.stop_waiting(c), id, c, now);
            assert(alike(x, y));
            lemma_counts(a.jobs, b.jobs);
            lemma_counts(x.jobs, y.jobs);
            if count_jobs(x.jobs, JobSel::Ready) < count_jobs(a.jobs, JobSel::Ready) {
                lemma_dispatch(x, y, now, o);
            }
        },
    }
}

/// A connection stops waiting alike.
proof fn lemma_stop_waiting(a: Model, b: Model, c: ConnId)
    requires
        alike(a, b),
    ensures
        alike(a.stop_waiting(c), b.stop_waiting(c)),
{
    assert(a.stop_waiting(c).tubes =~= b.stop_waiting(c).tubes);
}

/// A job is reserved alike.
proof fn lemma_reserving(a: Model, b: Model, id: JobId, c: ConnId, now: Nanos)
    requires
        alike(a, b),
        a.jobs.contains_key(id),
    ensures
        alike(a.reserving(id, c, now), b.reserving(id, c, now)),
{
    assert(same_but_file(a.jobs[id], b.jobs[id]));
    let j = JobView {
        state: JobState::Reserved,
        reserver: Some(c),
        deadline_at: later(now, a.jobs[id].ttr),
        reserve_ct: bump32(a.jobs[id].reserve_ct),
        ..a.jobs[id]
    };
    lemma_moved(a, b, id, j, JobView { file: b.jobs[id].file, ..j });
}

/// Pauses end and jobs are handed out alike.
proof fn lemma_process(a: Model, b: Model, now: Nanos, out: Out)
    requires
        alike(a, b),
    ensures
        same_outcome(a.process_queue(now, out), b.process_queue(now, out)),
{
    assert(a.unpaused(now).tubes =~= b.unpaused(now).tubes);
    assert(alike(a.unpaused(now), b.unpaused(now)));
    lemma_dispatch(a.unpaused(now), b.unpaused(now), now, out);
}

/// The delayed job that becomes ready next is the same.
proof fn lemma_soonest_delayed(a: Model, b: Model)
    requires
        alike(a, b),
    ensures
        a.soonest_delayed() == b.soonest_delayed(),
{
    assert forall|id: JobId| #[trigger] a.is_delayed(id) == b.is_delayed(id) by {
        assert(a.jobs.dom().contains(id) == b.jobs.dom().contains(id));
        assert(a.jobs.contains_key(id) == b.jobs.contains_key(id));
    }
    assert forall|id: JobId| #[trigger] a.is_soonest_delayed(id) implies b.is_soonest_delayed(
        id,
    ) by {
        assert forall|o: JobId| #[trigger] b.is_delayed(o) implies b.sooner(id, o) by {
            assert(a.is_delayed(o));
            assert(a.sooner(id, o));
        }
    }
    assert forall|id: JobId| #[trigger] b.is_soonest_delayed(id) implies a.is_soonest_delayed(
        id,
    ) by {
        assert forall|o: JobId| #[trigger] a.is_delayed(o) implies a.sooner(id, o) by {
            assert(b.is_delayed(o));
            assert(b.sooner(id, o));
        }
    }
    if a.soonest_delayed() is Some {
        let x = a.soonest_delayed()->0;
        let y = b.soonest_delayed()->0;
        assert(a.is_soonest_delayed(x));
        assert(b.is_soonest_delayed(x));
        assert(b.is_soonest_delayed(y));
        assert(b.sooner(x, y) && b.sooner(y, x));
    }
}

/// A job becomes ready alike.
proof fn lemma_readying(a: Model, b: Model, id: JobId)
    requires
        alike(a, b),
        a.jobs.contains_key(id),
    ensures
        alike(a.readying(id), b.readying(id)),
{
    assert(same_but_file(a.jobs[id], b.jobs[id]));
    let j = JobView { state: JobState::Ready, reserver: None, ..a.jobs[id] };
    lemma_moved(a, b, id, j, JobView { file: b.jobs[id].file, ..j });
}

/// Delays pass alike.
proof fn lemma_release_due(a: Model, b: Model, now: Nanos, out: Out)
    requires
        alike(a, b),
    ensures
        same_outcome(a.release_due(now, out), b.release_due(now, out)),
    decreases count_jobs(a.jobs, JobSel::Delayed),
{
    lemma_soonest_delayed(a, b);
    match a.soonest_delayed() {
        Some(id) => {
            assert(a.is_soonest_delayed(id));
            assert(a.is_delayed(id));
            assert(a.jobs.contains_key(id));
            if a.jobs[id].deadline_at <= now {
                lemma_readying(a, b, id);
                lemma_process(a.readying(id), b.readying(id), now, out);
                let x = a.readying(id).process_queue(now, out);
                let y = b.readying(id).process_queue(now, out);
                lemma_counts(a.jobs, b.jobs);
                lemma_counts(x.0.jobs, y.0.jobs);
                if count_jobs(x.0.jobs, JobSel::Delayed) < count_jobs(a.jobs, JobSel::Delayed) {
                    lemma_release_due(x.0, y.0, now, x.1);
                }
            }
        },
        None => {},
    }
}

/// Reservations run out alike.
proof fn lemma_expire(a: Model, b: Model, c: ConnId, now: Nanos, out: Out)
    requires
        alike(a, b),
    ensures
        same_outcome(a.expire(c, now, out), b.expire(c, now, out)),
    decreases count_jobs(a.jobs, JobSel::Overdue(now)),
{
    lemma_counts(a.jobs, b.jobs);
    match a.soonest_reserved(c) {
        Some((d, id)) => {
            assert(is_least(reserved_set(a.jobs, c), (d, id)));
            assert(a.jobs.contains_key(id));
            assert(same_but_file(a.jobs[id], b.jobs[id]));
            if d < now {
                let j = JobView {
                    state: JobState::Ready,
                    reserver: None,
                    timeout_ct: bump32(a.jobs[id].timeout_ct),
                    ..a.jobs[id]
                };
                let k = JobView { file: b.jobs[id].file, ..j };
                let g = Model { timeout_ct: bump(a.timeout_ct), ..a };
                let h = Model { timeout_ct: bump(b.timeout_ct), ..b };
                lemma_moved(g, h, id, j, k);
                let p = g.without_job(id).with_job(j);
                let q = h.without_job(id).with_job(k);
                lemma_process(p, q, now, out);
                let x = p.process_queue(now, out);
                let y = q.process_queue(now, out);
                lemma_counts(x.0.jobs, y.0.jobs);
                if count_jobs(x.0.jobs, JobSel::Overdue(now)) < count_jobs(
                    a.jobs,
                    JobSel::Overdue(now),
                ) {
                    lemma_expire(x.0, y.0, c, now, x.1);
                }
            }
        },
        None => {},
    }
}

/// A connection is attended to alike.
proof fn lemma_attend(a: Model, b: Model, c: ConnId, now: Nanos, out: Out)
    requires
        alike(a, b),
    ensures
        same_outcome(a.attend(c, now, out), b.attend(c, now, out)),
{
    lemma_expire(a, b, c, now, out);
    let x = a.expire(c, now, out).0;
    let y = b.expire(c, now, out).0;
    lemma_counts(x.jobs, y.jobs);
    lemma_stop_waiting(x, y, c);
}

/// Every connection that needs it is attended to alike.
proof fn lemma_attend_all(a: Model, b: Model, done: Set<ConnId>, now: Nanos, out: Out)
    requires
        alike(a, b),
    ensures
        same_outcome(a.attend_all(done, now, out), b.attend_all(done, now, out)),
    decreases a.conns.dom().difference(done).len(),
{
    lemma_counts(a.jobs, b.jobs);
    assert forall|c: ConnId| #[trigger] a.tick_at(c) == b.tick_at(c) by {
        assert(reserved_set(a.jobs, c) == reserved_set(b.jobs, c));
    }
    assert(a.due_conns(done, now) =~= b.due_conns(done, now));
    match least(a.due_conns(done, now)) {
        None => {},
        Some(p) => {
            lemma_attend(a, b, p.1, now, out);
            let x = a.attend(p.1, now, out);
            let y = b.attend(p.1, now, out);
            if x.0.conns.dom().difference(done.insert(p.1)).len() < a.conns.dom().difference(
                done,
            ).len() {
                lemma_attend_all(x.0, y.0, done.insert(p.1), now, x.1);
            }
        },
    }
}

/// Time passes alike.
proof fn lemma_tick(a: Model, b: Model, now: Nanos, out: Out)
    requires
        alike(a, b),
    ensures
        same_outcome(a.tick(now, out), b.tick(now, out)),
{
    lemma_release_due(a, b, now, out);
    let (a1, o1) = a.release_due(now, out);
    let (b1, _) = b.release_due(now, out);
    assert(a1.pause_expired(now) == b1.pause_expired(now)) by {
        if a1.pause_expired(now) {
            let t = choose|t: TubeId| #[trigger]
                a1.live(t) && a1.tube(t).pause > 0 && a1.tube(t).unpause_at <= now;
            assert(b1.live(t));
        }
        if b1.pause_expired(now) {
            let t = choose|t: TubeId| #[trigger]
                b1.live(t) && b1.tube(t).pause > 0 && b1.tube(t).unpause_at <= now;
            assert(a1.live(t));
        }
    }
    lemma_process(a1, b1, now, o1);
    let (a2, o2) = if a1.pause_expired(now) {
        a1.process_queue(now, o1)
    } else {
        (a1, o1)
    };
    let (b2, _) = if a1.pause_expired(now) {
        b1.process_queue(now, o1)
    } else {
        (b1, o1)
    };
    lemma_attend_all(a2, b2, Set::empty(), now, o2);
}

/// A name means the same tube.
proof fn lemma_tube_named(a: Model, b: Model, name: Seq<u8>)
    requires
        alike(a, b),
        forall|t: TubeId, u: TubeId|
            #![trigger a.live(t), a.live(u)]
            a.live(t) && a.live(u) && a.tube(t).name == a.tube(u).name ==> t == u,
    ensures
        a.tube_named(name) == b.tube_named(name),
        a.tube_for(name) == b.tube_for(name),
        alike(a.making_tube(name), b.making_tube(name)),
{
    if a.tube_named(name) is Some {
        let t = a.tube_named(name)->0;
        assert(a.live(t) && a.tube(t).name == name);
        assert(b.live(t) && b.tube(t).name == name);
        let u = b.tube_named(name)->0;
        assert(b.live(u) && b.tube(u).name == name);
        assert(a.live(u));
    }
    if b.tube_named(name) is Some {
        let t = b.tube_named(name)->0;
        assert(b.live(t) && b.tube(t).name == name);
        assert(a.live(t) && a.tube(t).name == name);
    }
}

/// A tube is destroyed alike.
proof fn lemma_collecting(a: Model, b: Model, t: TubeId)
    requires
        alike(a, b),
    ensures
        alike(a.collecting(t), b.collecting(t)),
{
    lemma_counts(a.jobs, b.jobs);
    assert(a.live(t) == b.live(t));
    assert(a.referenced(t) == b.referenced(t));
}

/// What a put does once it is accepted: `j` joins, jobs are handed out, and the
/// job is counted.
spec fn joining(m: Model, j: JobView, now: Nanos, c: ConnId, out: Out) -> (Model, Out) {
    let (n, o) = m.with_job(j).journaling_put(j.id).process_queue(now, out);
    let t = j.tube;
    (
        (Model { total_jobs_ct: bump(n.total_jobs_ct), ..n }).with_tube(
            t,
            TubeView { total_jobs_ct: bump(n.tube(t).total_jobs_ct), ..n.tube(t) },
        ),
        o.push((c, ResponseView::Inserted(j.id))),
    )
}

/// A job joins and is handed out alike.
proof fn lemma_joining(a: Model, b: Model, j: JobView, k: JobView, now: Nanos, c: ConnId, out: Out)
    requires
        alike(a, b),
        same_but_file(j, k),
    ensures
        same_outcome(joining(a, j, now, c, out), joining(b, k, now, c, out)),
{
    lemma_added(a, b, j, k);
    let p = a.with_job(j).journaling_put(j.id);
    let q = b.with_job(k).journaling_put(k.id);
    assert(alike(p, q));
    lemma_process(p, q, now, out);
    let x = p.process_queue(now, out).0;
    let y = q.process_queue(now, out).0;
    let t = j.tube;
    assert(x.tube(t) == y.tube(t));
}

/// The job that a put makes.
spec fn put_job(
    m: Model,
    now: Nanos,
    c: ConnId,
    pri: u32,
    delay: u32,
    ttr: u32,
    body: Seq<u8>,
) -> JobView {
    let p = m.conns[c].pending_put;
    JobView {
        id: m.put_number(c),
        tube: m.conns[c].use_tube,
        pri,
        delay,
        ttr: if ttr == 0 {
            1
        } else {
            ttr
        },
        body,
        created_at: if p is Some && p->0.id is Some {
            p->0.created_at
        } else {
            now
        },
        deadline_at: if delay > 0 {
            later(now, delay)
        } else {
            0
        },
        state: if delay > 0 {
            JobState::Delayed
        } else {
            JobState::Ready
        },
        reserver: None,
        reserve_ct: 0,
        timeout_ct: 0,
        release_ct: 0,
        bury_ct: 0,
        kick_ct: 0,
        file: if m.cfg.journal {
            m.binlog.current_index
        } else {
            0
        },
    }
}

/// What a put does.
proof fn lemma_put_is(
    m: Model,
    now: Nanos,
    c: ConnId,
    pri: u32,
    delay: u32,
    ttr: u32,
    body: Seq<u8>,
    out: Out,
)
    ensures
        m.cmd_put(now, c, pri, delay, ttr, body, out) == if m.draining {
            (m.put_accepted(c), out.push((c, ResponseView::Draining)))
        } else {
            joining(m.put_accepted(c), put_job(m, now, c, pri, delay, ttr, body), now, c, out)
        },
{
}

/// put
proof fn lemma_put(
    a: Model,
    b: Model,
    now: Nanos,
    c: ConnId,
    pri: u32,
    delay: u32,
    ttr: u32,
    body: Seq<u8>,
    out: Out,
)
    requires
        alike(a, b),
    ensures
        same_outcome(
            a.cmd_put(now, c, pri, delay, ttr, body, out),
            b.cmd_put(now, c, pri, delay, ttr, body, out),
        ),
{
    lemma_put_is(a, now, c, pri, delay, ttr, body, out);
    lemma_put_is(b, now, c, pri, delay, ttr, body, out);
    assert(alike(a.put_accepted(c), b.put_accepted(c)));
    lemma_joining(
        a.put_accepted(c),
        b.put_accepted(c),
        put_job(a, now, c, pri, delay, ttr, body),
        put_job(b, now, c, pri, delay, ttr, body),
        now,
        c,
        out,
    );
}

/// use, watch and ignore
proof fn lemma_tubes(a: Model, b: Model, c: ConnId, name: Seq<u8>, out: Out)
    requires
        alike(a, b),
        orderly(a),
    ensures
        same_outcome(a.cmd_use(c, name, out), b.cmd_use(c, name, out)),
        same_outcome(a.cmd_watch(c, name, out), b.cmd_watch(c, name, out)),
        same_outcome(a.cmd_ignore(c, name, out), b.cmd_ignore(c, name, out)),
{
    let x = Model { ops: OpCounts { cmd_use: bump(a.ops.cmd_use), ..a.ops }, ..a };
    let y = Model { ops: OpCounts { cmd_use: bump(b.ops.cmd_use), ..b.ops }, ..b };
    lemma_names(a, x);
    lemma_tube_named(x, y, name);
    let p = x.making_tube(name);
    let q = y.making_tube(name);
    let v = ConnView { use_tube: x.tube_for(name), ..p.conns[c] };
    lemma_collecting(p.with_conn(c, v), q.with_conn(c, v), p.conns[c].use_tube);

    let x = Model { ops: OpCounts { cmd_watch: bump(a.ops.cmd_watch), ..a.ops }, ..a };
    let y = Model { ops: OpCounts { cmd_watch: bump(b.ops.cmd_watch), ..b.ops }, ..b };
    lemma_names(a, x);
    lemma_tube_named(x, y, name);

    let x = Model { ops: OpCounts { cmd_ignore: bump(a.ops.cmd_ignore), ..a.ops }, ..a };
    let y = Model { ops: OpCounts { cmd_ignore: bump(b.ops.cmd_ignore), ..b.ops }, ..b };
    lemma_names(a, x);
    lemma_tube_named(x, y, name);
    match x.tube_named(name) {
        None => {},
        Some(t) => {
            let v = ConnView { watch: x.conns[c].watch.remove(t), ..x.conns[c] };
            lemma_collecting(x.with_conn(c, v), y.with_conn(c, v), t);
        },
    }
}

/// Counting a command leaves the names distinct.
proof fn lemma_names(a: Model, x: Model)
    requires
        orderly(a),
        x.tubes == a.tubes,
    ensures
        forall|t: TubeId, u: TubeId|
            #![trigger x.live(t), x.live(u)]
            x.live(t) && x.live(u) && x.tube(t).name == x.tube(u).name ==> t == u,
{
    assert forall|t: TubeId, u: TubeId|
        #![trigger x.live(t), x.live(u)]
        x.live(t) && x.live(u) && x.tube(t).name == x.tube(u).name implies t == u by {
        assert(a.live(t) && a.live(u));
    }
}

/// reserve and reserve-with-timeout
proof fn lemma_reserve(a: Model, b: Model, now: Nanos, c: ConnId, timeout: Option<u32>, out: Out)
    requires
        alike(a, b),
    ensures
        same_outcome(a.cmd_reserve(now, c, timeout, out), b.cmd_reserve(now, c, timeout, out)),
{
    let ops = match timeout {
        None => OpCounts { cmd_reserve: bump(a.ops.cmd_reserve), ..a.ops },
        Some(_) => OpCounts {
            cmd_reserve_with_timeout: bump(a.ops.cmd_reserve_with_timeout),
            ..a.ops
        },
    };
    let x = (Model { ops, ..a }).worker(c);
    let y = (Model { ops, ..b }).worker(c);
    assert(alike(x, y));
    lemma_counts(x.jobs, y.jobs);
    assert(x.ready_for(c) == y.ready_for(c)) by {
        assert forall|id: JobId| #[trigger] x.jobs.contains_key(id) == y.jobs.contains_key(id) by {
            assert(x.jobs.dom().contains(id) == y.jobs.dom().contains(id));
        }
        if x.ready_for(c) {
            let id = choose|id: JobId|
                {
                    &&& #[trigger] x.jobs.contains_key(id)
                    &&& x.jobs[id].state == JobState::Ready
                    &&& x.conns[c].watch.items.contains(x.jobs[id].tube)
                };
            assert(y.jobs.contains_key(id));
        }
        if y.ready_for(c) {
            let id = choose|id: JobId|
                {
                    &&& #[trigger] y.jobs.contains_key(id)
                    &&& y.jobs[id].state == JobState::Ready
                    &&& y.conns[c].watch.items.contains(y.jobs[id].tube)
                };
            assert(x.jobs.contains_key(id));
        }
    }
    let until: Option<Nanos> = match timeout {
        None => None,
        Some(s) => Some(later(now, s)),
    };
    let p = x.start_waiting(c, until);
    let q = y.start_waiting(c, until);
    assert(p.tubes =~= q.tubes);
    assert(alike(p, q));
    lemma_process(p, q, now, out);
    let n = p.process_queue(now, out).0;
    let l = q.process_queue(now, out).0;
    lemma_counts(n.jobs, l.jobs);
    lemma_stop_waiting(n, l, c);
}

/// A job is kicked alike.
proof fn lemma_kicking(a: Model, b: Model, id: JobId, now: Nanos, out: Out)
    requires
        alike(a, b),
        a.jobs.contains_key(id),
    ensures
        same_outcome(a.kicking(id, now, out), b.kicking(id, now, out)),
{
    assert(same_but_file(a.jobs[id], b.jobs[id]));
    let j = JobView {
        state: JobState::Ready,
        reserver: None,
        kick_ct: bump32(a.jobs[id].kick_ct),
        ..a.jobs[id]
    };
    let k = JobView { file: b.jobs[id].file, ..j };
    lemma_moved(a, b, id, j, k);
    let p = a.without_job(id).with_job(j).journaling_update(id);
    let q = b.without_job(id).with_job(k).journaling_update(id);
    assert(alike(p, q));
    lemma_process(p, q, now, out);
}

/// Buried jobs are kicked alike.
proof fn lemma_kick_buried(a: Model, b: Model, t: TubeId, n: nat, now: Nanos, out: Out, s: Since)
    requires
        alike(a, b),
        told(a, s),
        a.live(t),
    ensures
        ({
            let x = a.kick_buried(t, n, now, out);
            let y = b.kick_buried(t, n, now, out);
            same_outcome((x.0, x.1), (y.0, y.1)) && x.2 == y.2
        }),
    decreases n,
{
    if n > 0 && a.tube(t).buried.len() > 0 {
        let id = a.tube(t).buried[0];
        assert(a.tube(t).buried.contains(id));
        lemma_kicking(a, b, id, now, out);
        lemma_kicked(a, id, now, out, s);
        let (x, o) = a.kicking(id, now, out);
        let (y, _) = b.kicking(id, now, out);
        lemma_kick_buried(x, y, t, (n - 1) as nat, now, o, s);
    }
}

/// Delayed jobs are kicked alike.
proof fn lemma_kick_delayed(a: Model, b: Model, t: TubeId, n: nat, now: Nanos, out: Out)
    requires
        alike(a, b),
    ensures
        ({
            let x = a.kick_delayed(t, n, now, out);
            let y = b.kick_delayed(t, n, now, out);
            same_outcome((x.0, x.1), (y.0, y.1)) && x.2 == y.2
        }),
    decreases n,
{
    lemma_counts(a.jobs, b.jobs);
    match least(delayed_set(a.jobs, t)) {
        Some(p) => if n > 0 {
            assert(is_least(delayed_set(a.jobs, t), p));
            lemma_kicking(a, b, p.1, now, out);
            let (x, o) = a.kicking(p.1, now, out);
            let (y, _) = b.kicking(p.1, now, out);
            lemma_kick_delayed(x, y, t, (n - 1) as nat, now, o);
        },
        None => {},
    }
}

/// kick
proof fn lemma_kick(a: Model, b: Model, now: Nanos, c: ConnId, n: u32, out: Out)
    requires
        alike(a, b),
        orderly(a),
        a.conns.contains_key(c),
    ensures
        same_outcome(a.cmd_kick(now, c, n, out), b.cmd_kick(now, c, n, out)),
{
    let x = Model { ops: OpCounts { cmd_kick: bump(a.ops.cmd_kick), ..a.ops }, ..a };
    let y = Model { ops: OpCounts { cmd_kick: bump(b.ops.cmd_kick), ..b.ops }, ..b };
    let t = x.conns[c].use_tube;
    lemma_told(a);
    lemma_beside(a, x, here(a));
    assert(a.live(t));
    assert(x.live(t));
    lemma_kick_buried(x, y, t, n as nat, now, out, here(a));
    lemma_kick_delayed(x, y, t, n as nat, now, out);
}

/// kick-job
proof fn lemma_kick_job(a: Model, b: Model, now: Nanos, c: ConnId, id: JobId, out: Out)
    requires
        alike(a, b),
    ensures
        same_outcome(a.cmd_kick_job(now, c, id, out), b.cmd_kick_job(now, c, id, out)),
{
    assert(a.jobs.dom().contains(id) == b.jobs.dom().contains(id));
    assert(a.jobs.contains_key(id) == b.jobs.contains_key(id));
    if a.jobs.contains_key(id) {
        lemma_kicking(a, b, id, now, out);
    }
}

/// A job is held alike.
proof fn lemma_holds(a: Model, b: Model, c: ConnId, id: JobId)
    requires
        alike(a, b),
    ensures
        a.jobs.contains_key(id) == b.jobs.contains_key(id),
        a.holds(c, id) == b.holds(c, id),
        a.jobs.contains_key(id) ==> same_but_file(a.jobs[id], b.jobs[id]),
{
    assert(a.jobs.dom().contains(id) == b.jobs.dom().contains(id));
    assert(a.jobs.contains_key(id) == b.jobs.contains_key(id));
}

/// release
proof fn lemma_release(
    a: Model,
    b: Model,
    now: Nanos,
    c: ConnId,
    id: JobId,
    pri: u32,
    delay: u32,
    out: Out,
)
    requires
        alike(a, b),
    ensures
        same_outcome(
            a.cmd_release(now, c, id, pri, delay, out),
            b.cmd_release(now, c, id, pri, delay, out),
        ),
{
    let x = Model { ops: OpCounts { cmd_release: bump(a.ops.cmd_release), ..a.ops }, ..a };
    let y = Model { ops: OpCounts { cmd_release: bump(b.ops.cmd_release), ..b.ops }, ..b };
    assert(alike(x, y));
    lemma_holds(x, y, c, id);
    if x.holds(c, id) {
        let j = JobView {
            pri,
            delay,
            reserver: None,
            release_ct: bump32(x.jobs[id].release_ct),
            ..x.jobs[id]
        };
        let f = y.jobs[id].file;
        if delay > 0 {
            let d = JobView { state: JobState::Delayed, deadline_at: later(now, delay), ..j };
            lemma_moved(x, y, id, d, JobView { file: f, ..d });
            let k = x.without_job(id).with_job(d).journaling_update(id);
            let l = y.without_job(id).with_job(JobView { file: f, ..d }).journaling_update(id);
            assert(alike(k, l));
            lemma_process(k, l, now, out);
        } else {
            let r = JobView { state: JobState::Ready, ..j };
            lemma_moved(x, y, id, r, JobView { file: f, ..r });
            lemma_process(
                x.without_job(id).with_job(r),
                y.without_job(id).with_job(JobView { file: f, ..r }),
                now,
                out,
            );
        }
    }
}

/// delete
proof fn lemma_delete(a: Model, b: Model, c: ConnId, id: JobId, out: Out)
    requires
        alike(a, b),
    ensures
        same_outcome(a.cmd_delete(c, id, out), b.cmd_delete(c, id, out)),
{
    let x = Model { ops: OpCounts { cmd_delete: bump(a.ops.cmd_delete), ..a.ops }, ..a };
    let y = Model { ops: OpCounts { cmd_delete: bump(b.ops.cmd_delete), ..b.ops }, ..b };
    assert(alike(x, y));
    lemma_holds(x, y, c, id);
    if x.jobs.contains_key(id) {
        let t = x.jobs[id].tube;
        lemma_removed(x, y, id);
        let p = x.without_job(id);
        let q = y.without_job(id);
        let v = TubeView { total_delete_ct: bump(p.tube(t).total_delete_ct), ..p.tube(t) };
        let e = EntryView::Delete(id);
        let k = p.with_tube(t, v).journaling(e);
        let l = q.with_tube(t, v).journaling(e);
        assert(alike(k, l));
        lemma_collecting(k, l, t);
    }
}

/// bury
proof fn lemma_bury(a: Model, b: Model, c: ConnId, id: JobId, pri: u32, out: Out)
    requires
        alike(a, b),
    ensures
        same_outcome(a.cmd_bury(c, id, pri, out), b.cmd_bury(c, id, pri, out)),
{
    let x = Model { ops: OpCounts { cmd_bury: bump(a.ops.cmd_bury), ..a.ops }, ..a };
    let y = Model { ops: OpCounts { cmd_bury: bump(b.ops.cmd_bury), ..b.ops }, ..b };
    assert(alike(x, y));
    lemma_holds(x, y, c, id);
    if x.holds(c, id) {
        let j = JobView {
            pri,
            state: JobState::Buried,
            reserver: None,
            bury_ct: bump32(x.jobs[id].bury_ct),
            ..x.jobs[id]
        };
        let k = JobView { file: y.jobs[id].file, ..j };
        lemma_moved(x, y, id, j, k);
        assert(alike(
            x.without_job(id).with_job(j).journaling_update(id),
            y.without_job(id).with_job(k).journaling_update(id),
        ));
    }
}

/// touch
proof fn lemma_touch(a: Model, b: Model, now: Nanos, c: ConnId, id: JobId, out: Out)
    requires
        alike(a, b),
    ensures
        same_outcome(a.cmd_touch(now, c, id, out), b.cmd_touch(now, c, id, out)),
{
    let x = Model { ops: OpCounts { cmd_touch: bump(a.ops.cmd_touch), ..a.ops }, ..a };
    let y = Model { ops: OpCounts { cmd_touch: bump(b.ops.cmd_touch), ..b.ops }, ..b };
    assert(alike(x, y));
    lemma_holds(x, y, c, id);
    if x.holds(c, id) {
        let j = JobView { deadline_at: later(now, x.jobs[id].ttr), ..x.jobs[id] };
        let k = JobView { file: y.jobs[id].file, ..j };
        let p = x.jobs.insert(id, j);
        let q = y.jobs.insert(id, k);
        assert(p.dom() =~= q.dom());
        assert forall|o: JobId|
            #![trigger p.contains_key(o)]
            #![trigger q.contains_key(o)]
            p.contains_key(o) implies same_but_file(p[o], q[o]) by {
            if o != id {
                assert(x.jobs.contains_key(o));
            }
        }
        assert(jobs_alike(p, q));
    }
}

/// reserve-job
proof fn lemma_reserve_job(a: Model, b: Model, now: Nanos, c: ConnId, id: JobId, out: Out)
    requires
        alike(a, b),
    ensures
        same_outcome(a.cmd_reserve_job(now, c, id, out), b.cmd_reserve_job(now, c, id, out)),
{
    lemma_holds(a, b, c, id);
    if a.jobs.contains_key(id) {
        assert(alike(a.worker(c), b.worker(c)));
        lemma_reserving(a.worker(c), b.worker(c), id, c, now);
    }
}

/// A command is given.
proof fn lemma_handle(
    a: Model,
    b: Model,
    now: Nanos,
    c: ConnId,
    cmd: CommandView,
    sys: SysSnapshot,
    out: Out,
)
    requires
        alike(a, b),
        orderly(a),
        !(cmd is StatsJob),
    ensures
        same_outcome(a.handle(now, c, cmd, sys, out), b.handle(now, c, cmd, sys, out)),
{
    if a.conns.contains_key(c) {
        match cmd {
            CommandView::Put { pri, delay, ttr, body } => lemma_put(
                a,
                b,
                now,
                c,
                pri,
                delay,
                ttr,
                body,
                out,
            ),
            CommandView::Use(name) => lemma_tubes(a, b, c, name, out),
            CommandView::Watch(name) => lemma_tubes(a, b, c, name, out),
            CommandView::Ignore(name) => lemma_tubes(a, b, c, name, out),
            CommandView::Reserve => lemma_reserve(a, b, now, c, None, out),
            CommandView::ReserveWithTimeout(x) => lemma_reserve(a, b, now, c, Some(x), out),
            CommandView::ReserveJob(id) => lemma_reserve_job(a, b, now, c, id, out),
            CommandView::Delete(id) => lemma_delete(a, b, c, id, out),
            CommandView::Release { id, pri, delay } => lemma_release(
                a,
                b,
                now,
                c,
                id,
                pri,
                delay,
                out,
            ),
            CommandView::Bury { id, pri } => lemma_bury(a, b, c, id, pri, out),
            CommandView::Touch(id) => lemma_touch(a, b, now, c, id, out),
            CommandView::Kick(n) => lemma_kick(a, b, now, c, n, out),
            CommandView::KickJob(id) => lemma_kick_job(a, b, now, c, id, out),
            CommandView::Peek(id) => lemma_peeks(a, b, c, id, out),
            CommandView::PeekReady => lemma_peeks(a, b, c, 0, out),
            CommandView::PeekDelayed => lemma_peeks(a, b, c, 0, out),
            CommandView::PeekBuried => lemma_peeks(a, b, c, 0, out),
            _ => lemma_look(a, b, now, c, cmd, sys, out),
        }
    }
}

/// The peeks
proof fn lemma_peeks(a: Model, b: Model, c: ConnId, id: JobId, out: Out)
    requires
        alike(a, b),
        orderly(a),
        a.conns.contains_key(c),
    ensures
        same_outcome(a.cmd_peek(c, id, out), b.cmd_peek(c, id, out)),
        same_outcome(a.cmd_peek_ready(c, out), b.cmd_peek_ready(c, out)),
        same_outcome(a.cmd_peek_delayed(c, out), b.cmd_peek_delayed(c, out)),
        same_outcome(a.cmd_peek_buried(c, out), b.cmd_peek_buried(c, out)),
{
    lemma_holds(a, b, c, id);
    lemma_counts(a.jobs, b.jobs);
    let t = a.conns[c].use_tube;
    assert(a.live(t));

    let ops = OpCounts { cmd_peek_ready: bump(a.ops.cmd_peek_ready), ..a.ops };
    let x = Model { ops, ..a };
    let y = Model { ops, ..b };
    assert(x.ready_in(t) =~= y.ready_in(t)) by {
        assert forall|p: (u64, JobId)| x.ready_in(t).contains(p) == y.ready_in(t).contains(p) by {
            lemma_holds(a, b, c, p.1);
        }
    }
    let p = least(x.ready_in(t));
    if p is Some {
        assert(is_least(x.ready_in(t), p->0));
        lemma_holds(a, b, c, (p->0).1);
    }
    assert(x.shown(p) == y.shown(p));

    let ops = OpCounts { cmd_peek_delayed: bump(a.ops.cmd_peek_delayed), ..a.ops };
    let x = Model { ops, ..a };
    let y = Model { ops, ..b };
    let p = least(delayed_set(a.jobs, t));
    if p is Some {
        assert(is_least(delayed_set(a.jobs, t), p->0));
        lemma_holds(a, b, c, (p->0).1);
    }
    assert(x.shown(p) == y.shown(p));

    let l = a.tube(t).buried;
    if l.len() > 0 {
        assert(l.contains(l[0]));
        lemma_holds(a, b, c, l[0]);
    }
}

/// A command that looks at tubes, or that pauses one.
proof fn lemma_look(
    a: Model,
    b: Model,
    now: Nanos,
    c: ConnId,
    cmd: CommandView,
    sys: SysSnapshot,
    out: Out,
)
    requires
        alike(a, b),
        orderly(a),
        a.conns.contains_key(c),
        cmd is StatsTube || cmd is Stats || cmd is ListTubes || cmd is ListTubeUsed
            || cmd is ListTubesWatched || cmd is Quit || cmd is PauseTubeBadName || cmd is PauseTube,
    ensures
        same_outcome(a.handle(now, c, cmd, sys, out), b.handle(now, c, cmd, sys, out)),
{
    lemma_counts(a.jobs, b.jobs);
    match cmd {
        CommandView::PauseTube { tube, delay } => {
            let ops = OpCounts { cmd_pause_tube: bump(a.ops.cmd_pause_tube), ..a.ops };
            let x = Model { ops, ..a };
            lemma_names(a, x);
            lemma_tube_named(x, Model { ops, ..b }, tube);
        },
        CommandView::StatsTube(name) => {
            let ops = OpCounts { cmd_stats_tube: bump(a.ops.cmd_stats_tube), ..a.ops };
            let x = Model { ops, ..a };
            let y = Model { ops, ..b };
            lemma_names(a, x);
            lemma_tube_named(x, y, name);
            if x.tube_named(name) is Some {
                let t = x.tube_named(name)->0;
                assert(x.tube_stats(t, now) == y.tube_stats(t, now));
            }
        },
        CommandView::Stats => {
            let ops = OpCounts { cmd_stats: bump(a.ops.cmd_stats), ..a.ops };
            let x = Model { ops, ..a };
            let y = Model { ops, ..b };
            assert(x.server_stats(now, sys) == y.server_stats(now, sys));
        },
        CommandView::ListTubes => {
            let ops = OpCounts { cmd_list_tubes: bump(a.ops.cmd_list_tubes), ..a.ops };
            let i = a.order.items;
            assert((Model { ops, ..a }).names_of(i) =~= (Model { ops, ..b }).names_of(i));
        },
        CommandView::ListTubesWatched => {
            let ops = OpCounts {
                cmd_list_tubes_watched: bump(a.ops.cmd_list_tubes_watched),
                ..a.ops
            };
            let i = a.conns[c].watch.items;
            assert((Model { ops, ..a }).names_of(i) =~= (Model { ops, ..b }).names_of(i));
        },
        _ => {},
    }
}

/// Jobs become ready again alike.
proof fn lemma_give_back(
    a: Model,
    b: Model,
    ids: Seq<JobId>,
    i: nat,
    now: Nanos,
    out: Out,
    s: Since,
)
    requires
        alike(a, b),
        told(a, s),
        forall|k: int| 0 <= k < ids.len() ==> a.jobs.contains_key(#[trigger] ids[k]),
    ensures
        same_outcome(a.give_back(ids, i, now, out), b.give_back(ids, i, now, out)),
    decreases ids.len() - i,
{
    if i < ids.len() {
        let id = ids[i as int];
        lemma_readying(a, b, id);
        lemma_process(a.readying(id), b.readying(id), now, out);
        lemma_readied(a, id, now, out, s);
        let (x, o) = a.readying(id).process_queue(now, out);
        let (y, _) = b.readying(id).process_queue(now, out);
        assert forall|k: int| 0 <= k < ids.len() implies x.jobs.contains_key(#[trigger] ids[k]) by {
            assert(a.jobs.contains_key(ids[k]));
            assert(x.jobs.dom().contains(ids[k]));
        }
        lemma_give_back(x, y, ids, i + 1, now, o, s);
    }
}

/// A connection watches nothing any more, alike.
proof fn lemma_unwatch_all(a: Model, b: Model, c: ConnId)
    requires
        alike(a, b),
    ensures
        alike(a.unwatch_all(c), b.unwatch_all(c)),
    decreases a.conns[c].watch.items.len(),
{
    let w = a.conns[c].watch;
    if w.items.len() > 0 {
        let v = ConnView {
            watch: MsView { items: swap_remove(w.items, 0), ..w },
            ..a.conns[c]
        };
        lemma_collecting(a.with_conn(c, v), b.with_conn(c, v), w.items[0]);
        let x = a.with_conn(c, v).collecting(w.items[0]);
        let y = b.with_conn(c, v).collecting(w.items[0]);
        if x.conns[c].watch.items.len() < w.items.len() {
            lemma_unwatch_all(x, y, c);
        }
    }
}

/// A connection closes alike.
proof fn lemma_disconnect(a: Model, b: Model, c: ConnId, now: Nanos, out: Out)
    requires
        alike(a, b),
        orderly(a),
    ensures
        same_outcome(a.disconnect(c, now, out), b.disconnect(c, now, out)),
{
    if a.conns.contains_key(c) {
        let a1 = a.stop_waiting(c);
        let b1 = b.stop_waiting(c);
        lemma_stop_waiting(a, b, c);
        lemma_told(a);
        lemma_stopped(a, c, here(a));
        let ids = a1.conns[c].reserved;
        assert(ids == a.conns[c].reserved);
        assert forall|k: int| 0 <= k < ids.len() implies a1.jobs.contains_key(#[trigger] ids[k]) by {
            assert(a.conns[c].reserved.contains(ids[k]));
        }
        lemma_give_back(a1, b1, ids, 0, now, out, here(a));
        let a2 = a1.give_back(ids, 0, now, out).0;
        let b2 = b1.give_back(ids, 0, now, out).0;
        lemma_unwatch_all(a2, b2, c);
        let a3 = a2.unwatch_all(c);
        let b3 = b2.unwatch_all(c);
        lemma_collecting(
            Model { conns: a3.conns.remove(c), ..a3 },
            Model { conns: b3.conns.remove(c), ..b3 },
            a3.conns[c].use_tube,
        );
    }
}

/// Whether `input` asks what stats-job reports.
pub open spec fn asks_of_a_job(input: EngineInput) -> bool {
    match input {
        EngineInput::Command { cmd, .. } => cmd@ is StatsJob,
        _ => false,
    }
}

/// A put starts, or is rejected, alike.
proof fn lemma_put_ends(
    a: Model,
    b: Model,
    now: Nanos,
    c: ConnId,
    too_big: bool,
    why: PutRejection,
    out: Out,
)
    requires
        alike(a, b),
    ensures
        alike(a.put_started(c, now, too_big), b.put_started(c, now, too_big)),
        same_outcome(a.put_rejected(c, why, out), b.put_rejected(c, why, out)),
{
}

/// An event happens alike.
proof fn lemma_take_in(
    a: Model,
    b: Model,
    now: Nanos,
    input: EngineInput,
    sys: SysSnapshot,
    out: Out,
)
    requires
        orderly(a),
        alike(a, b),
        !asks_of_a_job(input),
    ensures
        same_outcome(a.take_in(now, input, sys, out), b.take_in(now, input, sys, out)),
{
    match input {
        EngineInput::Connect(c) => {
            assert(alike(a.connect(c), b.connect(c)));
        },
        EngineInput::Disconnect(c) => lemma_disconnect(a, b, c, now, out),
        EngineInput::HalfClose(c) => lemma_stop_waiting(a, b, c),
        EngineInput::PutStarted { conn, too_big } => lemma_put_ends(
            a,
            b,
            now,
            conn,
            too_big,
            PutRejection::JobTooBig,
            out,
        ),
        EngineInput::PutRejected { conn, why } => lemma_put_ends(a, b, now, conn, true, why, out),
        EngineInput::Command { conn, cmd } => lemma_handle(a, b, now, conn, cmd@, sys, out),
        EngineInput::Tick => {},
        EngineInput::SetDraining(on) => {},
    }
}

/// Whether a journal is kept changes no reply and nothing that is counted:
/// whatever happens, two states that differ in the journal, and in the files
/// that jobs were logged in, alone give the same replies and go on differing in
/// these alone. Left out is stats-job, which names the file: see
/// `job_reports_differ_in_the_file_alone`.
pub proof fn journal_is_unseen(
    a: Model,
    b: Model,
    now: Nanos,
    input: EngineInput,
    sys: SysSnapshot,
    out: Out,
)
    requires
        orderly(a),
        alike(a, b),
        !asks_of_a_job(input),
    ensures
        same_outcome(a.apply_input(now, input, sys, out), b.apply_input(now, input, sys, out)),
{
    lemma_take_in(a, b, now, input, sys, out);
    let (x, o) = a.take_in(now, input, sys, out);
    let (y, _) = b.take_in(now, input, sys, out);
    lemma_tick(x, y, now, o);
}

/// Two states that differ in the journal alone give the same replies, whatever
/// happens, and go on differing in it alone.
pub proof fn journaled_entries_are_unseen(
    a: Model,
    b: Model,
    now: Nanos,
    input: EngineInput,
    sys: SysSnapshot,
    out: Out,
)
    requires
        orderly(a),
        b == (Model { journal: b.journal, ..a }),
    ensures
        same_outcome(a.apply_input(now, input, sys, out), b.apply_input(now, input, sys, out)),
{
    assert(alike(a, b));
    if asks_of_a_job(input) {
        let (x, o) = a.take_in(now, input, sys, out);
        let (y, p) = b.take_in(now, input, sys, out);
        if let EngineInput::Command { conn, cmd } = input {
            if let CommandView::StatsJob(id) = cmd@ {
                assert(a.job_stats(id, now) == b.job_stats(id, now));
                assert(o == p);
                assert(alike(x, y));
            }
        }
        lemma_tick(x, y, now, o);
    } else {
        journal_is_unseen(a, b, now, input, sys, out);
    }
}

/// What stats-job reports is the same but for the file, and asking for it leaves
/// the two states alike.
pub proof fn job_reports_differ_in_the_file_alone(
    a: Model,
    b: Model,
    now: Nanos,
    c: ConnId,
    id: JobId,
    out: Out,
)
    requires
        alike(a, b),
    ensures
        a.jobs.contains_key(id) == b.jobs.contains_key(id),
        a.jobs.contains_key(id) ==> b.job_stats(id, now) == (StatsJobView {
            file: b.jobs[id].file,
            ..a.job_stats(id, now)
        }),
        alike(a.cmd_stats_job(now, c, id, out).0, b.cmd_stats_job(now, c, id, out).0),
{
    lemma_holds(a, b, c, id);
}

} // verus!
