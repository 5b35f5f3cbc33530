//! What comes in: the jobs that are put, and the tubes that connections turn to
//! and from.

use crate::api::{ConnId, Nanos, RecordState, SysSnapshot, MAX_NOW};
use crate::effects::{
    lemma_counted, lemma_named, lemma_needed, lemma_orderly_well_kept, lemma_passed,
    lemma_same_stage, needed, nobody_kept_waiting, others_passed, passed, same_stage, tells,
};
use crate::handout::{awaits, best_jobs_go_first, lined_up, one_more_long, open_at, same_client};
use crate::model::{ConnView, JobState, JobView, TubeId, TubeView};
use crate::proto::{CommandView, JobId, ResponseView};
use crate::rules::{bump, later, Model, OpCounts, Out};
use crate::settle::orderly;
use vstd::prelude::*;

verus! {

/// Whether connection `c` has been given a number for the put that it started.
pub open spec fn has_number(m: Model, c: ConnId) -> bool {
    m.conns[c].pending_put is Some && m.conns[c].pending_put->0.id is Some
}

/// A job joins a tube.
proof fn lemma_joined(m: Model, k: Model, j: JobView)
    requires
        orderly(m),
        k.tubes == m.tubes,
        k.jobs == m.jobs,
        same_stage(m, k),
        !m.jobs.contains_key(j.id),
        m.live(j.tube),
        j.state == JobState::Ready || j.state == JobState::Delayed,
    ensures
        ({
            let x = k.with_job(j);
            &&& x.jobs == m.jobs.insert(j.id, j)
            &&& same_stage(m, x)
            &&& lined_up(x)
        }),
{
    let x = k.with_job(j);
    lemma_orderly_well_kept(m);
    assert forall|t: TubeId| #[trigger] x.live(t) == m.live(t) && x.tube(t) == m.tube(t) by {}
    lemma_same_stage(m, x, 0);
    assert(x.jobs.dom() =~= m.jobs.dom().insert(j.id));
    assert forall|id: JobId| #[trigger] x.jobs.contains_key(id) implies x.jobs[id].id == id
        && x.live(x.jobs[id].tube) by {
        if id != j.id {
            assert(m.jobs.contains_key(id));
            assert(m.live(m.jobs[id].tube));
        }
    }
    assert forall|t: TubeId| #[trigger] x.live(t) implies x.tube(
        t,
    ).waiting.items.no_duplicates() by {
        assert(m.live(t));
    }
    assert forall|t: TubeId, d: ConnId| x.live(t) implies (#[trigger] x.tube(
        t,
    ).waiting.items.contains(d) <==> awaits(x, d, t)) by {
        assert(m.live(t));
        assert(m.tube(t).waiting.items.contains(d) <==> awaits(m, d, t));
        assert(awaits(x, d, t) == awaits(m, d, t));
    }
}

/// put. While the server drains, it is answered DRAINING and no job is made.
/// Otherwise it is answered INSERTED, with a number that no job has: the one that
/// was given when the put started, or the next. The job has that number, the
/// priority, the delay, the time to run (at least a second) and the body that
/// were sent, and stands in the tube that the connection uses; with a delay it
/// waits until that many seconds are over; without one it is ready, or with
/// whoever waited for it. The other jobs are left as they are but for being
/// handed out.
pub proof fn put_makes_that_job(
    m: Model,
    now: Nanos,
    c: ConnId,
    pri: u32,
    delay: u32,
    ttr: u32,
    body: Seq<u8>,
    sys: SysSnapshot,
    out: Out,
)
    requires
        orderly(m),
        now <= MAX_NOW,
        m.conns.contains_key(c),
        has_number(m, c) || m.next_job_id < u64::MAX,
    ensures
        ({
            let (n, o) = m.handle(now, c, CommandView::Put { pri, delay, ttr, body }, sys, out);
            let id = if has_number(m, c) {
                m.conns[c].pending_put->0.id->0
            } else {
                m.next_job_id
            };
            let b = n.jobs[id];
            let t = m.conns[c].use_tube;
            &&& o.len() > 0
            &&& o.last() == (c, if m.draining {
                ResponseView::Draining
            } else {
                ResponseView::Inserted(id)
            })
            &&& !m.jobs.contains_key(id)
            &&& n.next_job_id == m.next_job_id + (if has_number(m, c) {
                0int
            } else {
                1
            })
            &&& n.conns.contains_key(c)
            &&& n.conns[c].pending_put is None
            &&& n.conns[c].is_producer == (m.conns[c].is_producer || !has_number(m, c))
            &&& if has_number(m, c) {
                n.ops == m.ops
            } else {
                one_more_long(m.ops.cmd_put, n.ops.cmd_put)
            }
            &&& m.draining ==> n.jobs == m.jobs && n.tubes == m.tubes && n.total_jobs_ct
                == m.total_jobs_ct && n.journal == m.journal
            &&& !m.draining ==> {
                &&& n.jobs.contains_key(id)
                &&& b.id == id
                &&& b.tube == t
                &&& b.pri == pri
                &&& b.delay == delay
                &&& b.ttr == (if ttr == 0 {
                    1
                } else {
                    ttr
                })
                &&& b.body == body
                &&& b.created_at == (if has_number(m, c) {
                    m.conns[c].pending_put->0.created_at
                } else {
                    now
                })
                &&& b.file == (if m.cfg.journal {
                    m.binlog.current_index
                } else {
                    0
                })
                &&& b.timeout_ct == 0
                &&& b.release_ct == 0
                &&& b.bury_ct == 0
                &&& b.kick_ct == 0
                &&& delay > 0 ==> b.state == JobState::Delayed && b.reserver is None
                    && b.reserve_ct == 0 && b.deadline_at == now + delay * 1_000_000_000
                &&& delay == 0 ==> (b.state == JobState::Ready && b.reserver is None
                    && b.reserve_ct == 0) || (b.state == JobState::Reserved && b.reserver is Some
                    && awaits(m, b.reserver->0, t) && open_at(m, t, now) && b.reserve_ct == 1
                    && b.deadline_at == now + b.ttr * 1_000_000_000)
                &&& others_passed(m, n, id, now)
                &&& nobody_kept_waiting(n, now)
                &&& if m.cfg.journal {
                    let e = n.journal.last();
                    &&& n.journal.len() == m.journal.len() + 1
                    &&& n.journal.drop_last() == m.journal
                    &&& e is Put
                    &&& e->tube == m.tube(t).name
                    &&& e->body == body
                    &&& tells(
                        e->record,
                        JobView { reserve_ct: 0, ..b },
                        if delay > 0 {
                            RecordState::Delayed
                        } else {
                            RecordState::Ready
                        },
                    )
                } else {
                    n.journal == m.journal
                }
                &&& one_more_long(m.total_jobs_ct, n.total_jobs_ct)
                &&& one_more_long(m.tube(t).total_jobs_ct, n.tube(t).total_jobs_ct)
                &&& forall|u: TubeId| #[trigger]
                    m.live(u) && u != t ==> n.tube(u).total_jobs_ct == m.tube(u).total_jobs_ct
            }
        }),
{
    let (n, o) = m.handle(now, c, CommandView::Put { pri, delay, ttr, body }, sys, out);
    let id = if has_number(m, c) {
        m.conns[c].pending_put->0.id->0
    } else {
        m.next_job_id
    };
    let t = m.conns[c].use_tube;
    let k = m.put_accepted(c);
    assert(m.live(t));
    assert(!m.jobs.contains_key(id));
    assert(0 <= delay * 1_000_000_000 <= 0xffff_ffff * 1_000_000_000) by (nonlinear_arith)
        requires
            0 <= delay <= 0xffff_ffff,
    ;
    assert(k.conns.dom() =~= m.conns.dom());
    assert(same_stage(m, k)) by {
        assert forall|u: TubeId| #[trigger] k.live(u) == m.live(u) && k.tube(u) == m.tube(u) by {}
    }
    if !m.draining {
        let j = JobView {
            id,
            tube: t,
            pri,
            delay,
            ttr: if ttr == 0 {
                1
            } else {
                ttr
            },
            body,
            created_at: if has_number(m, c) {
                m.conns[c].pending_put->0.created_at
            } else {
                now
            },
            deadline_at: if delay > 0 {
                later(now, delay)
            } else {
                0
            },
            state: if delay > 0 {
                JobState::Delayed
            } else {
                JobState::Ready
            },
            reserver: None,
            reserve_ct: 0,
            timeout_ct: 0,
            release_ct: 0,
            bury_ct: 0,
            kick_ct: 0,
            file: if m.cfg.journal {
                m.binlog.current_index
            } else {
                0
            },
        };
        lemma_joined(m, k, j);
        let x = k.with_job(j);
        let y = x.journaling_put(id);
        lemma_same_stage(x, y, now);
        assert(same_stage(m, y)) by {
            assert forall|u: TubeId| #[trigger] y.live(u) == m.live(u) by {
                assert(x.live(u) == m.live(u));
            }
            assert forall|u: TubeId| #[trigger] m.live(u) implies y.tube(u) == m.tube(u) by {
                assert(x.live(u));
            }
        }
        lemma_same_stage(m, y, now);
        best_jobs_go_first(y, now, out);
        let (b, p) = y.process_queue(now, out);
        lemma_passed(y, out, b, p, now);
        assert(o.drop_last() =~= p);
        assert(n.jobs == b.jobs);
        assert(n.conns == b.conns);
        assert forall|q: JobId| #[trigger] m.jobs.contains_key(q) && q != id implies passed(
            m,
            n,
            q,
            now,
        ) by {
            assert(y.jobs.contains_key(q));
            assert(passed(y, b, q, now));
        }
        assert forall|q: JobId| #[trigger] n.jobs.contains_key(q) implies m.jobs.contains_key(q)
            || q == id by {
            assert(y.jobs.dom().contains(q));
        }
        assert(y.jobs.contains_key(id));
        assert(passed(y, b, id, now));
        assert(b.conns.dom().contains(c));
        assert(y.conns.contains_key(c));
        assert(same_client(y.conns[c], b.conns[c]));
        assert(b.live(t) == y.live(t));
        assert(y.live(t) == m.live(t));
        assert(n.journal.drop_last() =~= m.journal || n.journal == m.journal);
        assert forall|u: TubeId| #[trigger] open_at(n, u, now) == open_at(b, u, now) by {
            assert(n.live(u) == b.live(u));
        }
        assert(nobody_kept_waiting(n, now)) by {
            assert forall|q: JobId, d: ConnId|
                #![trigger crate::handout::is_ready(n, q), n.conns.contains_key(d)]
                crate::handout::is_ready(n, q) && open_at(
                    n,
                    n.jobs[q].tube,
                    now,
                ) implies !awaits(n, d, n.jobs[q].tube) by {
                assert(crate::handout::is_ready(b, q));
                assert(b.conns.contains_key(d) == n.conns.contains_key(d));
                assert(open_at(b, b.jobs[q].tube, now));
                assert(awaits(b, d, b.jobs[q].tube) == awaits(n, d, n.jobs[q].tube));
            }
        }
        assert forall|u: TubeId| #[trigger] m.live(u) && u != t implies n.tube(u).total_jobs_ct
            == m.tube(u).total_jobs_ct by {
            assert(y.live(u));
            assert(b.live(u));
        }
    }
}

/// Whether from `m` to `n` connection `c` alone has turned to another tube: the
/// tubes that both have are the same; one that is new is called `name` and is
/// as new; one that is gone was not "default", and nothing needs it.
pub open spec fn only_turned(m: Model, n: Model, c: ConnId, name: Seq<u8>) -> bool {
    &&& n.jobs == m.jobs
    &&& n.conns == m.conns.insert(c, n.conns[c])
    &&& forall|t: TubeId| #[trigger] m.live(t) && n.live(t) ==> n.tube(t) == m.tube(t)
    &&& forall|t: TubeId| #[trigger]
        n.live(t) && !m.live(t) ==> {
            let v = n.tube(t);
            &&& v.name == name
            &&& v.buried.len() == 0
            &&& v.waiting.items.len() == 0
            &&& v.pause == 0
            &&& v.pause_ct == 0
            &&& v.total_delete_ct == 0
            &&& v.total_jobs_ct == 0
        }
    &&& forall|t: TubeId| #[trigger] m.live(t) && !n.live(t) ==> t != 0 && !needed(n, t)
}

/// Making a tube, if there is none of that name.
proof fn lemma_made(m: Model, name: Seq<u8>)
    requires
        orderly(m),
        m.tubes.len() < usize::MAX,
    ensures
        ({
            let n = m.making_tube(name);
            let t = m.tube_for(name);
            &&& n.live(t)
            &&& n.tube(t).name == name
            &&& n.jobs == m.jobs
            &&& n.conns == m.conns
            &&& forall|u: TubeId| #[trigger] m.live(u) ==> n.live(u) && n.tube(u) == m.tube(u)
            &&& forall|u: TubeId| #[trigger]
                n.live(u) && !m.live(u) ==> u == t && n.tube(u) == TubeView::fresh(name)
            &&& (exists|u: TubeId| #[trigger] m.live(u) && m.tube(u).name == name) ==> n == m
                && m.live(t)
        }),
{
    let n = m.making_tube(name);
    let t = m.tube_for(name);
    if exists|u: TubeId| m.live(u) && m.tube(u).name == name {
        let u = choose|u: TubeId| m.live(u) && m.tube(u).name == name;
        assert(m.live(u));
    } else {
        if exists|u: TubeId| #[trigger] m.live(u) && m.tube(u).name == name {
            let u = choose|u: TubeId| #[trigger] m.live(u) && m.tube(u).name == name;
            assert(m.live(u) && m.tube(u).name == name);
        }
        if m.free.len() > 0 {
            assert(m.free.contains(m.free.last()));
            assert(!m.live(t));
        }
        assert forall|u: TubeId| #[trigger] m.live(u) implies n.live(u) && n.tube(u) == m.tube(
            u,
        ) by {
            assert(u != t);
        }
        assert forall|u: TubeId| #[trigger] n.live(u) && !m.live(u) implies u == t && n.tube(u)
            == TubeView::fresh(name) by {}
    }
}

/// use: the connection uses the tube of that name, which is made if there is
/// none; the reply names it. What it watches stays, and so does all else, but
/// that the tube it used before goes if nothing needs it.
pub proof fn use_turns_to_that_tube(
    m: Model,
    now: Nanos,
    c: ConnId,
    name: Seq<u8>,
    sys: SysSnapshot,
    out: Out,
)
    requires
        orderly(m),
        m.tubes.len() < usize::MAX,
        m.conns.contains_key(c),
    ensures
        ({
            let (n, o) = m.handle(now, c, CommandView::Use(name), sys, out);
            let t = n.conns[c].use_tube;
            &&& o == out.push((c, ResponseView::Using(name)))
            &&& n.live(t)
            &&& n.tube(t).name == name
            &&& n.conns[c] == (ConnView { use_tube: t, ..m.conns[c] })
            &&& only_turned(m, n, c, name)
            &&& one_more_long(m.ops.cmd_use, n.ops.cmd_use)
        }),
{
    let k = Model { ops: OpCounts { cmd_use: bump(m.ops.cmd_use), ..m.ops }, ..m };
    lemma_counted(m, k);
    lemma_made(k, name);
    let (n, o) = m.handle(now, c, CommandView::Use(name), sys, out);
    let x = k.making_tube(name);
    let (from, to) = (m.conns[c].use_tube, k.tube_for(name));
    assert forall|t: TubeId| #[trigger] k.live(t) == m.live(t) && k.tube(t) == m.tube(t) by {}
    if from != to {
        let y = x.with_conn(c, ConnView { use_tube: to, ..x.conns[c] });
        assert forall|t: TubeId| #[trigger] y.live(t) == x.live(t) && y.tube(t) == x.tube(t) by {}
        assert(y.conns.dom() =~= m.conns.dom());
        lemma_needed(y, from);
        assert(n.jobs == y.jobs && n.conns == y.conns);
        assert(needed(n, from) == needed(y, from)) by {
            lemma_alike_needed(y, n, from);
        }
        assert(y.live(to));
        assert(n.live(to));
        assert forall|t: TubeId| #[trigger] n.live(t) implies y.live(t) && n.tube(t) == y.tube(
            t,
        ) by {}
        assert forall|t: TubeId| #[trigger] m.live(t) && !n.live(t) implies t != 0 && !needed(
            n,
            t,
        ) by {
            assert(k.live(t));
            assert(x.live(t));
            assert(y.live(t));
            assert(t == from);
        }
    } else {
        assert(n.conns =~= m.conns.insert(c, n.conns[c]));
    }
    assert forall|t: TubeId| #[trigger] n.live(t) && !m.live(t) implies n.tube(t)
        == TubeView::fresh(name) by {
        assert(x.live(t));
    }
    assert forall|t: TubeId| #[trigger] m.live(t) && n.live(t) implies n.tube(t) == m.tube(t) by {
        assert(x.live(t));
    }
}

/// What needs a tube is told by the jobs and the connections.
proof fn lemma_alike_needed(m: Model, n: Model, t: TubeId)
    requires
        n.jobs == m.jobs,
        n.conns == m.conns,
    ensures
        needed(n, t) == needed(m, t),
{
}

/// watch: the connection watches the tube of that name too, which is made if there
/// is none, and is then listed last; the reply tells how many it watches. What it
/// uses stays, and so does all else.
pub proof fn watch_adds_that_tube(
    m: Model,
    now: Nanos,
    c: ConnId,
    name: Seq<u8>,
    sys: SysSnapshot,
    out: Out,
)
    requires
        orderly(m),
        m.tubes.len() < usize::MAX,
        m.conns.contains_key(c),
        m.conns[c].watch.items.len() < u64::MAX,
    ensures
        ({
            let (n, o) = m.handle(now, c, CommandView::Watch(name), sys, out);
            let (old, new) = (m.conns[c].watch.items, n.conns[c].watch.items);
            let watched = exists|t: TubeId| #[trigger]
                old.contains(t) && m.tube(t).name == name;
            &&& o.len() == out.len() + 1
            &&& o.last().0 == c
            &&& o.last().1 is Watching
            &&& o.last().1->Watching_0 == new.len()
            &&& out.is_prefix_of(o)
            &&& watched ==> new == old
            &&& !watched ==> new.len() == old.len() + 1 && new.drop_last() == old && n.live(
                new.last(),
            ) && n.tube(new.last()).name == name
            &&& n.conns[c].use_tube == m.conns[c].use_tube
            &&& n.conns[c].reserved == m.conns[c].reserved
            &&& n.conns[c].waiting == m.conns[c].waiting
            &&& only_turned(m, n, c, name)
            &&& forall|t: TubeId| #[trigger] m.live(t) ==> n.live(t)
            &&& if exists|t: TubeId| #[trigger] m.live(t) && m.tube(t).name == name {
                n.order == m.order
            } else {
                n.order.items.len() > 0 && n.order.items.drop_last() == m.order.items && n.tube(
                    n.order.items.last(),
                ).name == name
            }
            &&& one_more_long(m.ops.cmd_watch, n.ops.cmd_watch)
        }),
{
    let k = Model { ops: OpCounts { cmd_watch: bump(m.ops.cmd_watch), ..m.ops }, ..m };
    lemma_counted(m, k);
    lemma_made(k, name);
    let (n, o) = m.handle(now, c, CommandView::Watch(name), sys, out);
    let x = k.making_tube(name);
    let t = k.tube_for(name);
    let old = m.conns[c].watch.items;
    assert forall|u: TubeId| #[trigger] k.live(u) == m.live(u) && k.tube(u) == m.tube(u) by {}
    assert(old.contains(t) == exists|u: TubeId| #[trigger]
        old.contains(u) && m.tube(u).name == name) by {
        if exists|u: TubeId| #[trigger] old.contains(u) && m.tube(u).name == name {
            let u = choose|u: TubeId| #[trigger] old.contains(u) && m.tube(u).name == name;
            assert(m.live(u));
            assert(k.live(u));
            lemma_named(k, u);
        }
        if old.contains(t) {
            assert(m.live(t));
            assert(k.live(t));
            assert(x.tube(t) == k.tube(t));
        }
    }
    assert(n.conns =~= m.conns.insert(c, n.conns[c]));
    assert forall|u: TubeId| #[trigger] n.live(u) == x.live(u) && n.tube(u) == x.tube(u) by {}
    assert(out.is_prefix_of(o)) by {
        assert(o.take(out.len() as int) =~= out);
    }
    assert forall|u: TubeId| #[trigger] m.live(u) implies n.live(u) && n.tube(u) == m.tube(u) by {
        assert(k.live(u));
        assert(x.live(u));
    }
    assert forall|u: TubeId| #[trigger] n.live(u) && !m.live(u) implies n.tube(u)
        == TubeView::fresh(name) by {
        assert(x.live(u));
        assert(!k.live(u));
    }
    assert(n.live(t)) by {
        assert(x.live(t));
    }
    if !old.contains(t) {
        assert(n.conns[c].watch.items.drop_last() =~= old);
    }
    if exists|u: TubeId| #[trigger] m.live(u) && m.tube(u).name == name {
        let u = choose|u: TubeId| #[trigger] m.live(u) && m.tube(u).name == name;
        assert(k.live(u) && k.tube(u).name == name);
    } else {
        assert(k.tube_named(name) is None) by {
            if k.tube_named(name) is Some {
                let u = choose|u: TubeId| k.live(u) && k.tube(u).name == name;
                assert(m.live(u) && m.tube(u).name == name);
            }
        }
        assert(n.order.items.drop_last() =~= m.order.items);
        assert(n.order.items.last() == t);
    }
}

/// ignore: the connection watches the tube of that name no longer, unless it is
/// the only one that it watches, which is answered NOT_IGNORED; otherwise the
/// reply tells how many it watches. All else stays, but that the tube goes if
/// nothing needs it.
pub proof fn ignore_drops_that_tube(
    m: Model,
    now: Nanos,
    c: ConnId,
    name: Seq<u8>,
    sys: SysSnapshot,
    out: Out,
)
    requires
        orderly(m),
        m.conns.contains_key(c),
        m.conns[c].watch.items.len() <= u64::MAX,
    ensures
        ({
            let (n, o) = m.handle(now, c, CommandView::Ignore(name), sys, out);
            let (old, new) = (m.conns[c].watch.items, n.conns[c].watch.items);
            let watched = exists|t: TubeId| #[trigger]
                old.contains(t) && m.tube(t).name == name;
            &&& o.len() == out.len() + 1
            &&& o.last().0 == c
            &&& out.is_prefix_of(o)
            &&& watched && old.len() < 2 ==> o.last().1 == ResponseView::NotIgnored && new == old
            &&& !(watched && old.len() < 2) ==> o.last().1 is Watching && o.last().1->Watching_0
                == new.len()
            &&& !watched ==> new == old
            &&& watched && old.len() >= 2 ==> new.len() == old.len() - 1 && forall|t: TubeId|
                #[trigger] new.contains(t) <==> old.contains(t) && m.tube(t).name != name
            &&& n.conns[c].use_tube == m.conns[c].use_tube
            &&& n.conns[c].reserved == m.conns[c].reserved
            &&& n.conns[c].waiting == m.conns[c].waiting
            &&& only_turned(m, n, c, name)
            &&& one_more_long(m.ops.cmd_ignore, n.ops.cmd_ignore)
        }),
{
    let k = Model { ops: OpCounts { cmd_ignore: bump(m.ops.cmd_ignore), ..m.ops }, ..m };
    lemma_counted(m, k);
    let (n, o) = m.handle(now, c, CommandView::Ignore(name), sys, out);
    let v = m.conns[c];
    let old = v.watch.items;
    assert forall|u: TubeId| #[trigger] k.live(u) == m.live(u) && k.tube(u) == m.tube(u) by {}
    assert(out.is_prefix_of(o)) by {
        assert(o.take(out.len() as int) =~= out);
    }
    let watched = exists|t: TubeId| #[trigger] old.contains(t) && m.tube(t).name == name;
    if watched {
        let t = choose|t: TubeId| #[trigger] old.contains(t) && m.tube(t).name == name;
        assert(m.live(t));
        assert(k.live(t));
        lemma_named(k, t);
        if old.len() >= 2 {
            crate::ms::lemma_position(old, t);
            crate::ms::lemma_swap_remove(old, crate::ms::position(old, t));
            let y = k.with_conn(c, ConnView { watch: v.watch.remove(t), ..v });
            assert(y.conns.dom() =~= m.conns.dom());
            assert forall|u: TubeId| #[trigger] y.live(u) == m.live(u) && y.tube(u) == m.tube(
                u,
            ) by {
                assert(k.live(u) == m.live(u));
            }
            lemma_needed(y, t);
            assert(n.jobs == y.jobs && n.conns == y.conns);
            lemma_alike_needed(y, n, t);
            let new = n.conns[c].watch.items;
            assert forall|u: TubeId| #[trigger] new.contains(u) <==> old.contains(u) && m.tube(
                u,
            ).name != name by {
                assert(new.contains(u) <==> old.contains(u) && u != t);
                if old.contains(u) && m.tube(u).name == name {
                    assert(m.live(u));
                }
            }
            assert forall|u: TubeId| #[trigger] n.live(u) implies y.live(u) && n.tube(u) == y.tube(
                u,
            ) by {}
            assert forall|u: TubeId| #[trigger] m.live(u) && !n.live(u) implies u != 0 && !needed(
                n,
                u,
            ) by {
                assert(y.live(u));
                assert(u == t);
            }
            assert(n.conns =~= m.conns.insert(c, n.conns[c]));
        } else {
            assert(n.conns =~= m.conns.insert(c, n.conns[c]));
        }
    } else {
        if k.tube_named(name) is Some {
            let t = k.tube_named(name)->0;
            let u = choose|u: TubeId| k.live(u) && k.tube(u).name == name;
            assert(k.live(u) && k.tube(u).name == name);
            assert(t == u);
            assert(m.live(t) && m.tube(t).name == name);
            assert(!old.contains(t));
        }
        assert(n.conns =~= m.conns.insert(c, n.conns[c]));
    }
}

} // verus!
