//! What the commands do to jobs: which of them a command changes, into what, and
//! that it leaves all others to be handed out as ever.

use crate::api::{ConnId, EntryView, JobRecord, Nanos, RecordState, SysSnapshot, MAX_NOW};
use crate::handout::{
    awaits, best_jobs_go_first, given, handed_out, hands, is_ready, lined_up, one_more,
    one_more_long, open_at, same_put, same_rest, same_tube,
};
use crate::inv::lemma_remove_first;
use crate::model::{ConnView, JobState, JobView, TubeId, TubeView};
use crate::proto::{CommandView, JobId, ResponseView};
use crate::rules::{remove_first, Model, Out};
use crate::settle::orderly;
use vstd::prelude::*;

verus! {

/// Whether job `id` is there and connection `c` has reserved it.
pub open spec fn is_mine(m: Model, c: ConnId, id: JobId) -> bool {
    m.jobs.contains_key(id) && m.jobs[id].state == JobState::Reserved && m.jobs[id].reserver
        == Some(c)
}

/// Whether job `id` of `m` is in `n` as it was, or was ready and has been handed
/// to a connection that waited for it, out of a tube that was open.
pub open spec fn passed(m: Model, n: Model, id: JobId, now: Nanos) -> bool {
    let (a, b) = (m.jobs[id], n.jobs[id]);
    n.jobs.contains_key(id) && (b == a || (a.state == JobState::Ready && b.reserver is Some
        && awaits(m, b.reserver->0, a.tube) && open_at(m, a.tube, now) && given(
        a,
        b,
        b.reserver->0,
        now,
    )))
}

/// Whether every job of `m` but `id` is in `n` as it was or handed out, and
/// there is no other.
pub open spec fn others_passed(m: Model, n: Model, id: JobId, now: Nanos) -> bool {
    &&& forall|k: JobId| #[trigger] n.jobs.contains_key(k) ==> m.jobs.contains_key(k) || k == id
    &&& forall|k: JobId| #[trigger] m.jobs.contains_key(k) && k != id ==> passed(m, n, k, now)
}

/// Whether `b` is job `a` made ready, with nothing else changed but the counts
/// that are given: then either it stands ready, or it has been handed to a
/// connection that waited for it in `m`, out of a tube that was open.
pub open spec fn made_ready(
    m: Model,
    a: JobView,
    pri: u32,
    delay: u32,
    b: JobView,
    now: Nanos,
) -> bool {
    &&& same_put(a, b)
    &&& b.pri == pri
    &&& b.delay == delay
    &&& b.state == JobState::Ready ==> b.reserver is None && b.reserve_ct == a.reserve_ct
    &&& b.state != JobState::Ready ==> {
        &&& b.state == JobState::Reserved
        &&& b.reserver is Some
        &&& awaits(m, b.reserver->0, a.tube)
        &&& open_at(m, a.tube, now)
        &&& b.deadline_at == now + a.ttr * 1_000_000_000
        &&& one_more(a.reserve_ct, b.reserve_ct)
    }
}

/// Whether record `r` tells what job `j` is, with the state as a log knows it.
pub open spec fn tells(r: JobRecord, j: JobView, state: RecordState) -> bool {
    &&& r.id == j.id
    &&& r.pri == j.pri
    &&& r.delay == j.delay
    &&& r.ttr == j.ttr
    &&& r.created_at == j.created_at
    &&& r.state == state
    &&& r.deadline_at == (if state == RecordState::Delayed {
        j.deadline_at
    } else {
        0
    })
    &&& r.reserve_ct == j.reserve_ct
    &&& r.timeout_ct == j.timeout_ct
    &&& r.release_ct == j.release_ct
    &&& r.bury_ct == j.bury_ct
    &&& r.kick_ct == j.kick_ct
}

/// Whether from `m` to `n` one entry more is journaled: the present record of
/// job `j`; or none, where there is no journal.
pub open spec fn noted(m: Model, n: Model, j: JobView, state: RecordState) -> bool {
    if m.cfg.journal {
        &&& n.journal.len() == m.journal.len() + 1
        &&& n.journal.drop_last() == m.journal
        &&& n.journal.last() is Update
        &&& tells(n.journal.last()->Update_0, j, state)
    } else {
        n.journal == m.journal
    }
}

/// Whether nobody is left waiting for a job that is ready in an open tube.
pub open spec fn nobody_kept_waiting(n: Model, now: Nanos) -> bool {
    forall|o: JobId, c: ConnId|
        #![trigger is_ready(n, o), n.conns.contains_key(c)]
        is_ready(n, o) && open_at(n, n.jobs[o].tube, now) ==> !awaits(n, c, n.jobs[o].tube)
}

/// Whether `x` is `m` but for its jobs, for what is counted, and for who holds
/// what: the same tubes exist with the same pauses, and the same connections
/// wait for their jobs.
pub open spec fn same_stage(m: Model, x: Model) -> bool {
    &&& x.tubes.len() == m.tubes.len()
    &&& forall|t: TubeId| #[trigger] x.live(t) == m.live(t)
    &&& forall|t: TubeId| #[trigger]
        m.live(t) ==> x.tube(t).pause == m.tube(t).pause && x.tube(t).unpause_at == m.tube(
            t,
        ).unpause_at && x.tube(t).waiting == m.tube(t).waiting
    &&& x.conns.dom() == m.conns.dom()
    &&& forall|c: ConnId| #[trigger]
        m.conns.contains_key(c) ==> x.conns[c].waiting == m.conns[c].waiting && x.conns[c].watch
            == m.conns[c].watch
}

/// On the same stage the same connections wait for the same tubes, of which the
/// same are open.
pub proof fn lemma_same_stage(m: Model, x: Model, now: Nanos)
    requires
        same_stage(m, x),
    ensures
        forall|c: ConnId, t: TubeId| #[trigger] awaits(x, c, t) == awaits(m, c, t),
        forall|t: TubeId| #[trigger] open_at(x, t, now) == open_at(m, t, now),
        lined_up(m) && x.jobs.dom() == m.jobs.dom() && (forall|id: JobId| #[trigger]
            m.jobs.contains_key(id) ==> x.jobs[id].id == id && x.jobs[id].tube
                == m.jobs[id].tube) ==> lined_up(x),
{
    assert forall|c: ConnId, t: TubeId| #[trigger] awaits(x, c, t) == awaits(m, c, t) by {
        assert(x.conns.contains_key(c) == m.conns.contains_key(c));
    }
    assert forall|t: TubeId| #[trigger] open_at(x, t, now) == open_at(m, t, now) by {
        assert(x.live(t) == m.live(t));
    }
    if lined_up(m) && x.jobs.dom() == m.jobs.dom() && (forall|id: JobId| #[trigger]
        m.jobs.contains_key(id) ==> x.jobs[id].id == id && x.jobs[id].tube == m.jobs[id].tube) {
        assert forall|t: TubeId, c: ConnId| x.live(t) implies (#[trigger] x.tube(
            t,
        ).waiting.items.contains(c) <==> awaits(x, c, t)) by {
            assert(m.live(t));
            assert(m.tube(t).waiting.items.contains(c) <==> awaits(m, c, t));
        }
        assert forall|t: TubeId| #[trigger] x.live(t) implies x.tube(
            t,
        ).waiting.items.no_duplicates() by {
            assert(m.live(t));
        }
        assert forall|id: JobId| #[trigger] x.jobs.contains_key(id) implies x.jobs[id].id == id
            && x.live(x.jobs[id].tube) by {
            assert(m.jobs.contains_key(id));
            assert(m.live(m.jobs[id].tube));
        }
    }
}

/// Whether the lists tell where the jobs are: those buried in a tube, those that
/// a connection holds, and who waits.
pub open spec fn well_kept(m: Model) -> bool {
    &&& lined_up(m)
    &&& forall|id: JobId| #[trigger]
        m.jobs.contains_key(id) ==> {
            let j = m.jobs[id];
            &&& j.ttr >= 1
            &&& j.state == JobState::Reserved <==> j.reserver is Some
            &&& j.reserver is Some ==> m.conns.contains_key(j.reserver->0)
        }
    &&& forall|t: TubeId| #[trigger] m.live(t) ==> m.tube(t).buried.no_duplicates()
    &&& forall|t: TubeId, id: JobId|
        m.live(t) ==> (#[trigger] m.tube(t).buried.contains(id) <==> m.jobs.contains_key(id)
            && m.jobs[id].state == JobState::Buried && m.jobs[id].tube == t)
    &&& forall|c: ConnId| #[trigger] m.conns.contains_key(c) ==> m.conns[c].reserved.no_duplicates()
    &&& forall|c: ConnId, id: JobId|
        m.conns.contains_key(c) ==> (#[trigger] m.conns[c].reserved.contains(id) <==> is_mine(
            m,
            c,
            id,
        ))
}

/// What is in order is well kept.
pub proof fn lemma_orderly_well_kept(m: Model)
    requires
        orderly(m),
    ensures
        well_kept(m),
{
    assert forall|c: ConnId, id: JobId|
        m.conns.contains_key(c) implies (#[trigger] m.conns[c].reserved.contains(id) <==> is_mine(
        m,
        c,
        id,
    )) by {}
}

/// Handing out jobs keeps the lists.
pub proof fn lemma_handed_well_kept(a: Model, before: Out, b: Model, out: Out, now: Nanos)
    requires
        well_kept(a),
        handed_out(a, before, b, out, now),
        lined_up(b),
    ensures
        well_kept(b),
{
    lemma_passed(a, before, b, out, now);
    assert forall|id: JobId| #[trigger] b.jobs.contains_key(id) implies ({
        let j = b.jobs[id];
        &&& j.ttr >= 1
        &&& j.state == JobState::Reserved <==> j.reserver is Some
        &&& j.reserver is Some ==> b.conns.contains_key(j.reserver->0)
    }) by {
        assert(a.jobs.dom().contains(id));
        assert(passed(a, b, id, now));
        if b.jobs[id].reserver is Some {
            assert(a.conns.contains_key(b.jobs[id].reserver->0));
            assert(b.conns.dom().contains(b.jobs[id].reserver->0));
        }
    }
    assert forall|t: TubeId, id: JobId|
        b.live(t) implies (#[trigger] b.tube(t).buried.contains(id) <==> b.jobs.contains_key(id)
        && b.jobs[id].state == JobState::Buried && b.jobs[id].tube == t) by {
        assert(a.live(t));
        assert(a.tube(t).buried.contains(id) <==> a.jobs.contains_key(id) && a.jobs[id].state
            == JobState::Buried && a.jobs[id].tube == t);
        assert(a.jobs.dom().contains(id) == b.jobs.dom().contains(id));
        if a.jobs.contains_key(id) {
            assert(passed(a, b, id, now));
        }
    }
    assert forall|t: TubeId| #[trigger] b.live(t) implies b.tube(t).buried.no_duplicates() by {
        assert(a.live(t));
    }
    assert forall|c: ConnId| #[trigger] b.conns.contains_key(c) implies b.conns[c].reserved.no_duplicates()
        && forall|id: JobId| #[trigger]
        b.conns[c].reserved.contains(id) <==> is_mine(b, c, id) by {
        assert(a.conns.dom().contains(c));
        let r = a.conns[c].reserved;
        if b.conns[c] == a.conns[c] {
            assert forall|id: JobId| #[trigger]
                b.conns[c].reserved.contains(id) <==> is_mine(b, c, id) by {
                assert(r.contains(id) <==> is_mine(a, c, id));
                if a.jobs.contains_key(id) {
                    assert(passed(a, b, id, now));
                    if b.jobs[id] != a.jobs[id] {
                        let i = choose|i: int|
                            before.len() <= i < out.len() && (#[trigger] out[i]).1->Reserved_id
                                == id;
                        assert(hands(a, b, out[i], now));
                    }
                } else {
                    assert(!b.jobs.dom().contains(id));
                }
            }
        } else {
            let i = choose|i: int| before.len() <= i < out.len() && (#[trigger] out[i]).0 == c;
            assert(hands(a, b, out[i], now));
            let new = out[i].1->Reserved_id;
            assert(r.contains(new) <==> is_mine(a, c, new));
            assert(b.conns[c].reserved == r.push(new));
            assert forall|id: JobId| #[trigger]
                b.conns[c].reserved.contains(id) <==> is_mine(b, c, id) by {
                assert(r.contains(id) <==> is_mine(a, c, id));
                assert(r.push(new).contains(id) <==> r.contains(id) || id == new) by {
                    if r.contains(id) {
                        assert(r.push(new)[r.index_of(id)] == id);
                    }
                    assert(r.push(new)[r.len() as int] == new);
                    if r.push(new).contains(id) && id != new {
                        assert(r[r.push(new).index_of(id)] == id);
                    }
                }
                if a.jobs.contains_key(id) {
                    assert(passed(a, b, id, now));
                    if b.jobs[id] != a.jobs[id] && id != new {
                        let k = choose|k: int|
                            before.len() <= k < out.len() && (#[trigger] out[k]).1->Reserved_id
                                == id;
                        assert(hands(a, b, out[k], now));
                        if out[k].0 == c {
                            assert(r.push(new).last() == r.push(id).last());
                        }
                    }
                } else {
                    assert(!b.jobs.dom().contains(id));
                }
            }
        }
    }
}

/// Taking an entry out of a list that has it once.
pub proof fn lemma_taken_out(s: Seq<JobId>, x: JobId)
    requires
        s.no_duplicates(),
    ensures
        remove_first(s, x).no_duplicates(),
        forall|y: JobId| #[trigger]
            remove_first(s, x).contains(y) <==> s.contains(y) && y != x,
{
    if s.contains(x) {
        lemma_remove_first(s, x);
    }
}

/// Adding an entry to a list that lacks it.
pub proof fn lemma_added(s: Seq<JobId>, x: JobId)
    requires
        s.no_duplicates(),
        !s.contains(x),
    ensures
        s.push(x).no_duplicates(),
        forall|y: JobId| #[trigger] s.push(x).contains(y) <==> s.contains(y) || y == x,
{
    assert forall|y: JobId| #[trigger] s.push(x).contains(y) <==> s.contains(y) || y == x by {
        if s.contains(y) {
            assert(s.push(x)[s.index_of(y)] == y);
        }
        assert(s.push(x)[s.len() as int] == x);
        if s.push(x).contains(y) && y != x {
            assert(s[s.push(x).index_of(y)] == y);
        }
    }
}

/// A job changes its state: nothing else changes but the lists of those that
/// hold it.
pub proof fn lemma_moved(m: Model, j: JobView)
    requires
        well_kept(m),
        j.ttr >= 1,
        j.reserver is None,
        m.jobs.contains_key(j.id),
        j.tube == m.jobs[j.id].tube,
        j.state != JobState::Reserved,
    ensures
        ({
            let x = m.without_job(j.id).with_job(j);
            &&& x.jobs == m.jobs.insert(j.id, j)
            &&& same_stage(m, x)
            &&& same_rest(m, x)
            &&& well_kept(x)
            &&& forall|c: ConnId| #[trigger]
                m.conns.contains_key(c) ==> x.conns[c] == (ConnView {
                    reserved: x.conns[c].reserved,
                    ..m.conns[c]
                })
            &&& forall|c: ConnId| #[trigger]
                m.conns.contains_key(c) ==> x.conns[c].reserved == (if is_mine(m, c, j.id) {
                    remove_first(m.conns[c].reserved, j.id)
                } else {
                    m.conns[c].reserved
                })
            &&& forall|t: TubeId| #[trigger]
                m.live(t) ==> x.tube(t) == (TubeView { buried: x.tube(t).buried, ..m.tube(t) })
            &&& forall|t: TubeId| #[trigger]
                m.live(t) && t != j.tube ==> x.tube(t).buried == m.tube(t).buried
            &&& x.tube(j.tube).buried == ({
                let rest = if m.jobs[j.id].state == JobState::Buried {
                    remove_first(m.tube(j.tube).buried, j.id)
                } else {
                    m.tube(j.tube).buried
                };
                if j.state == JobState::Buried {
                    rest.push(j.id)
                } else {
                    rest
                }
            })
        }),
{
    let id = j.id;
    let x = m.without_job(id).with_job(j);
    assert(x.jobs =~= m.jobs.insert(id, j));
    assert(x.conns.dom() =~= m.conns.dom());
    assert(x.jobs.dom() =~= m.jobs.dom());
    assert(m.live(j.tube));
    assert forall|t: TubeId| #[trigger] x.live(t) == m.live(t) by {}
    lemma_same_stage(m, x, 0);
    let b0 = m.tube(j.tube).buried;
    lemma_taken_out(b0, id);
    let rest = if m.jobs[id].state == JobState::Buried {
        remove_first(b0, id)
    } else {
        b0
    };
    assert(b0.contains(id) <==> m.jobs[id].state == JobState::Buried);
    assert(!rest.contains(id));
    if j.state == JobState::Buried {
        lemma_added(rest, id);
    }
    assert forall|t: TubeId| #[trigger] x.live(t) implies x.tube(t).buried.no_duplicates() by {
        assert(m.live(t));
    }
    assert forall|t: TubeId, k: JobId|
        x.live(t) implies (#[trigger] x.tube(t).buried.contains(k) <==> x.jobs.contains_key(k)
        && x.jobs[k].state == JobState::Buried && x.jobs[k].tube == t) by {
        assert(m.live(t));
        assert(m.tube(t).buried.contains(k) <==> m.jobs.contains_key(k) && m.jobs[k].state
            == JobState::Buried && m.jobs[k].tube == t);
    }
    assert forall|c: ConnId| #[trigger] x.conns.contains_key(c) implies x.conns[c].reserved.no_duplicates()
        && forall|k: JobId| #[trigger]
        x.conns[c].reserved.contains(k) <==> is_mine(x, c, k) by {
        assert(m.conns.contains_key(c));
        lemma_taken_out(m.conns[c].reserved, id);
        assert forall|k: JobId| #[trigger]
            x.conns[c].reserved.contains(k) <==> is_mine(x, c, k) by {
            assert(m.conns[c].reserved.contains(k) <==> is_mine(m, c, k));
        }
    }
    assert forall|k: JobId| #[trigger] x.jobs.contains_key(k) implies ({
        let v = x.jobs[k];
        &&& v.ttr >= 1
        &&& v.state == JobState::Reserved <==> v.reserver is Some
        &&& v.reserver is Some ==> x.conns.contains_key(v.reserver->0)
    }) by {
        assert(m.jobs.contains_key(k));
    }
}

/// After jobs are handed out, each job is as it was or handed out.
pub proof fn lemma_passed(a: Model, before: Out, b: Model, out: Out, now: Nanos)
    requires
        handed_out(a, before, b, out, now),
    ensures
        forall|k: JobId| #[trigger] a.jobs.contains_key(k) ==> passed(a, b, k, now),
        nobody_kept_waiting(b, now),
{
    assert forall|k: JobId| #[trigger] a.jobs.contains_key(k) implies passed(a, b, k, now) by {
        assert(b.jobs.dom().contains(k));
        if b.jobs[k] != a.jobs[k] {
            let i = choose|i: int|
                before.len() <= i < out.len() && (#[trigger] out[i]).1->Reserved_id == k;
            assert(hands(a, b, out[i], now));
        }
    }
}

/// From a stage on which one job has been changed, jobs are handed out: the
/// others are passed on.
proof fn lemma_others(m: Model, x: Model, n: Model, id: JobId, now: Nanos)
    requires
        same_stage(m, x),
        x.jobs == m.jobs.insert(id, x.jobs[id]),
        n.jobs.dom() == x.jobs.dom(),
        forall|k: JobId| #[trigger] x.jobs.contains_key(k) ==> passed(x, n, k, now),
    ensures
        others_passed(m, n, id, now),
        x.jobs[id].state == JobState::Ready ==> made_ready(
            m,
            x.jobs[id],
            x.jobs[id].pri,
            x.jobs[id].delay,
            n.jobs[id],
            now,
        ) || x.jobs[id].reserver is Some,
        x.jobs[id].state != JobState::Ready ==> n.jobs[id] == x.jobs[id],
{
    lemma_same_stage(m, x, now);
    assert forall|k: JobId| #[trigger] m.jobs.contains_key(k) && k != id implies passed(
        m,
        n,
        k,
        now,
    ) by {
        assert(x.jobs.contains_key(k));
        assert(passed(x, n, k, now));
        assert(x.jobs[k] == m.jobs[k]);
    }
    assert forall|k: JobId| #[trigger] n.jobs.contains_key(k) implies m.jobs.contains_key(k) || k
        == id by {
        assert(x.jobs.dom().contains(k));
    }
    assert(x.jobs.contains_key(id));
    assert(passed(x, n, id, now));
}

/// release: answered RELEASED exactly if the connection had reserved the job.
/// The job then has the priority and the delay that were given, whatever they
/// are, and one release more is counted. With a delay it waits until that many
/// seconds are over; without one it is ready, or with whoever waited for it. The
/// other jobs are left as they are but for being handed out.
pub proof fn release_gives_back(
    m: Model,
    now: Nanos,
    c: ConnId,
    id: JobId,
    pri: u32,
    delay: u32,
    sys: SysSnapshot,
    out: Out,
)
    requires
        orderly(m),
        now <= MAX_NOW,
        m.conns.contains_key(c),
    ensures
        ({
            let (n, o) = m.handle(now, c, CommandView::Release { id, pri, delay }, sys, out);
            let (a, b) = (m.jobs[id], n.jobs[id]);
            &&& o.len() > 0
            &&& o.last() == (c, if is_mine(m, c, id) {
                ResponseView::Released
            } else {
                ResponseView::NotFound
            })
            &&& one_more_long(m.ops.cmd_release, n.ops.cmd_release)
            &&& is_mine(m, c, id) ==> {
                &&& n.jobs.contains_key(id)
                &&& same_put(a, b)
                &&& b.pri == pri
                &&& b.delay == delay
                &&& one_more(a.release_ct, b.release_ct)
                &&& b.timeout_ct == a.timeout_ct
                &&& b.bury_ct == a.bury_ct
                &&& b.kick_ct == a.kick_ct
                &&& delay > 0 ==> b.state == JobState::Delayed && b.reserver is None
                    && b.reserve_ct == a.reserve_ct && b.deadline_at == now + delay * 1_000_000_000
                &&& delay == 0 ==> made_ready(m, a, pri, delay, b, now)
                &&& others_passed(m, n, id, now)
                &&& nobody_kept_waiting(n, now)
                &&& if delay > 0 {
                    noted(m, n, b, RecordState::Delayed)
                } else {
                    n.journal == m.journal
                }
            }
            &&& !is_mine(m, c, id) ==> n.jobs == m.jobs && n.tubes == m.tubes && n.conns == m.conns
                && n.journal == m.journal
        }),
{
    let (n, o) = m.handle(now, c, CommandView::Release { id, pri, delay }, sys, out);
    if is_mine(m, c, id) {
        let m1 = Model {
            ops: crate::rules::OpCounts {
                cmd_release: crate::rules::bump(m.ops.cmd_release),
                ..m.ops
            },
            ..m
        };
        assert(orderly(m1)) by {
            lemma_counted(m, m1);
        }
        assert(0 <= delay * 1_000_000_000 <= 0xffff_ffff * 1_000_000_000) by (nonlinear_arith)
            requires
                0 <= delay <= 0xffff_ffff,
        ;
        let j = JobView {
            pri,
            delay,
            reserver: None,
            release_ct: crate::rules::bump32(m.jobs[id].release_ct),
            state: if delay > 0 {
                JobState::Delayed
            } else {
                JobState::Ready
            },
            deadline_at: if delay > 0 {
                crate::rules::later(now, delay)
            } else {
                m.jobs[id].deadline_at
            },
            ..m.jobs[id]
        };
        lemma_orderly_well_kept(m1);
        lemma_moved(m1, j);
        let x = m1.without_job(id).with_job(j);
        let y = if delay > 0 {
            x.journaling_update(id)
        } else {
            x
        };
        assert(o.drop_last() =~= y.process_queue(now, out).1);
        lemma_same_stage(x, y, now);
        lemma_same_stage(m, y, now);
        best_jobs_go_first(y, now, out);
        lemma_passed(y, out, n, o.drop_last(), now);
        lemma_others(m, y, n, id, now);
        assert(n.journal.drop_last() =~= m.journal || n.journal == m.journal);
    }
}

/// Whether anything is in order does not depend on what is counted.
pub proof fn lemma_counted(m: Model, n: Model)
    requires
        orderly(m),
        n.jobs == m.jobs,
        n.tubes == m.tubes,
        n.conns == m.conns,
        n.order == m.order,
        n.free == m.free,
        n.next_job_id == m.next_job_id,
    ensures
        orderly(n),
{
    assert forall|t: TubeId| #[trigger] n.live(t) == m.live(t) && n.tube(t) == m.tube(t) by {}
    assert forall|t: TubeId, id: JobId|
        n.live(t) implies (#[trigger] n.tube(t).buried.contains(id) <==> n.jobs.contains_key(id)
        && n.jobs[id].state == JobState::Buried && n.jobs[id].tube == t) by {
        assert(m.live(t));
        assert(m.tube(t).buried.contains(id) == n.tube(t).buried.contains(id));
    }
    assert forall|t: TubeId, c: ConnId|
        n.live(t) implies (#[trigger] n.tube(t).waiting.items.contains(c) <==> n.conns.contains_key(
        c,
    ) && n.conns[c].waiting && n.conns[c].watch.items.contains(t)) by {
        assert(m.live(t));
        assert(m.tube(t).waiting.items.contains(c) == n.tube(t).waiting.items.contains(c));
    }
    assert forall|t: TubeId| #[trigger] n.order.items.contains(t) <==> n.live(t) by {
        assert(m.order.items.contains(t) <==> m.live(t));
    }
    assert forall|t: TubeId| #[trigger] n.free.contains(t) <==> t < n.tubes.len() && !n.live(
        t,
    ) by {
        assert(m.free.contains(t) == n.free.contains(t));
    }
    assert forall|t: TubeId| #[trigger] n.live(t) implies n.tube(t).buried.no_duplicates()
        && n.tube(t).waiting.items.no_duplicates() by {
        assert(m.live(t));
    }
    assert forall|c: ConnId| #[trigger] n.conns.contains_key(c) implies forall|t: TubeId|
        #[trigger] n.conns[c].watch.items.contains(t) ==> n.live(t) by {
        assert(m.conns.contains_key(c));
        assert forall|t: TubeId| #[trigger] n.conns[c].watch.items.contains(t) implies n.live(t) by {
            assert(m.conns[c].watch.items.contains(t));
            assert(m.live(t));
        }
    }
}

/// Whether `new` is `old` without the entry that is `x`, if it has one.
pub open spec fn struck<T>(old: Seq<T>, new: Seq<T>, x: T) -> bool {
    &&& !old.contains(x) ==> new == old
    &&& forall|i: int| 0 <= i < old.len() && #[trigger] old[i] == x ==> new == old.remove(i)
}

/// Taking out the first entry strikes it where it stands once.
pub proof fn lemma_struck(s: Seq<JobId>, x: JobId)
    requires
        s.no_duplicates(),
    ensures
        struck(s, remove_first(s, x), x),
        !remove_first(s, x).contains(x),
{
    crate::ms::lemma_position(s, x);
    if s.contains(x) {
        lemma_remove_first(s, x);
    }
    assert forall|i: int| 0 <= i < s.len() && #[trigger] s[i] == x implies remove_first(s, x)
        == s.remove(i) by {
        assert(s.contains(x));
        assert(i == crate::ms::position(s, x));
    }
}

/// bury: answered BURIED exactly if the connection had reserved the job. The job
/// is then buried, last in its tube, with the priority that was given, and one
/// burying more is counted. Nothing else changes.
pub proof fn bury_puts_aside(
    m: Model,
    now: Nanos,
    c: ConnId,
    id: JobId,
    pri: u32,
    sys: SysSnapshot,
    out: Out,
)
    requires
        orderly(m),
        m.conns.contains_key(c),
    ensures
        ({
            let (n, o) = m.handle(now, c, CommandView::Bury { id, pri }, sys, out);
            let (a, b) = (m.jobs[id], n.jobs[id]);
            &&& o == out.push((c, if is_mine(m, c, id) {
                ResponseView::Buried
            } else {
                ResponseView::NotFound
            }))
            &&& one_more_long(m.ops.cmd_bury, n.ops.cmd_bury)
            &&& is_mine(m, c, id) ==> {
                &&& n.jobs == m.jobs.insert(id, b)
                &&& same_put(a, b)
                &&& b.state == JobState::Buried
                &&& b.reserver is None
                &&& b.pri == pri
                &&& one_more(a.bury_ct, b.bury_ct)
                &&& b.delay == a.delay
                &&& b.reserve_ct == a.reserve_ct
                &&& b.timeout_ct == a.timeout_ct
                &&& b.release_ct == a.release_ct
                &&& b.kick_ct == a.kick_ct
                &&& n.tube(a.tube) == (TubeView {
                    buried: m.tube(a.tube).buried.push(id),
                    ..m.tube(a.tube)
                })
                &&& n.tubes == m.tubes.update(a.tube as int, Some(n.tube(a.tube)))
                &&& struck(m.conns[c].reserved, n.conns[c].reserved, id)
                &&& n.conns == m.conns.insert(
                    c,
                    ConnView { reserved: n.conns[c].reserved, ..m.conns[c] },
                )
                &&& noted(m, n, b, RecordState::Buried)
            }
            &&& !is_mine(m, c, id) ==> n.jobs == m.jobs && n.tubes == m.tubes && n.conns == m.conns
                && n.journal == m.journal
        }),
{
    let (n, o) = m.handle(now, c, CommandView::Bury { id, pri }, sys, out);
    if is_mine(m, c, id) {
        lemma_struck(m.conns[c].reserved, id);
        assert(n.jobs =~= m.jobs.insert(id, n.jobs[id]));
        assert(n.conns =~= m.conns.insert(
            c,
            ConnView { reserved: n.conns[c].reserved, ..m.conns[c] },
        ));
        assert(m.live(m.jobs[id].tube));
        assert(n.journal.drop_last() =~= m.journal || n.journal == m.journal);
    }
}

/// touch: answered TOUCHED exactly if the connection has reserved the job. Its
/// reservation then ends when its time to run has passed from now on. Nothing
/// else changes.
pub proof fn touch_begins_anew(
    m: Model,
    now: Nanos,
    c: ConnId,
    id: JobId,
    sys: SysSnapshot,
    out: Out,
)
    requires
        orderly(m),
        now <= MAX_NOW,
        m.conns.contains_key(c),
    ensures
        ({
            let (n, o) = m.handle(now, c, CommandView::Touch(id), sys, out);
            let a = m.jobs[id];
            &&& o == out.push((c, if is_mine(m, c, id) {
                ResponseView::Touched
            } else {
                ResponseView::NotFound
            }))
            &&& one_more_long(m.ops.cmd_touch, n.ops.cmd_touch)
            &&& is_mine(m, c, id) ==> n.jobs[id].deadline_at == now + a.ttr * 1_000_000_000
                && n.jobs == m.jobs.insert(
                id,
                JobView { deadline_at: n.jobs[id].deadline_at, ..a },
            )
            &&& !is_mine(m, c, id) ==> n.jobs == m.jobs
            &&& n.tubes == m.tubes
            &&& n.conns == m.conns
            &&& n.journal == m.journal
        }),
{
    let a = m.jobs[id];
    assert(0 <= a.ttr * 1_000_000_000 <= 0xffff_ffff * 1_000_000_000) by (nonlinear_arith)
        requires
            0 <= a.ttr <= 0xffff_ffff,
    ;
}

/// A tube is found by its name.
pub proof fn lemma_named(m: Model, t: TubeId)
    requires
        orderly(m),
        m.live(t),
    ensures
        m.tube_named(m.tube(t).name) == Some(t),
{
    let name = m.tube(t).name;
    assert(exists|u: TubeId| m.live(u) && m.tube(u).name == name);
    let u = choose|u: TubeId| m.live(u) && m.tube(u).name == name;
    assert(m.live(u));
}

/// pause-tube: answered PAUSED exactly if there is a tube of that name. Its pause
/// then ends that many seconds from now, or a nanosecond from now for 0 seconds,
/// whether or not it was paused before. Nothing else changes.
pub proof fn pause_lasts_from_now(
    m: Model,
    now: Nanos,
    c: ConnId,
    name: Seq<u8>,
    delay: u32,
    sys: SysSnapshot,
    out: Out,
)
    requires
        orderly(m),
        now <= MAX_NOW,
        m.conns.contains_key(c),
    ensures
        ({
            let (n, o) = m.handle(
                now,
                c,
                CommandView::PauseTube { tube: name, delay },
                sys,
                out,
            );
            &&& forall|t: TubeId| #[trigger]
                m.live(t) && m.tube(t).name == name ==> {
                    &&& o == out.push((c, ResponseView::Paused))
                    &&& n.tube(t).unpause_at == now + (if delay == 0 {
                        1
                    } else {
                        delay * 1_000_000_000
                    })
                    &&& n.tube(t).pause == n.tube(t).unpause_at - now
                    &&& one_more_long(m.tube(t).pause_ct, n.tube(t).pause_ct)
                    &&& n.tubes == m.tubes.update(
                        t as int,
                        Some(
                            TubeView {
                                pause: n.tube(t).pause,
                                unpause_at: n.tube(t).unpause_at,
                                pause_ct: n.tube(t).pause_ct,
                                ..m.tube(t)
                            },
                        ),
                    )
                }
            &&& (forall|t: TubeId| #[trigger] m.live(t) ==> m.tube(t).name != name) ==> o
                == out.push((c, ResponseView::NotFound)) && n.tubes == m.tubes
            &&& one_more_long(m.ops.cmd_pause_tube, n.ops.cmd_pause_tube)
            &&& n.jobs == m.jobs
            &&& n.conns == m.conns
            &&& n.journal == m.journal
        }),
{
    assert(0 <= delay * 1_000_000_000 <= 0xffff_ffff * 1_000_000_000) by (nonlinear_arith)
        requires
            0 <= delay <= 0xffff_ffff,
    ;
    let (n, o) = m.handle(now, c, CommandView::PauseTube { tube: name, delay }, sys, out);
    let k = Model {
        ops: crate::rules::OpCounts {
            cmd_pause_tube: crate::rules::bump(m.ops.cmd_pause_tube),
            ..m.ops
        },
        ..m
    };
    lemma_counted(m, k);
    assert forall|t: TubeId| #[trigger] m.live(t) && m.tube(t).name == name implies k.tube_named(
        name,
    ) == Some(t) && n.tubes == m.tubes.update(
        t as int,
        Some(
            TubeView {
                pause: n.tube(t).pause,
                unpause_at: n.tube(t).unpause_at,
                pause_ct: n.tube(t).pause_ct,
                ..m.tube(t)
            },
        ),
    ) by {
        lemma_named(k, t);
    }
    if forall|t: TubeId| #[trigger] m.live(t) ==> m.tube(t).name != name {
        assert forall|t: TubeId| !(k.live(t) && k.tube(t).name == name) by {
            assert(m.live(t) == k.live(t));
        }
        assert(k.tube_named(name) is None);
    }
}

/// kick-job: answered KICKED exactly if the job is buried or delayed. It is then
/// ready, or with whoever waited for it, and one kick more is counted. The other
/// jobs are left as they are but for being handed out.
pub proof fn kick_job_makes_ready(
    m: Model,
    now: Nanos,
    c: ConnId,
    id: JobId,
    sys: SysSnapshot,
    out: Out,
)
    requires
        orderly(m),
        now <= MAX_NOW,
        m.conns.contains_key(c),
    ensures
        ({
            let (n, o) = m.handle(now, c, CommandView::KickJob(id), sys, out);
            let (a, b) = (m.jobs[id], n.jobs[id]);
            let kicks = m.jobs.contains_key(id) && (a.state == JobState::Buried || a.state
                == JobState::Delayed);
            &&& o.len() > 0
            &&& o.last() == (c, if kicks {
                ResponseView::KickedJob
            } else {
                ResponseView::NotFound
            })
            &&& kicks ==> {
                &&& n.jobs.contains_key(id)
                &&& made_ready(m, a, a.pri, a.delay, b, now)
                &&& one_more(a.kick_ct, b.kick_ct)
                &&& b.timeout_ct == a.timeout_ct
                &&& b.release_ct == a.release_ct
                &&& b.bury_ct == a.bury_ct
                &&& others_passed(m, n, id, now)
                &&& struck(m.tube(a.tube).buried, n.tube(a.tube).buried, id)
                &&& nobody_kept_waiting(n, now)
                &&& noted(m, n, JobView { kick_ct: b.kick_ct, ..a }, RecordState::Ready)
            }
            &&& !kicks ==> n == m
        }),
{
    let a = m.jobs[id];
    if m.jobs.contains_key(id) && (a.state == JobState::Buried || a.state == JobState::Delayed) {
        lemma_orderly_well_kept(m);
        lemma_kicked(m, id, now, out);
    }
}

/// What is counted or journaled is no matter to the lists.
pub proof fn lemma_also_kept(x: Model, y: Model)
    requires
        well_kept(x),
        y.jobs == x.jobs,
        y.tubes == x.tubes,
        y.conns == x.conns,
    ensures
        well_kept(y),
{
    assert forall|t: TubeId| #[trigger] y.live(t) == x.live(t) && y.tube(t) == x.tube(t) by {}
    lemma_same_stage(x, y, 0);
    assert forall|t: TubeId| #[trigger] y.live(t) implies y.tube(t).buried.no_duplicates() by {
        assert(x.live(t));
    }
    assert forall|t: TubeId, k: JobId|
        y.live(t) implies (#[trigger] y.tube(t).buried.contains(k) <==> y.jobs.contains_key(k)
        && y.jobs[k].state == JobState::Buried && y.jobs[k].tube == t) by {
        assert(x.live(t));
        assert(x.tube(t).buried.contains(k) == y.tube(t).buried.contains(k));
    }
    assert forall|c: ConnId, k: JobId|
        y.conns.contains_key(c) implies (#[trigger] y.conns[c].reserved.contains(k) <==> is_mine(
        y,
        c,
        k,
    )) by {
        assert(x.conns[c].reserved.contains(k) <==> is_mine(x, c, k));
    }
}

/// Whether whoever waits in `n` waits in `m` for the same tubes, and every tube
/// that is open in `n` at `now` is so in `m`.
pub open spec fn less_awaited(m: Model, n: Model, now: Nanos) -> bool {
    &&& forall|c: ConnId, t: TubeId| #[trigger] awaits(n, c, t) ==> awaits(m, c, t)
    &&& forall|t: TubeId| #[trigger] n.live(t) == m.live(t)
    &&& forall|t: TubeId| #[trigger] open_at(n, t, now) == open_at(m, t, now)
}

/// Handing out jobs leaves fewer that wait.
pub proof fn lemma_less_awaited(m: Model, y: Model, n: Model, before: Out, out: Out, now: Nanos)
    requires
        same_stage(m, y),
        handed_out(y, before, n, out, now),
    ensures
        less_awaited(m, n, now),
{
    lemma_same_stage(m, y, now);
    assert forall|c: ConnId, t: TubeId| #[trigger] awaits(n, c, t) implies awaits(m, c, t) by {
        assert(y.conns.dom().contains(c));
        if n.conns[c] != y.conns[c] {
            let i = choose|i: int| before.len() <= i < out.len() && (#[trigger] out[i]).0 == c;
            assert(hands(y, n, out[i], now));
        }
        assert(awaits(y, c, t));
    }
    assert forall|t: TubeId| #[trigger] n.live(t) == m.live(t) by {
        assert(n.live(t) == y.live(t));
        assert(y.live(t) == m.live(t));
    }
    assert forall|t: TubeId| #[trigger] open_at(n, t, now) == open_at(m, t, now) by {
        assert(n.live(t) == y.live(t));
        assert(y.live(t) == m.live(t));
        assert(open_at(y, t, now) == open_at(m, t, now));
        if y.live(t) {
            assert(same_tube(y.tube(t), n.tube(t), now));
        }
    }
}

/// A job is kicked.
pub proof fn lemma_kicked(m: Model, id: JobId, now: Nanos, out: Out)
    requires
        well_kept(m),
        now <= MAX_NOW,
        m.jobs.contains_key(id),
        m.jobs[id].state == JobState::Buried || m.jobs[id].state == JobState::Delayed,
    ensures
        ({
            let (n, o) = m.kicking(id, now, out);
            let (a, b) = (m.jobs[id], n.jobs[id]);
            &&& n.jobs.contains_key(id)
            &&& n.jobs.dom() == m.jobs.dom()
            &&& made_ready(m, a, a.pri, a.delay, b, now)
            &&& one_more(a.kick_ct, b.kick_ct)
            &&& b.timeout_ct == a.timeout_ct
            &&& b.release_ct == a.release_ct
            &&& b.bury_ct == a.bury_ct
            &&& others_passed(m, n, id, now)
            &&& nobody_kept_waiting(n, now)
            &&& struck(m.tube(a.tube).buried, n.tube(a.tube).buried, id)
            &&& n.tube(a.tube).buried == remove_first(m.tube(a.tube).buried, id)
            &&& well_kept(n)
            &&& less_awaited(m, n, now)
            &&& n.ops == m.ops
            &&& noted(m, n, JobView { kick_ct: b.kick_ct, ..a }, RecordState::Ready)
            &&& forall|t: TubeId| #[trigger]
                m.live(t) && t != a.tube ==> n.tube(t).buried == m.tube(t).buried
        }),
{
    let a = m.jobs[id];
    let j = JobView {
        state: JobState::Ready,
        reserver: None,
        kick_ct: crate::rules::bump32(a.kick_ct),
        ..a
    };
    lemma_moved(m, j);
    let x = m.without_job(id).with_job(j);
    let y = x.journaling_update(id);
    let (n, o) = m.kicking(id, now, out);
    lemma_same_stage(x, y, now);
    lemma_same_stage(m, y, now);
    best_jobs_go_first(y, now, out);
    lemma_passed(y, out, n, o, now);
    lemma_others(m, y, n, id, now);
    lemma_also_kept(x, y);
    lemma_handed_well_kept(y, out, n, o, now);
    lemma_less_awaited(m, y, n, out, o, now);
    let t = a.tube;
    assert(m.live(t));
    assert(y.live(t));
    lemma_struck(m.tube(t).buried, id);
    assert(m.tube(t).buried.contains(id) <==> a.state == JobState::Buried);
    assert(n.journal.drop_last() =~= m.journal || n.journal == m.journal);
    assert forall|u: TubeId| #[trigger] m.live(u) && u != t implies n.tube(u).buried == m.tube(
        u,
    ).buried by {
        assert(y.live(u));
    }
}

/// reserve-job: answered RESERVED, with the job's body, exactly if the job is
/// there and nobody has reserved it: whatever its state and its tube. It is then
/// the connection's for its time to run. Nothing else changes.
pub proof fn reserve_job_takes_that_one(
    m: Model,
    now: Nanos,
    c: ConnId,
    id: JobId,
    sys: SysSnapshot,
    out: Out,
)
    requires
        orderly(m),
        now <= MAX_NOW,
        m.conns.contains_key(c),
    ensures
        ({
            let (n, o) = m.handle(now, c, CommandView::ReserveJob(id), sys, out);
            let (a, b) = (m.jobs[id], n.jobs[id]);
            let takes = m.jobs.contains_key(id) && a.state != JobState::Reserved;
            &&& o == out.push((c, if takes {
                ResponseView::Reserved { id, body: a.body }
            } else {
                ResponseView::NotFound
            }))
            &&& takes ==> {
                &&& n.jobs == m.jobs.insert(id, b)
                &&& given(a, b, c, now)
                &&& n.conns == m.conns.insert(
                    c,
                    ConnView {
                        reserved: m.conns[c].reserved.push(id),
                        is_worker: true,
                        ..m.conns[c]
                    },
                )
                &&& struck(m.tube(a.tube).buried, n.tube(a.tube).buried, id)
                &&& n.tube(a.tube) == (TubeView {
                    buried: n.tube(a.tube).buried,
                    ..m.tube(a.tube)
                })
                &&& n.tubes == m.tubes.update(a.tube as int, Some(n.tube(a.tube)))
            }
            &&& !takes ==> n == m
        }),
{
    let (n, o) = m.handle(now, c, CommandView::ReserveJob(id), sys, out);
    let a = m.jobs[id];
    assert(0 <= a.ttr * 1_000_000_000 <= 0xffff_ffff * 1_000_000_000) by (nonlinear_arith)
        requires
            0 <= a.ttr <= 0xffff_ffff,
    ;
    if m.jobs.contains_key(id) && a.state != JobState::Reserved {
        assert(m.live(a.tube));
        lemma_struck(m.tube(a.tube).buried, id);
        assert(m.tube(a.tube).buried.contains(id) <==> a.state == JobState::Buried);
        assert(n.jobs =~= m.jobs.insert(id, n.jobs[id]));
        assert(n.conns =~= m.conns.insert(
            c,
            ConnView { reserved: m.conns[c].reserved.push(id), is_worker: true, ..m.conns[c] },
        ));
    }
}

/// Whether a connection uses or watches tube `t`, or a job stands in it.
pub open spec fn needed(m: Model, t: TubeId) -> bool {
    ||| exists|c: ConnId| #[trigger]
        m.conns.contains_key(c) && (m.conns[c].use_tube == t || m.conns[c].watch.items.contains(t))
    ||| exists|id: JobId| #[trigger] m.jobs.contains_key(id) && m.jobs[id].tube == t
}

/// What refers to a tube needs it.
pub proof fn lemma_needed(m: Model, t: TubeId)
    requires
        m.jobs.dom().finite(),
        m.conns.dom().finite(),
    ensures
        m.referenced(t) == needed(m, t),
{
    crate::inv::lemma_jobs_none(m.jobs, crate::rules::JobSel::InTube(t));
    crate::inv::lemma_conns_none(m.conns, crate::rules::ConnSel::Uses(t));
    crate::inv::lemma_conns_none(m.conns, crate::rules::ConnSel::Watches(t));
}

/// Between events the tubes that exist are "default" and those that a connection
/// uses or watches, or in which a job stands.
pub proof fn tubes_exist_while_needed(m: Model, t: TubeId)
    requires
        orderly(m),
        crate::settle::settled(m),
    ensures
        m.live(t) == (t == 0 || needed(m, t)),
{
    lemma_needed(m, t);
    if m.live(t) && t != 0 {
        assert(m.referenced(t));
    }
    if exists|c: ConnId| #[trigger]
        m.conns.contains_key(c) && (m.conns[c].use_tube == t || m.conns[c].watch.items.contains(
            t,
        )) {
        let c = choose|c: ConnId| #[trigger]
            m.conns.contains_key(c) && (m.conns[c].use_tube == t || m.conns[c].watch.items.contains(
                t,
            ));
        assert(m.live(m.conns[c].use_tube));
    }
}

/// delete: answered DELETED exactly if the job is there and no other connection
/// has reserved it. It is then gone, and one deletion more is counted for its
/// tube, which goes too if nothing needs it any longer. Nothing else changes.
pub proof fn delete_removes_that_one(
    m: Model,
    now: Nanos,
    c: ConnId,
    id: JobId,
    sys: SysSnapshot,
    out: Out,
)
    requires
        orderly(m),
        m.conns.contains_key(c),
    ensures
        ({
            let (n, o) = m.handle(now, c, CommandView::Delete(id), sys, out);
            let a = m.jobs[id];
            let t = a.tube;
            let goes = m.jobs.contains_key(id) && (a.state == JobState::Reserved ==> a.reserver
                == Some(c));
            &&& o == out.push((c, if goes {
                ResponseView::Deleted
            } else {
                ResponseView::NotFound
            }))
            &&& one_more_long(m.ops.cmd_delete, n.ops.cmd_delete)
            &&& goes ==> {
                &&& n.jobs == m.jobs.remove(id)
                &&& n.live(t) == (t == 0 || needed(n, t))
                &&& n.live(t) ==> {
                    &&& one_more_long(m.tube(t).total_delete_ct, n.tube(t).total_delete_ct)
                    &&& struck(m.tube(t).buried, n.tube(t).buried, id)
                    &&& n.tube(t) == (TubeView {
                        buried: n.tube(t).buried,
                        total_delete_ct: n.tube(t).total_delete_ct,
                        ..m.tube(t)
                    })
                }
                &&& n.tubes == m.tubes.update(t as int, n.tubes[t as int])
                &&& n.order == (if n.live(t) {
                    m.order
                } else {
                    m.order.remove(t)
                })
                &&& struck(m.conns[c].reserved, n.conns[c].reserved, id)
                &&& n.conns == m.conns.insert(
                    c,
                    ConnView { reserved: n.conns[c].reserved, ..m.conns[c] },
                )
                &&& n.journal == (if m.cfg.journal {
                    m.journal.push(EntryView::Delete(id))
                } else {
                    m.journal
                })
            }
            &&& !goes ==> n.jobs == m.jobs && n.tubes == m.tubes && n.conns == m.conns && n.journal
                == m.journal
        }),
{
    let (n, o) = m.handle(now, c, CommandView::Delete(id), sys, out);
    let a = m.jobs[id];
    let t = a.tube;
    if m.jobs.contains_key(id) && (a.state == JobState::Reserved ==> a.reserver == Some(c)) {
        assert(m.live(t));
        lemma_struck(m.tube(t).buried, id);
        lemma_struck(m.conns[c].reserved, id);
        assert(m.tube(t).buried.contains(id) <==> a.state == JobState::Buried);
        assert(m.conns[c].reserved.contains(id) <==> is_mine(m, c, id));
        assert(n.conns =~= m.conns.insert(
            c,
            ConnView { reserved: n.conns[c].reserved, ..m.conns[c] },
        ));
        let k = m.without_job(id);
        assert(k.conns.dom() =~= m.conns.dom());
        lemma_needed(n, t);
        let l = k.with_tube(
            t,
            TubeView {
                total_delete_ct: crate::rules::bump(k.tube(t).total_delete_ct),
                ..k.tube(t)
            },
        );
        assert(l.jobs == n.jobs);
        assert(l.conns == n.conns);
        assert(l.referenced(t) == n.referenced(t));
    }
}

} // verus!
