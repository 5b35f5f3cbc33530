//! What a client gets that asks for a job, or to be shown one: of those in the
//! tubes that it watches, or in the one that it uses, the best.

use crate::api::{ConnId, Nanos, SysSnapshot, MAX_NOW};
use crate::effects::{
    is_mine, lemma_orderly_well_kept, lemma_passed, nobody_kept_waiting, well_kept,
};
use crate::handout::{
    awaits, best_jobs_go_first, better, given, handed_out, hands, is_ready, lemma_first_reply,
    lined_up, no_pause_over, one_more_long, open_at,
};
use crate::inv::{lemma_least_exists, lemma_least_unique};
use crate::kicked::due_before;
use crate::model::{ConnView, JobState, TubeId};
use crate::proto::{CommandView, JobId, ResponseView};
use crate::resting::lemma_held_finite;
use crate::rules::{bump, delayed_set, is_least, least, pair_le, reserved_set, Model, OpCounts, Out};
use crate::settle::{orderly, settled};
use vstd::prelude::*;

verus! {

/// Whether connection `c` holds a job whose reservation runs out within a second.
pub open spec fn pressed(m: Model, c: ConnId, now: Nanos) -> bool {
    exists|id: JobId| #[trigger]
        is_mine(m, c, id) && m.jobs[id].deadline_at <= now + 1_000_000_000
}

/// Whether a job is ready in a tube that connection `c` watches.
pub open spec fn has_ready(m: Model, c: ConnId) -> bool {
    exists|id: JobId| #[trigger] is_ready(m, id) && m.conns[c].watch.items.contains(m.jobs[id].tube)
}

/// A connection is pressed exactly if its soonest reservation is.
proof fn lemma_pressed(m: Model, c: ConnId, now: Nanos)
    requires
        m.jobs.dom().finite(),
    ensures
        m.deadline_soon(c, now) == pressed(m, c, now),
{
    let s = reserved_set(m.jobs, c);
    lemma_held_finite(m, c);
    if pressed(m, c, now) {
        let id = choose|id: JobId| #[trigger]
            is_mine(m, c, id) && m.jobs[id].deadline_at <= now + 1_000_000_000;
        let w = (m.jobs[id].deadline_at, id);
        assert(s.contains(w));
        lemma_least_exists(s);
        assert(pair_le(least(s)->0, w));
    }
    if m.deadline_soon(c, now) {
        let q = choose|q: (u64, u64)| is_least(s, q);
        assert(is_least(s, q));
        lemma_least_unique(s, q);
        assert(is_mine(m, c, q.1));
    }
}

/// A connection begins to wait.
proof fn lemma_begins(m: Model, c: ConnId, until: Option<Nanos>, now: Nanos)
    requires
        well_kept(m),
        m.conns.contains_key(c),
        !m.conns[c].waiting,
    ensures
        ({
            let w = m.start_waiting(c, until);
            &&& lined_up(w)
            &&& forall|d: ConnId, t: TubeId| #[trigger]
                awaits(w, d, t) <==> awaits(m, d, t) || (d == c
                    && m.conns[c].watch.items.contains(t))
            &&& forall|t: TubeId| #[trigger] w.live(t) == m.live(t)
            &&& forall|t: TubeId| #[trigger] open_at(w, t, now) == open_at(m, t, now)
        }),
{
    let w = m.start_waiting(c, until);
    assert forall|t: TubeId| #[trigger] w.live(t) == m.live(t) by {}
    assert forall|t: TubeId| #[trigger] open_at(w, t, now) == open_at(m, t, now) by {
        assert(w.live(t) == m.live(t));
    }
    assert forall|d: ConnId, t: TubeId| #[trigger]
        awaits(w, d, t) <==> awaits(m, d, t) || (d == c && m.conns[c].watch.items.contains(t)) by {}
    assert forall|t: TubeId| #[trigger] w.live(t) implies w.tube(t).waiting.items.no_duplicates()
        && forall|d: ConnId| #[trigger]
        w.tube(t).waiting.items.contains(d) <==> awaits(w, d, t) by {
        assert(m.live(t));
        let x = m.tube(t).waiting.items;
        assert(x.contains(c) <==> awaits(m, c, t));
        crate::effects::lemma_added(x, c);
        assert forall|d: ConnId| #[trigger]
            w.tube(t).waiting.items.contains(d) <==> awaits(w, d, t) by {
            assert(x.contains(d) <==> awaits(m, d, t));
            assert(x.push(c).contains(d) <==> x.contains(d) || d == c);
        }
    }
    assert forall|id: JobId| #[trigger] w.jobs.contains_key(id) implies w.jobs[id].id == id
        && w.live(w.jobs[id].tube) by {
        assert(m.jobs.contains_key(id));
        assert(m.live(m.jobs[id].tube));
    }
}

/// The command that asks for a job, with or without a limit on the wait.
pub open spec fn reserve_within(timeout: Option<u32>) -> CommandView {
    match timeout {
        None => CommandView::Reserve,
        Some(s) => CommandView::ReserveWithTimeout(s),
    }
}

/// reserve and reserve-with-timeout. A connection that holds a job whose
/// reservation runs out within a second, and for which none is ready, is told
/// DEADLINE_SOON. Otherwise it is handed a job that is ready, in an open tube
/// that it watches, and than which no such job is better, unless that was handed
/// out just before, to another that waited for it; or no such job is left, and it waits for as
/// long as it said, or with a limit of 0 is told so at once.
pub proof fn reserve_gets_the_best(
    m: Model,
    now: Nanos,
    c: ConnId,
    timeout: Option<u32>,
    sys: SysSnapshot,
    out: Out,
)
    requires
        orderly(m),
        now <= MAX_NOW,
        m.conns.contains_key(c),
        !m.conns[c].waiting,
    ensures
        ({
            let (n, o) = m.handle(now, c, reserve_within(timeout), sys, out);
            &&& timeout is None ==> one_more_long(m.ops.cmd_reserve, n.ops.cmd_reserve)
            &&& timeout is Some ==> one_more_long(
                m.ops.cmd_reserve_with_timeout,
                n.ops.cmd_reserve_with_timeout,
            )
            &&& n.conns.contains_key(c)
            &&& n.conns[c].is_worker
            &&& pressed(m, c, now) && !has_ready(m, c) ==> o == out.push(
                (c, ResponseView::DeadlineSoon),
            ) && n.jobs == m.jobs && n.tubes == m.tubes && !n.conns[c].waiting
            &&& !(pressed(m, c, now) && !has_ready(m, c)) ==> {
                &&& out.is_prefix_of(o)
                &&& n.jobs.dom() == m.jobs.dom()
                &&& forall|i: int|
                    out.len() <= i < o.len() && (#[trigger] o[i]).0 == c && o[i].1 is Reserved ==> {
                        let id = o[i].1->Reserved_id;
                        &&& is_ready(m, id)
                        &&& open_at(m, m.jobs[id].tube, now)
                        &&& m.conns[c].watch.items.contains(m.jobs[id].tube)
                        &&& o[i].1->Reserved_body == m.jobs[id].body
                        &&& given(m.jobs[id], n.jobs[id], c, now)
                        &&& !n.conns[c].waiting
                        &&& forall|k: JobId| #[trigger]
                            is_ready(m, k) && k != id && open_at(m, m.jobs[k].tube, now)
                                && m.conns[c].watch.items.contains(m.jobs[k].tube) ==> better(
                                m,
                                id,
                                k,
                            ) || exists|l: int|
                                out.len() <= l < i && (#[trigger] o[l]).1 is Reserved
                                    && o[l].1->Reserved_id == k && awaits(
                                    m,
                                    o[l].0,
                                    m.jobs[k].tube,
                                )
                    }
                &&& (exists|i: int|
                    out.len() <= i < o.len() && (#[trigger] o[i]).0 == c && o[i].1 is Reserved)
                    || (forall|k: JobId| #[trigger]
                    is_ready(n, k) && open_at(m, m.jobs[k].tube, now)
                        ==> !m.conns[c].watch.items.contains(m.jobs[k].tube)) && (
                if timeout == Some(0u32) {
                    !n.conns[c].waiting && o.len() > 0 && o.last() == (c, if pressed(m, c, now) {
                        ResponseView::DeadlineSoon
                    } else {
                        ResponseView::TimedOut
                    })
                } else {
                    n.conns[c].waiting && (match timeout {
                        None => n.conns[c].wait_deadline is None,
                        Some(s) => n.conns[c].wait_deadline is Some && n.conns[c].wait_deadline->0
                            == now + s * 1_000_000_000,
                    }) && forall|i: int| out.len() <= i < o.len() ==> (#[trigger] o[i]).0 != c
                })
            }
        }),
{
    lemma_orderly_well_kept(m);
    let ops = match timeout {
        None => OpCounts { cmd_reserve: bump(m.ops.cmd_reserve), ..m.ops },
        Some(_) => OpCounts {
            cmd_reserve_with_timeout: bump(m.ops.cmd_reserve_with_timeout),
            ..m.ops
        },
    };
    let m1 = (Model { ops, ..m }).worker(c);
    assert(well_kept(m1)) by {
        lemma_worker(m, m1, c);
    }
    lemma_pressed(m1, c, now);
    assert(pressed(m1, c, now) == pressed(m, c, now)) by {
        lemma_alike_pressed(m, m1, c, now);
    }
    assert(m1.ready_for(c) == has_ready(m, c)) by {
        if m1.ready_for(c) {
            let id = choose|id: JobId|
                {
                    &&& #[trigger] m1.jobs.contains_key(id)
                    &&& m1.jobs[id].state == JobState::Ready
                    &&& m1.conns[c].watch.items.contains(m1.jobs[id].tube)
                };
            assert(is_ready(m, id));
        }
        if has_ready(m, c) {
            let id = choose|id: JobId| #[trigger]
                is_ready(m, id) && m.conns[c].watch.items.contains(m.jobs[id].tube);
            assert(m1.jobs.contains_key(id));
        }
    }
    let (n, o) = m.handle(now, c, reserve_within(timeout), sys, out);
    if !(pressed(m, c, now) && !has_ready(m, c)) {
        let until: Option<Nanos> = match timeout {
            None => None,
            Some(s) => Some(crate::rules::later(now, s)),
        };
        if let Some(s) = timeout {
            assert(0 <= s * 1_000_000_000 <= 0xffff_ffff * 1_000_000_000) by (nonlinear_arith)
                requires
                    0 <= s <= 0xffff_ffff,
            ;
        }
        lemma_begins(m1, c, until, now);
        let w = m1.start_waiting(c, until);
        best_jobs_go_first(w, now, out);
        let (b, p) = w.process_queue(now, out);
        lemma_passed(w, out, b, p, now);
        lemma_asked(m, m1, w, b, c, now, out, p);
        if timeout == Some(0u32) && b.conns[c].waiting {
            lemma_pressed(b, c, now);
            assert(pressed(b, c, now) == pressed(m, c, now)) by {
                lemma_still_pressed(m, w, b, c, now, out, p);
            }
            assert(o == p.push((c, if pressed(m, c, now) {
                ResponseView::DeadlineSoon
            } else {
                ResponseView::TimedOut
            })));
            assert(out.is_prefix_of(o)) by {
                assert(o.take(out.len() as int) =~= p.take(out.len() as int));
            }
            assert forall|i: int| out.len() <= i < p.len() implies #[trigger] o[i] == p[i] by {}
            assert forall|k: JobId| #[trigger] is_ready(n, k) == is_ready(b, k) by {}
        }
    }
}

/// Between events nobody waits for a job that is ready in a tube that is open.
pub proof fn nobody_waits_for_what_is_there(m: Model, now: Nanos)
    requires
        orderly(m),
        settled(m),
        no_pause_over(m, now),
    ensures
        nobody_kept_waiting(m, now),
{
    assert forall|id: JobId, c: ConnId|
        #![trigger is_ready(m, id), m.conns.contains_key(c)]
        is_ready(m, id) && open_at(m, m.jobs[id].tube, now) implies !awaits(
        m,
        c,
        m.jobs[id].tube,
    ) by {
        let t = m.jobs[id].tube;
        assert(m.live(t));
        if awaits(m, c, t) {
            assert(m.tube(t).waiting.items.contains(c));
            assert(m.awaited(id));
        }
    }
}

/// Where nobody else waits for a job that is ready, a reserve that is answered with
/// a job is answered with the best of all: no other job that is ready, in an open
/// tube that the connection watches, has a smaller priority, and none that has the
/// same has a smaller number.
pub proof fn reserve_gets_the_best_of_all(
    m: Model,
    now: Nanos,
    c: ConnId,
    timeout: Option<u32>,
    sys: SysSnapshot,
    out: Out,
)
    requires
        orderly(m),
        nobody_kept_waiting(m, now),
        now <= MAX_NOW,
        m.conns.contains_key(c),
        !m.conns[c].waiting,
    ensures
        ({
            let o = m.handle(now, c, reserve_within(timeout), sys, out).1;
            forall|i: int, k: JobId|
                #![trigger o[i], is_ready(m, k)]
                out.len() <= i < o.len() && o[i].0 == c && o[i].1 is Reserved && is_ready(m, k)
                    && open_at(m, m.jobs[k].tube, now) && m.conns[c].watch.items.contains(
                    m.jobs[k].tube,
                ) ==> {
                    let id = o[i].1->Reserved_id;
                    &&& m.jobs[id].pri <= m.jobs[k].pri
                    &&& m.jobs[id].pri == m.jobs[k].pri ==> id <= k
                }
        }),
{
    reserve_gets_the_best(m, now, c, timeout, sys, out);
    let o = m.handle(now, c, reserve_within(timeout), sys, out).1;
    assert forall|i: int, k: JobId|
        #![trigger o[i], is_ready(m, k)]
        out.len() <= i < o.len() && o[i].0 == c && o[i].1 is Reserved && is_ready(m, k) && open_at(
            m,
            m.jobs[k].tube,
            now,
        ) && m.conns[c].watch.items.contains(m.jobs[k].tube) implies ({
        let id = o[i].1->Reserved_id;
        &&& m.jobs[id].pri <= m.jobs[k].pri
        &&& m.jobs[id].pri == m.jobs[k].pri ==> id <= k
    }) by {
        let id = o[i].1->Reserved_id;
        if pressed(m, c, now) && !has_ready(m, c) {
            assert(o[i] == o.last());
        } else if k != id && !better(m, id, k) {
            let l = choose|l: int|
                out.len() <= l < i && (#[trigger] o[l]).1 is Reserved && o[l].1->Reserved_id == k
                    && awaits(m, o[l].0, m.jobs[k].tube);
            assert(m.conns.contains_key(o[l].0));
        }
    }
}

/// Where no job is handed out, the queue of a tube stays as it is.
proof fn lemma_nothing_handed(w: Model, now: Nanos, out: Out)
    requires
        lined_up(w),
        now <= MAX_NOW,
        w.process_queue(now, out).1.len() == out.len(),
    ensures
        w.process_queue(now, out).0 == w.unpaused(now),
{
    let u = w.unpaused(now);
    if u.next_awaited() is Some {
        lemma_first_reply(w, now, out);
    }
}

/// Who begins to wait stands last in the queue of each tube that it watches, and
/// nobody else moves.
pub proof fn who_waits_queues_up_last(
    m: Model,
    now: Nanos,
    c: ConnId,
    timeout: Option<u32>,
    sys: SysSnapshot,
    out: Out,
)
    requires
        orderly(m),
        nobody_kept_waiting(m, now),
        now <= MAX_NOW,
        m.conns.contains_key(c),
        !m.conns[c].waiting,
    ensures
        ({
            let n = m.handle(now, c, reserve_within(timeout), sys, out).0;
            n.conns[c].waiting ==> forall|t: TubeId| #[trigger]
                m.live(t) ==> n.tube(t).waiting.last == m.tube(t).waiting.last && n.tube(
                    t,
                ).waiting.items == (if m.conns[c].watch.items.contains(t) {
                    m.tube(t).waiting.items.push(c)
                } else {
                    m.tube(t).waiting.items
                })
        }),
{
    reserve_gets_the_best(m, now, c, timeout, sys, out);
    let (n, o) = m.handle(now, c, reserve_within(timeout), sys, out);
    lemma_orderly_well_kept(m);
    let ops = match timeout {
        None => OpCounts { cmd_reserve: bump(m.ops.cmd_reserve), ..m.ops },
        Some(_) => OpCounts {
            cmd_reserve_with_timeout: bump(m.ops.cmd_reserve_with_timeout),
            ..m.ops
        },
    };
    let m1 = (Model { ops, ..m }).worker(c);
    lemma_worker(m, m1, c);
    let until: Option<Nanos> = match timeout {
        None => None,
        Some(s) => Some(crate::rules::later(now, s)),
    };
    if n.conns[c].waiting {
        lemma_begins(m1, c, until, now);
        let w = m1.start_waiting(c, until);
        let (b, p) = w.process_queue(now, out);
        best_jobs_go_first(w, now, out);
        assert(n == b && o == p);
        assert(p.len() == out.len()) by {
            if p.len() > out.len() {
                let r = p[out.len() as int];
                assert(hands(w, b, r, now));
                let id = r.1->Reserved_id;
                let t = m.jobs[id].tube;
                assert(r.0 != c);
                assert(awaits(w, r.0, t));
                assert(awaits(m1, r.0, t));
                assert(awaits(m, r.0, t));
                assert(open_at(w, t, now));
                assert(m1.live(t) == m.live(t));
                assert(open_at(m, t, now));
                assert(is_ready(m, id));
                assert(m.conns.contains_key(r.0));
            }
        }
        lemma_nothing_handed(w, now, out);
        assert forall|t: TubeId| #[trigger] m.live(t) implies n.tube(t).waiting.last == m.tube(
            t,
        ).waiting.last && n.tube(t).waiting.items == (if m.conns[c].watch.items.contains(t) {
            m.tube(t).waiting.items.push(c)
        } else {
            m.tube(t).waiting.items
        }) by {
            assert(m1.live(t));
            assert(w.live(t));
        }
    }
}

/// Who is pressed is told by the jobs.
proof fn lemma_alike_pressed(m: Model, k: Model, c: ConnId, now: Nanos)
    requires
        k.jobs == m.jobs,
    ensures
        pressed(k, c, now) == pressed(m, c, now),
{
    assert forall|id: JobId| #[trigger] is_mine(k, c, id) == is_mine(m, c, id) by {}
    if pressed(m, c, now) {
        let id = choose|id: JobId| #[trigger]
            is_mine(m, c, id) && m.jobs[id].deadline_at <= now + 1_000_000_000;
        assert(is_mine(k, c, id));
    }
}

/// Working makes no difference to the lists.
proof fn lemma_worker(m: Model, k: Model, c: ConnId)
    requires
        well_kept(m),
        m.conns.contains_key(c),
        k.jobs == m.jobs,
        k.tubes == m.tubes,
        k.conns == m.conns.insert(c, ConnView { is_worker: true, ..m.conns[c] }),
    ensures
        well_kept(k),
{
    assert(k.conns.dom() =~= m.conns.dom());
    assert forall|t: TubeId| #[trigger] k.live(t) == m.live(t) && k.tube(t) == m.tube(t) by {}
    crate::effects::lemma_same_stage(m, k, 0);
    assert forall|t: TubeId| #[trigger] k.live(t) implies k.tube(t).buried.no_duplicates() by {
        assert(m.live(t));
    }
    assert forall|t: TubeId, q: JobId|
        k.live(t) implies (#[trigger] k.tube(t).buried.contains(q) <==> k.jobs.contains_key(q)
        && k.jobs[q].state == JobState::Buried && k.jobs[q].tube == t) by {
        assert(m.live(t));
        assert(m.tube(t).buried.contains(q) == k.tube(t).buried.contains(q));
    }
    assert forall|d: ConnId, q: JobId|
        k.conns.contains_key(d) implies (#[trigger] k.conns[d].reserved.contains(q) <==> is_mine(
        k,
        d,
        q,
    )) by {
        assert(m.conns[d].reserved.contains(q) <==> is_mine(m, d, q));
        assert(k.conns[d].reserved == m.conns[d].reserved);
    }
    assert forall|d: ConnId| #[trigger] k.conns.contains_key(d) implies k.conns[d].reserved.no_duplicates() by {
        assert(m.conns.contains_key(d));
    }
}

/// What the connection that asked got, once jobs were handed out.
proof fn lemma_asked(
    m: Model,
    m1: Model,
    w: Model,
    b: Model,
    c: ConnId,
    now: Nanos,
    out: Out,
    p: Out,
)
    requires
        m.conns.contains_key(c),
        m1.jobs == m.jobs,
        m1.tubes == m.tubes,
        m1.conns == m.conns.insert(c, ConnView { is_worker: true, ..m.conns[c] }),
        w == m1.start_waiting(c, w.conns[c].wait_deadline),
        w.conns.contains_key(c),
        w.conns[c].waiting,
        forall|t: TubeId| #[trigger] w.live(t) == m1.live(t),
        forall|t: TubeId| #[trigger] open_at(w, t, now) == open_at(m1, t, now),
        handed_out(w, out, b, p, now),
        nobody_kept_waiting(b, now),
    ensures
        b.conns.contains_key(c),
        b.conns[c].is_worker,
        forall|i: int|
            out.len() <= i < p.len() && (#[trigger] p[i]).0 == c && p[i].1 is Reserved ==> {
                let id = p[i].1->Reserved_id;
                &&& is_ready(m, id)
                &&& open_at(m, m.jobs[id].tube, now)
                &&& m.conns[c].watch.items.contains(m.jobs[id].tube)
                &&& p[i].1->Reserved_body == m.jobs[id].body
                &&& given(m.jobs[id], b.jobs[id], c, now)
                &&& !b.conns[c].waiting
                &&& forall|k: JobId| #[trigger]
                    is_ready(m, k) && k != id && open_at(m, m.jobs[k].tube, now)
                        && m.conns[c].watch.items.contains(m.jobs[k].tube) ==> better(m, id, k)
                        || exists|l: int|
                        out.len() <= l < i && (#[trigger] p[l]).1 is Reserved
                            && p[l].1->Reserved_id == k && awaits(m, p[l].0, m.jobs[k].tube)
            },
        !b.conns[c].waiting ==> exists|i: int|
            out.len() <= i < p.len() && (#[trigger] p[i]).0 == c && p[i].1 is Reserved,
        b.conns[c].waiting ==> b.conns[c] == w.conns[c],
        b.conns[c].waiting ==> forall|i: int| out.len() <= i < p.len() ==> (#[trigger] p[i]).0 != c,
        b.conns[c].waiting ==> forall|k: JobId| #[trigger]
            is_ready(b, k) && open_at(m, m.jobs[k].tube, now)
                ==> !m.conns[c].watch.items.contains(m.jobs[k].tube),
{
    assert(b.conns.dom().contains(c));
    assert forall|t: TubeId| #[trigger] open_at(w, t, now) == open_at(m, t, now) by {
        assert(open_at(w, t, now) == open_at(m1, t, now));
        assert(m1.live(t) == m.live(t));
    }
    assert forall|i: int|
        out.len() <= i < p.len() && (#[trigger] p[i]).0 == c && p[i].1 is Reserved implies ({
        let id = p[i].1->Reserved_id;
        &&& is_ready(m, id)
        &&& open_at(m, m.jobs[id].tube, now)
        &&& m.conns[c].watch.items.contains(m.jobs[id].tube)
        &&& p[i].1->Reserved_body == m.jobs[id].body
        &&& given(m.jobs[id], b.jobs[id], c, now)
        &&& !b.conns[c].waiting
        &&& forall|k: JobId| #[trigger]
            is_ready(m, k) && k != id && open_at(m, m.jobs[k].tube, now)
                && m.conns[c].watch.items.contains(m.jobs[k].tube) ==> better(m, id, k)
                || exists|l: int|
                out.len() <= l < i && (#[trigger] p[l]).1 is Reserved && p[l].1->Reserved_id == k
                    && awaits(m, p[l].0, m.jobs[k].tube)
    }) by {
        let id = p[i].1->Reserved_id;
        assert(hands(w, b, p[i], now));
        assert(open_at(w, w.jobs[id].tube, now));
        assert forall|k: JobId| #[trigger]
            is_ready(m, k) && k != id && open_at(m, m.jobs[k].tube, now)
                && m.conns[c].watch.items.contains(m.jobs[k].tube) implies better(m, id, k)
            || exists|l: int|
            out.len() <= l < i && (#[trigger] p[l]).1 is Reserved && p[l].1->Reserved_id == k
                && awaits(m, p[l].0, m.jobs[k].tube) by {
            assert(w.jobs.contains_key(k));
            assert(open_at(w, w.jobs[k].tube, now));
            if b.jobs[k] == w.jobs[k] {
                assert(b.jobs.dom().contains(k));
                assert(is_ready(b, k));
                assert(better(w, id, k));
            } else {
                let l = choose|l: int|
                    out.len() <= l < p.len() && (#[trigger] p[l]).1->Reserved_id == k;
                assert(hands(w, b, p[l], now));
                if l > i {
                    assert(better(w, p[i].1->Reserved_id, p[l].1->Reserved_id));
                } else {
                    assert(p[l].0 != c) by {
                        if p[l].0 == c {
                            let r = w.conns[c].reserved;
                            assert(r.push(id).last() == r.push(k).last());
                        }
                    }
                    assert(awaits(w, p[l].0, m.jobs[k].tube));
                    assert(awaits(m, p[l].0, m.jobs[k].tube));
                }
            }
        }
    }
    if !b.conns[c].waiting {
        assert(b.conns[c] != w.conns[c]);
        let i = choose|i: int| out.len() <= i < p.len() && (#[trigger] p[i]).0 == c;
        assert(hands(w, b, p[i], now));
    } else {
        assert forall|i: int| out.len() <= i < p.len() implies (#[trigger] p[i]).0 != c by {
            assert(hands(w, b, p[i], now));
        }
        assert forall|k: JobId| #[trigger] is_ready(b, k) && open_at(
            m,
            m.jobs[k].tube,
            now,
        ) implies !m.conns[c].watch.items.contains(m.jobs[k].tube) by {
            assert(w.jobs.dom().contains(k));
            assert(b.jobs[k] == w.jobs[k]) by {
                if b.jobs[k] != w.jobs[k] {
                    let l = choose|l: int|
                        out.len() <= l < p.len() && (#[trigger] p[l]).1->Reserved_id == k;
                    assert(hands(w, b, p[l], now));
                }
            }
            let t = m.jobs[k].tube;
            assert(open_at(w, t, now));
            assert(b.live(t) == w.live(t));
            assert(open_at(b, t, now)) by {
                assert(w.live(t));
            }
            assert(!awaits(b, c, t));
        }
    }
}

/// While a connection waits it is given no job, so that what it held it holds.
proof fn lemma_still_pressed(
    m: Model,
    w: Model,
    b: Model,
    c: ConnId,
    now: Nanos,
    out: Out,
    p: Out,
)
    requires
        w.jobs == m.jobs,
        handed_out(w, out, b, p, now),
        w.conns.contains_key(c),
        b.conns[c].waiting,
    ensures
        pressed(b, c, now) == pressed(m, c, now),
{
    assert forall|id: JobId| #[trigger] is_mine(b, c, id) implies is_mine(m, c, id) && b.jobs[id]
        == m.jobs[id] by {
        assert(w.jobs.dom().contains(id));
        if b.jobs[id] != w.jobs[id] {
            let l = choose|l: int|
                out.len() <= l < p.len() && (#[trigger] p[l]).1->Reserved_id == id;
            assert(hands(w, b, p[l], now));
        }
    }
    assert forall|id: JobId| #[trigger] is_mine(m, c, id) implies is_mine(b, c, id) && b.jobs[id]
        == m.jobs[id] by {
        assert(b.jobs.dom().contains(id));
        assert(w.jobs.contains_key(id));
        if b.jobs[id] != w.jobs[id] {
            let l = choose|l: int|
                out.len() <= l < p.len() && (#[trigger] p[l]).1->Reserved_id == id;
            assert(hands(w, b, p[l], now));
        }
    }
    if pressed(m, c, now) {
        let id = choose|id: JobId| #[trigger]
            is_mine(m, c, id) && m.jobs[id].deadline_at <= now + 1_000_000_000;
        assert(is_mine(b, c, id));
    }
}

/// Whether the reply shows job `id` as it is.
pub open spec fn shows(m: Model, r: ResponseView, id: JobId) -> bool {
    m.jobs.contains_key(id) && r == (ResponseView::Found { id, body: m.jobs[id].body })
}

/// Whether nothing has changed from `m` to `n` but what is counted.
pub open spec fn only_counted(m: Model, n: Model) -> bool {
    n == (Model { ops: n.ops, ..m })
}

/// peek: the job of that number is shown, whatever its state and its tube.
/// Nothing changes.
pub proof fn peek_shows_that_one(
    m: Model,
    now: Nanos,
    c: ConnId,
    id: JobId,
    sys: SysSnapshot,
    out: Out,
)
    requires
        m.conns.contains_key(c),
    ensures
        ({
            let (n, o) = m.handle(now, c, CommandView::Peek(id), sys, out);
            &&& o.len() == out.len() + 1
            &&& o == out.push((c, o.last().1))
            &&& if m.jobs.contains_key(id) {
                shows(m, o.last().1, id)
            } else {
                o.last().1 == ResponseView::NotFound
            }
            &&& one_more_long(m.ops.cmd_peek, n.ops.cmd_peek)
            &&& only_counted(m, n)
        }),
{
}

/// peek-ready: the job that is shown is ready in the used tube, and none there is
/// better; where none is ready there, none is shown. Nothing changes.
pub proof fn peek_ready_shows_the_best(
    m: Model,
    now: Nanos,
    c: ConnId,
    sys: SysSnapshot,
    out: Out,
)
    requires
        orderly(m),
        m.conns.contains_key(c),
    ensures
        ({
            let (n, o) = m.handle(now, c, CommandView::PeekReady, sys, out);
            let t = m.conns[c].use_tube;
            let r = o.last().1;
            &&& o.len() == out.len() + 1
            &&& o == out.push((c, r))
            &&& r is Found ==> shows(m, r, r->Found_id) && is_ready(m, r->Found_id)
                && m.jobs[r->Found_id].tube == t && forall|k: JobId| #[trigger]
                is_ready(m, k) && m.jobs[k].tube == t && k != r->Found_id ==> better(
                    m,
                    r->Found_id,
                    k,
                )
            &&& !(r is Found) ==> r == ResponseView::NotFound && forall|k: JobId| #[trigger]
                is_ready(m, k) ==> m.jobs[k].tube != t
            &&& one_more_long(m.ops.cmd_peek_ready, n.ops.cmd_peek_ready)
            &&& only_counted(m, n)
        }),
{
    let t = m.conns[c].use_tube;
    let k = Model { ops: OpCounts { cmd_peek_ready: bump(m.ops.cmd_peek_ready), ..m.ops }, ..m };
    let s = k.ready_in(t);
    let f = |id: JobId| (m.jobs[id].pri as u64, id);
    let all = m.jobs.dom().map(f);
    m.jobs.dom().lemma_map_finite(f);
    assert(s.subset_of(all)) by {
        assert forall|p: (u64, JobId)| s.contains(p) implies all.contains(p) by {
            assert(f(p.1) == p);
        }
    }
    vstd::set_lib::lemma_len_subset(s, all);
    assert forall|id: JobId| #[trigger] is_ready(m, id) && m.jobs[id].tube == t implies least(
        s,
    ) is Some && is_least(s, least(s)->0) && pair_le(least(s)->0, (m.jobs[id].pri as u64, id)) by {
        let p = (m.jobs[id].pri as u64, id);
        assert(s.contains(p));
        lemma_least_exists(s);
    }
    if least(s) is Some {
        let q = choose|q: (u64, u64)| is_least(s, q);
        assert(is_least(s, q));
        lemma_least_unique(s, q);
        assert(s.contains(q));
    }
}

/// peek-delayed: the job that is shown is delayed in the used tube, and none
/// there is due before it; where none is delayed there, none is shown. Nothing
/// changes.
pub proof fn peek_delayed_shows_the_soonest(
    m: Model,
    now: Nanos,
    c: ConnId,
    sys: SysSnapshot,
    out: Out,
)
    requires
        orderly(m),
        m.conns.contains_key(c),
    ensures
        ({
            let (n, o) = m.handle(now, c, CommandView::PeekDelayed, sys, out);
            let t = m.conns[c].use_tube;
            let r = o.last().1;
            let waiting = |id: JobId|
                m.jobs.contains_key(id) && m.jobs[id].state == JobState::Delayed && m.jobs[id].tube
                    == t;
            &&& o.len() == out.len() + 1
            &&& o == out.push((c, r))
            &&& r is Found ==> shows(m, r, r->Found_id) && waiting(r->Found_id) && forall|k: JobId|
                #[trigger] m.jobs.contains_key(k) && waiting(k) && k != r->Found_id ==> due_before(
                    m,
                    r->Found_id,
                    k,
                )
            &&& !(r is Found) ==> r == ResponseView::NotFound && forall|k: JobId| #[trigger]
                m.jobs.contains_key(k) ==> !waiting(k)
            &&& one_more_long(m.ops.cmd_peek_delayed, n.ops.cmd_peek_delayed)
            &&& only_counted(m, n)
        }),
{
    let t = m.conns[c].use_tube;
    let s = delayed_set(m.jobs, t);
    let f = |id: JobId| (m.jobs[id].deadline_at, id);
    let all = m.jobs.dom().map(f);
    m.jobs.dom().lemma_map_finite(f);
    assert(s.subset_of(all)) by {
        assert forall|p: (u64, JobId)| s.contains(p) implies all.contains(p) by {
            assert(f(p.1) == p);
        }
    }
    vstd::set_lib::lemma_len_subset(s, all);
    assert forall|id: JobId| #[trigger]
        m.jobs.contains_key(id) && m.jobs[id].state == JobState::Delayed && m.jobs[id].tube
            == t implies least(s) is Some && is_least(s, least(s)->0) && pair_le(
        least(s)->0,
        (m.jobs[id].deadline_at, id),
    ) by {
        let p = (m.jobs[id].deadline_at, id);
        assert(s.contains(p));
        lemma_least_exists(s);
    }
    if least(s) is Some {
        let q = choose|q: (u64, u64)| is_least(s, q);
        assert(is_least(s, q));
        lemma_least_unique(s, q);
        assert(s.contains(q));
    }
}

/// peek-buried: the job that is shown is the first of those buried in the used
/// tube; where none is buried there, none is shown. Nothing changes.
pub proof fn peek_buried_shows_the_first(
    m: Model,
    now: Nanos,
    c: ConnId,
    sys: SysSnapshot,
    out: Out,
)
    requires
        orderly(m),
        m.conns.contains_key(c),
    ensures
        ({
            let (n, o) = m.handle(now, c, CommandView::PeekBuried, sys, out);
            let t = m.conns[c].use_tube;
            let r = o.last().1;
            &&& o.len() == out.len() + 1
            &&& o == out.push((c, r))
            &&& m.tube(t).buried.len() > 0 ==> shows(m, r, m.tube(t).buried[0])
                && m.jobs[r->Found_id].state == JobState::Buried && m.jobs[r->Found_id].tube == t
            &&& m.tube(t).buried.len() == 0 ==> r == ResponseView::NotFound && forall|k: JobId|
                #[trigger] m.jobs.contains_key(k) ==> !(m.jobs[k].state == JobState::Buried
                    && m.jobs[k].tube == t)
            &&& one_more_long(m.ops.cmd_peek_buried, n.ops.cmd_peek_buried)
            &&& only_counted(m, n)
        }),
{
    let t = m.conns[c].use_tube;
    let b = m.tube(t).buried;
    assert(m.live(t));
    if b.len() > 0 {
        assert(b.contains(b[0]));
    } else {
        assert forall|k: JobId| #[trigger] m.jobs.contains_key(k) implies !(m.jobs[k].state
            == JobState::Buried && m.jobs[k].tube == t) by {
            assert(m.tube(t).buried.contains(k) <==> m.jobs.contains_key(k) && m.jobs[k].state
                == JobState::Buried && m.jobs[k].tube == t);
        }
    }
}

/// list-tube-used: the name of the tube that the connection uses. Nothing
/// changes.
pub proof fn list_tube_used_names_it(
    m: Model,
    now: Nanos,
    c: ConnId,
    sys: SysSnapshot,
    out: Out,
)
    requires
        m.conns.contains_key(c),
    ensures
        ({
            let (n, o) = m.handle(now, c, CommandView::ListTubeUsed, sys, out);
            &&& o == out.push((c, ResponseView::Using(m.tubes[m.conns[c].use_tube as int]->0.name)))
            &&& one_more_long(m.ops.cmd_list_tube_used, n.ops.cmd_list_tube_used)
            &&& only_counted(m, n)
        }),
{
}

} // verus!
