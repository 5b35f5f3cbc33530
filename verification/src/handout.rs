//! Who is handed which job: the best one that is ready, to one of those that
//! wait for it, and nothing else changes.

use crate::api::{ConnId, Nanos, MAX_NOW};
use crate::inv::{lemma_jobs_insert, lemma_jobs_remove, lemma_least_exists};
use crate::model::{ConnView, JobState, JobView, TubeId, TubeView};
use crate::ms::{lemma_position, lemma_swap_remove};
use crate::proto::{JobId, ResponseView};
use crate::rules::{count_jobs, is_least, least, pair_le, JobSel, Model, Out};
use vstd::prelude::*;

verus! {

/// Whether jobs of tube `t` may be handed out at `now`: it is not paused, or
/// its pause is over.
pub open spec fn open_at(m: Model, t: TubeId, now: Nanos) -> bool {
    m.live(t) && (m.tube(t).pause == 0 || m.tube(t).unpause_at <= now)
}

/// Whether job `id` is there and ready.
pub open spec fn is_ready(m: Model, id: JobId) -> bool {
    m.jobs.contains_key(id) && m.jobs[id].state == JobState::Ready
}

/// Whether connection `c` waits for a job of tube `t`.
pub open spec fn awaits(m: Model, c: ConnId, t: TubeId) -> bool {
    m.conns.contains_key(c) && m.conns[c].waiting && m.conns[c].watch.items.contains(t)
}

/// Whether job `a` is better than job `b`: its priority is the smaller number,
/// or they have the same and it was put earlier.
pub open spec fn better(m: Model, a: JobId, b: JobId) -> bool {
    m.jobs[a].pri < m.jobs[b].pri || (m.jobs[a].pri == m.jobs[b].pri && a < b)
}

/// One more, in 32 bits.
pub open spec fn one_more(old: u32, new: u32) -> bool {
    new as int == (old as int + 1) % 0x1_0000_0000
}

/// One more, in 64 bits.
pub open spec fn one_more_long(old: u64, new: u64) -> bool {
    new as int == (old as int + 1) % 0x1_0000_0000_0000_0000
}

/// Whether `a` and `b` are the same job, put once, whatever has become of it:
/// neither its number, its tube, its body, its time to run nor its age differ.
pub open spec fn same_put(a: JobView, b: JobView) -> bool {
    &&& b.id == a.id
    &&& b.tube == a.tube
    &&& b.ttr == a.ttr
    &&& b.body == a.body
    &&& b.created_at == a.created_at
    &&& b.file == a.file
}

/// Whether `b` is job `a` once it is handed to connection `c` at `now`: reserved
/// until its time to run is up, and counted; all else stays.
pub open spec fn given(a: JobView, b: JobView, c: ConnId, now: Nanos) -> bool {
    &&& same_put(a, b)
    &&& b.state == JobState::Reserved
    &&& b.reserver == Some(c)
    &&& b.deadline_at == now + a.ttr * 1_000_000_000
    &&& one_more(a.reserve_ct, b.reserve_ct)
    &&& b.pri == a.pri
    &&& b.delay == a.delay
    &&& b.timeout_ct == a.timeout_ct
    &&& b.release_ct == a.release_ct
    &&& b.bury_ct == a.bury_ct
    &&& b.kick_ct == a.kick_ct
}

/// Whether reply `r` hands out a job that is ready in `a`, to a connection that
/// waits for it there, and the job is that connection's in `b`.
pub open spec fn hands(a: Model, b: Model, r: (ConnId, ResponseView), now: Nanos) -> bool {
    let id = r.1->Reserved_id;
    &&& r.1 == (ResponseView::Reserved { id, body: a.jobs[id].body })
    &&& is_ready(a, id)
    &&& open_at(a, a.jobs[id].tube, now)
    &&& awaits(a, r.0, a.jobs[id].tube)
    &&& given(a.jobs[id], b.jobs[id], r.0, now)
    &&& b.conns[r.0].reserved == a.conns[r.0].reserved.push(id)
    &&& !b.conns[r.0].waiting
    &&& b.conns[r.0].wait_deadline is None
}

/// Whether connection `c` is the same in `a` and `b` but for what it waits for
/// and what it holds.
pub open spec fn same_client(a: ConnView, b: ConnView) -> bool {
    &&& b.use_tube == a.use_tube
    &&& b.watch == a.watch
    &&& b.is_producer == a.is_producer
    &&& b.is_worker == a.is_worker
    &&& b.pending_put == a.pending_put
}

/// Whether tube `a` has become `b` with nothing done to it but that its pause,
/// if it is over by `now`, is lifted, and that those who wait may have changed.
pub open spec fn same_tube(a: TubeView, b: TubeView, now: Nanos) -> bool {
    &&& b.name == a.name
    &&& b.buried == a.buried
    &&& b.pause == (if a.unpause_at <= now {
        0
    } else {
        a.pause
    })
    &&& b.unpause_at == a.unpause_at
    &&& b.pause_ct == a.pause_ct
    &&& b.total_delete_ct == a.total_delete_ct
    &&& b.total_jobs_ct == a.total_jobs_ct
}

/// Whether everything that is neither a job, a tube nor a connection is the
/// same in `a` and `b`.
pub open spec fn same_rest(a: Model, b: Model) -> bool {
    &&& b.cfg == a.cfg
    &&& b.start == a.start
    &&& b.draining == a.draining
    &&& b.next_job_id == a.next_job_id
    &&& b.free == a.free
    &&& b.order == a.order
    &&& b.total_jobs_ct == a.total_jobs_ct
    &&& b.timeout_ct == a.timeout_ct
    &&& b.tot_conns == a.tot_conns
    &&& b.ops == a.ops
    &&& b.journal == a.journal
    &&& b.binlog == a.binlog
}

/// Whether from `a` to `b` jobs were handed out at `now`, and nothing else
/// happened.
///
/// Each reply after `before` hands one out. They come best first; and none that
/// is left, in a tube that was open and that the connection watches, is better
/// than what the connection was handed. In the end no ready job of an open tube
/// is left that somebody waits for.
pub open spec fn handed_out(a: Model, before: Out, b: Model, out: Out, now: Nanos) -> bool {
    &&& before.is_prefix_of(out)
    &&& forall|i: int| before.len() <= i < out.len() ==> hands(a, b, #[trigger] out[i], now)
    &&& forall|i: int, k: int|
        #![trigger out[i], out[k]]
        before.len() <= i < k < out.len() ==> better(
            a,
            out[i].1->Reserved_id,
            out[k].1->Reserved_id,
        )
    &&& forall|i: int, o: JobId|
        #![trigger out[i], is_ready(b, o)]
        before.len() <= i < out.len() && is_ready(b, o) && open_at(a, a.jobs[o].tube, now)
            && a.conns[out[i].0].watch.items.contains(a.jobs[o].tube) ==> better(
            a,
            out[i].1->Reserved_id,
            o,
        )
    &&& b.jobs.dom() == a.jobs.dom()
    &&& forall|id: JobId| #[trigger]
        a.jobs.contains_key(id) ==> b.jobs[id] == a.jobs[id] || exists|i: int|
            before.len() <= i < out.len() && (#[trigger] out[i]).1->Reserved_id == id
    &&& b.conns.dom() == a.conns.dom()
    &&& forall|c: ConnId| #[trigger]
        a.conns.contains_key(c) ==> same_client(a.conns[c], b.conns[c])
    &&& forall|c: ConnId| #[trigger]
        a.conns.contains_key(c) ==> b.conns[c] == a.conns[c] || exists|i: int|
            before.len() <= i < out.len() && (#[trigger] out[i]).0 == c
    &&& b.tubes.len() == a.tubes.len()
    &&& forall|t: TubeId| #[trigger] b.live(t) == a.live(t)
    &&& forall|t: TubeId| #[trigger] a.live(t) ==> same_tube(a.tube(t), b.tube(t), now)
    &&& same_rest(a, b)
    &&& forall|o: JobId, c: ConnId|
        #![trigger is_ready(b, o), b.conns.contains_key(c)]
        is_ready(b, o) && open_at(b, b.jobs[o].tube, now) ==> !awaits(b, c, b.jobs[o].tube)
}

/// What handing out jobs relies on: jobs are stored under their numbers and
/// stand in tubes that exist, and each tube lists who waits for its jobs.
pub open spec fn lined_up(m: Model) -> bool {
    &&& m.jobs.dom().finite()
    &&& forall|id: JobId| #[trigger]
        m.jobs.contains_key(id) ==> m.jobs[id].id == id && m.live(m.jobs[id].tube)
    &&& forall|t: TubeId| #[trigger] m.live(t) ==> m.tube(t).waiting.items.no_duplicates()
    &&& forall|t: TubeId, c: ConnId|
        m.live(t) ==> (#[trigger] m.tube(t).waiting.items.contains(c) <==> awaits(m, c, t))
}

/// Whether no pause is over by `now`.
pub open spec fn no_pause_over(m: Model, now: Nanos) -> bool {
    forall|t: TubeId| #[trigger]
        m.live(t) && m.tube(t).unpause_at <= now ==> m.tube(t).pause == 0
}

/// One job is handed over.
proof fn lemma_one(m: Model, id: JobId, now: Nanos)
    requires
        lined_up(m),
        m.awaited(id),
        now <= MAX_NOW,
    ensures
        ({
            let c = m.next_waiter(m.jobs[id].tube);
            let n = m.handing_over(id, now);
            &&& lined_up(n)
            &&& awaits(m, c, m.jobs[id].tube)
            &&& given(m.jobs[id], n.jobs[id], c, now)
            &&& n.jobs.dom() == m.jobs.dom()
            &&& forall|o: JobId| o != id ==> #[trigger] n.jobs[o] == m.jobs[o]
            &&& n.conns.dom() == m.conns.dom()
            &&& forall|d: ConnId| d != c ==> #[trigger] n.conns[d] == m.conns[d]
            &&& same_client(m.conns[c], n.conns[c])
            &&& n.conns[c].reserved == m.conns[c].reserved.push(id)
            &&& !n.conns[c].waiting
            &&& n.conns[c].wait_deadline is None
            &&& n.tubes.len() == m.tubes.len()
            &&& forall|t: TubeId| #[trigger] n.live(t) == m.live(t)
            &&& forall|t: TubeId| #[trigger]
                m.live(t) ==> n.tube(t) == (TubeView {
                    waiting: n.tube(t).waiting,
                    ..m.tube(t)
                })
            &&& same_rest(m, n)
            &&& count_jobs(n.jobs, JobSel::Ready) < count_jobs(m.jobs, JobSel::Ready)
        }),
{
    let t = m.jobs[id].tube;
    let w = m.tube(t).waiting;
    let c = m.next_waiter(t);
    let m1 = m.with_tube(t, TubeView { waiting: w.after_take(), ..m.tube(t) });
    let m2 = m1.stop_waiting(c);
    let n = m.handing_over(id, now);
    let j = m.jobs[id];
    assert(0 <= w.cursor() < w.items.len()) by (nonlinear_arith)
        requires
            w.items.len() > 0,
            w.cursor() == w.last as int % w.items.len() as int,
    ;
    assert(w.items[w.cursor()] == c);
    assert(w.items.contains(c));
    assert(m.tube(t).waiting.items.contains(c));
    lemma_swap_remove(w.items, w.cursor());
    assert(0 <= j.ttr * 1_000_000_000 <= 0xffff_ffff * 1_000_000_000) by (nonlinear_arith)
        requires
            0 <= j.ttr <= 0xffff_ffff,
    ;
    assert(n.jobs =~= m.jobs.insert(id, n.jobs[id]));
    assert(n.jobs.dom() =~= m.jobs.dom());
    assert(n.conns.dom() =~= m.conns.dom());
    lemma_jobs_remove(m.jobs, id, JobSel::Ready);
    lemma_jobs_insert(m.jobs.remove(id), id, n.jobs[id], JobSel::Ready);
    assert(n.jobs =~= m.jobs.remove(id).insert(id, n.jobs[id]));
    assert forall|u: TubeId| #[trigger] n.live(u) == m.live(u) by {}
    assert forall|u: TubeId| #[trigger] m.live(u) implies n.tube(u) == (TubeView {
        waiting: n.tube(u).waiting,
        ..m.tube(u)
    }) by {}
    assert forall|u: TubeId| #[trigger] n.live(u) implies n.tube(u).waiting.items.no_duplicates()
        && forall|d: ConnId| n.tube(u).waiting.items.contains(d) <==> m.tube(
        u,
    ).waiting.items.contains(d) && d != c by {
        assert(m.live(u));
        let x = m1.tube(u).waiting;
        if m.conns[c].watch.items.contains(u) && x.items.contains(c) {
            lemma_position(x.items, c);
            lemma_swap_remove(x.items, crate::ms::position(x.items, c));
        }
        assert(m.tube(u).waiting.items.contains(c) <==> awaits(m, c, u));
    }
    assert forall|u: TubeId, d: ConnId| n.live(u) implies (#[trigger] n.tube(
        u,
    ).waiting.items.contains(d) <==> awaits(n, d, u)) by {
        assert(m.live(u));
        assert(n.live(u));
        assert(m.tube(u).waiting.items.contains(d) <==> awaits(m, d, u));
    }
    assert(lined_up(n)) by {
        assert forall|o: JobId| #[trigger] n.jobs.contains_key(o) implies n.jobs[o].id == o
            && n.live(n.jobs[o].tube) by {
            assert(m.jobs.contains_key(o));
            assert(m.live(m.jobs[o].tube));
        }
    }
}

/// Where a job could be handed out, there is a next one.
proof fn lemma_there_is_a_next(m: Model, o: JobId)
    requires
        m.jobs.dom().finite(),
        m.awaited(o),
    ensures
        m.next_awaited() is Some,
{
    let f = |id: JobId| (m.jobs[id].pri as u64, id);
    let all = m.jobs.dom().map(f);
    m.jobs.dom().lemma_map_finite(f);
    let s = Set::new(|p: (u64, JobId)| m.awaited(p.1) && m.jobs[p.1].pri == p.0);
    assert(s.subset_of(all)) by {
        assert forall|p: (u64, JobId)| s.contains(p) implies all.contains(p) by {
            assert(f(p.1) == p);
        }
    }
    vstd::set_lib::lemma_len_subset(s, all);
    assert(s.contains((m.jobs[o].pri as u64, o)));
    lemma_least_exists(s);
    let p = least(s)->0;
    assert(is_least(s, p));
    assert forall|q: JobId| #[trigger] m.awaited(q) implies m.before(p.1, q) by {
        let r = (m.jobs[q].pri as u64, q);
        assert(s.contains(r));
        assert(pair_le(p, r));
    }
    assert(m.is_next_awaited(p.1));
}

/// Jobs are handed out until none is left that somebody waits for.
proof fn lemma_dispatched(m: Model, now: Nanos, before: Out)
    requires
        lined_up(m),
        no_pause_over(m, now),
        now <= MAX_NOW,
    ensures
        handed_out(m, before, m.dispatch(now, before).0, m.dispatch(now, before).1, now),
        lined_up(m.dispatch(now, before).0),
    decreases count_jobs(m.jobs, JobSel::Ready),
{
    match m.next_awaited() {
        None => {
            assert forall|o: JobId, c: ConnId|
                #![trigger is_ready(m, o), m.conns.contains_key(c)]
                is_ready(m, o) && open_at(m, m.jobs[o].tube, now) implies !awaits(
                m,
                c,
                m.jobs[o].tube,
            ) by {
                let t = m.jobs[o].tube;
                if awaits(m, c, t) {
                    assert(m.tube(t).waiting.items.contains(c));
                    assert(m.awaited(o));
                    lemma_there_is_a_next(m, o);
                }
            }
        },
        Some(id) => {
            assert(m.is_next_awaited(id));
            lemma_one(m, id, now);
            let c = m.next_waiter(m.jobs[id].tube);
            let h = m.handing_over(id, now);
            let o1 = before.push((c, ResponseView::Reserved { id, body: m.jobs[id].body }));
            assert(no_pause_over(h, now)) by {
                assert forall|t: TubeId| #[trigger]
                    h.live(t) && h.tube(t).unpause_at <= now implies h.tube(t).pause == 0 by {
                    assert(m.live(t));
                }
            }
            lemma_dispatched(h, now, o1);
            let (b, out) = h.dispatch(now, o1);
            lemma_chained(m, id, now, before, b, out);
        },
    }
}

/// One job handed over, and others after it.
proof fn lemma_chained(m: Model, id: JobId, now: Nanos, before: Out, b: Model, out: Out)
    requires
        lined_up(m),
        no_pause_over(m, now),
        now <= MAX_NOW,
        m.is_next_awaited(id),
        ({
            let c = m.next_waiter(m.jobs[id].tube);
            let o1 = before.push((c, ResponseView::Reserved { id, body: m.jobs[id].body }));
            handed_out(m.handing_over(id, now), o1, b, out, now)
        }),
    ensures
        handed_out(m, before, b, out, now),
{
    let c = m.next_waiter(m.jobs[id].tube);
    let first = (c, ResponseView::Reserved { id, body: m.jobs[id].body });
    let h = m.handing_over(id, now);
    let o1 = before.push(first);
    lemma_one(m, id, now);
    let k0 = before.len() as int;
    assert(out[k0] == first) by {
        assert(o1[k0] == first);
        assert(out.take(o1.len() as int)[k0] == out[k0]);
    }
    assert(before.is_prefix_of(out)) by {
        assert(out.take(k0) =~= before) by {
            assert forall|i: int| 0 <= i < k0 implies out[i] == before[i] by {
                assert(out.take(o1.len() as int)[i] == out[i]);
                assert(o1[i] == before[i]);
            }
        }
    }
    assert(m.live(m.jobs[id].tube));
    // What is ready later was ready before.
    assert forall|o: JobId| #[trigger] is_ready(h, o) implies is_ready(m, o) && o != id
        && m.jobs[o] == h.jobs[o] by {}
    assert forall|t: TubeId| #[trigger] open_at(h, t, now) == open_at(m, t, now) by {
        assert(h.live(t) == m.live(t));
    }
    assert forall|d: ConnId, t: TubeId| #[trigger] awaits(h, d, t) implies awaits(m, d, t) && d
        != c by {}
    assert(h.jobs[id].state == JobState::Reserved);
    assert(b.jobs[id] == h.jobs[id]) by {
        assert(h.jobs.contains_key(id));
        if exists|i: int| o1.len() <= i < out.len() && (#[trigger] out[i]).1->Reserved_id == id {
            let i = choose|i: int|
                o1.len() <= i < out.len() && (#[trigger] out[i]).1->Reserved_id == id;
            assert(hands(h, b, out[i], now));
        }
    }
    assert(b.conns[c] == h.conns[c]) by {
        assert(h.conns.contains_key(c));
        if exists|i: int| o1.len() <= i < out.len() && (#[trigger] out[i]).0 == c {
            let i = choose|i: int| o1.len() <= i < out.len() && (#[trigger] out[i]).0 == c;
            assert(hands(h, b, out[i], now));
        }
    }
    // Nobody waits for a job of an open tube that is better.
    assert forall|o: JobId, d: ConnId|
        #![trigger is_ready(m, o), m.conns.contains_key(d)]
        is_ready(m, o) && o != id && open_at(m, m.jobs[o].tube, now) && awaits(
            m,
            d,
            m.jobs[o].tube,
        ) implies better(m, id, o) by {
        let t = m.jobs[o].tube;
        assert(m.tube(t).waiting.items.contains(d));
        assert(m.awaited(o));
        assert(m.before(id, o));
    }
    assert forall|i: int| k0 <= i < out.len() implies hands(m, b, #[trigger] out[i], now) by {
        if i == k0 {
        } else {
            assert(hands(h, b, out[i], now));
            let o = out[i].1->Reserved_id;
            assert(is_ready(h, o));
            assert(awaits(h, out[i].0, h.jobs[o].tube));
            assert(open_at(h, h.jobs[o].tube, now));
        }
    }
    assert forall|i: int, k: int|
        #![trigger out[i], out[k]]
        k0 <= i < k < out.len() implies better(
        m,
        out[i].1->Reserved_id,
        out[k].1->Reserved_id,
    ) by {
        assert(hands(h, b, out[k], now));
        let o = out[k].1->Reserved_id;
        assert(is_ready(h, o));
        if i == k0 {
            assert(awaits(h, out[k].0, h.jobs[o].tube));
            assert(open_at(h, h.jobs[o].tube, now));
            assert(is_ready(m, o) && m.conns.contains_key(out[k].0));
        } else {
            assert(hands(h, b, out[i], now));
            assert(is_ready(h, out[i].1->Reserved_id));
            assert(better(h, out[i].1->Reserved_id, o));
        }
    }
    assert forall|i: int, o: JobId|
        #![trigger out[i], is_ready(b, o)]
        k0 <= i < out.len() && is_ready(b, o) && open_at(m, m.jobs[o].tube, now)
            && m.conns[out[i].0].watch.items.contains(m.jobs[o].tube) implies better(
        m,
        out[i].1->Reserved_id,
        o,
    ) by {
        assert(h.jobs.contains_key(o));
        assert(b.jobs[o] == h.jobs[o]) by {
            if exists|l: int| o1.len() <= l < out.len() && (#[trigger] out[l]).1->Reserved_id == o {
                let l = choose|l: int|
                    o1.len() <= l < out.len() && (#[trigger] out[l]).1->Reserved_id == o;
                assert(hands(h, b, out[l], now));
            }
        }
        assert(is_ready(h, o));
        assert(open_at(h, h.jobs[o].tube, now));
        if i == k0 {
            assert(awaits(m, c, m.jobs[o].tube));
            assert(is_ready(m, o) && m.conns.contains_key(c));
        } else {
            assert(hands(h, b, out[i], now));
            assert(is_ready(h, out[i].1->Reserved_id));
            assert(awaits(h, out[i].0, h.jobs[out[i].1->Reserved_id].tube));
            assert(h.conns[out[i].0] == m.conns[out[i].0]);
            assert(better(h, out[i].1->Reserved_id, o));
        }
    }
    assert forall|o: JobId| #[trigger] m.jobs.contains_key(o) implies b.jobs[o] == m.jobs[o]
        || exists|i: int| k0 <= i < out.len() && (#[trigger] out[i]).1->Reserved_id == o by {
        assert(h.jobs.contains_key(o));
        if o == id {
            assert(out[k0].1->Reserved_id == o);
        }
    }
    assert forall|d: ConnId| #[trigger] m.conns.contains_key(d) implies same_client(
        m.conns[d],
        b.conns[d],
    ) && (b.conns[d] == m.conns[d] || exists|i: int|
        k0 <= i < out.len() && (#[trigger] out[i]).0 == d) by {
        assert(h.conns.contains_key(d));
        if d == c {
            assert(out[k0].0 == d);
        }
    }
    assert forall|t: TubeId| #[trigger] b.live(t) == m.live(t) by {
        assert(b.live(t) == h.live(t));
        assert(h.live(t) == m.live(t));
    }
    assert forall|t: TubeId| #[trigger] m.live(t) implies same_tube(m.tube(t), b.tube(t), now) by {
        assert(h.live(t));
    }
}

/// Expired pauses are lifted.
proof fn lemma_lifted(m: Model, now: Nanos)
    requires
        lined_up(m),
    ensures
        lined_up(m.unpaused(now)),
        no_pause_over(m.unpaused(now), now),
        forall|t: TubeId| #[trigger] m.unpaused(now).live(t) == m.live(t),
        forall|t: TubeId| #[trigger]
            m.live(t) ==> same_tube(m.tube(t), m.unpaused(now).tube(t), now) && m.unpaused(
                now,
            ).tube(t).waiting == m.tube(t).waiting,
{
    let n = m.unpaused(now);
    assert forall|t: TubeId| #[trigger] n.live(t) == m.live(t) by {}
    assert forall|t: TubeId| #[trigger] m.live(t) implies same_tube(m.tube(t), n.tube(t), now)
        && n.tube(t).waiting == m.tube(t).waiting by {
        assert(n.live(t));
    }
    assert forall|t: TubeId, c: ConnId| n.live(t) implies (#[trigger] n.tube(
        t,
    ).waiting.items.contains(c) <==> awaits(n, c, t)) by {
        assert(m.live(t));
        assert(m.tube(t).waiting.items.contains(c) <==> awaits(m, c, t));
    }
    assert forall|t: TubeId| #[trigger] n.live(t) implies n.tube(
        t,
    ).waiting.items.no_duplicates() by {
        assert(m.live(t));
    }
    assert forall|o: JobId| #[trigger] n.jobs.contains_key(o) implies n.jobs[o].id == o && n.live(
        n.jobs[o].tube,
    ) by {
        assert(m.jobs.contains_key(o));
        assert(m.live(m.jobs[o].tube));
    }
}

/// Whenever jobs are handed out, the best one goes first; each goes to a
/// connection that waits and watches its tube, and is reserved for its time to
/// run; a tube that is paused gives none, and a pause that is over is none; and
/// nobody is left waiting for a job that is ready in an open tube. Nothing else
/// changes.
pub proof fn best_jobs_go_first(m: Model, now: Nanos, before: Out)
    requires
        lined_up(m),
        now <= MAX_NOW,
    ensures
        handed_out(
            m,
            before,
            m.process_queue(now, before).0,
            m.process_queue(now, before).1,
            now,
        ),
        lined_up(m.process_queue(now, before).0),
{
    let u = m.unpaused(now);
    lemma_lifted(m, now);
    lemma_dispatched(u, now, before);
    let (b, out) = u.dispatch(now, before);
    assert forall|t: TubeId| #[trigger] open_at(u, t, now) == open_at(m, t, now) by {
        assert(u.live(t) == m.live(t));
        if m.live(t) {
            assert(same_tube(m.tube(t), u.tube(t), now));
        }
    }
    assert forall|i: int| before.len() <= i < out.len() implies hands(
        m,
        b,
        #[trigger] out[i],
        now,
    ) by {
        assert(hands(u, b, out[i], now));
        assert(open_at(u, u.jobs[out[i].1->Reserved_id].tube, now));
    }
    assert forall|i: int, k: int|
        #![trigger out[i], out[k]]
        before.len() <= i < k < out.len() implies better(
        m,
        out[i].1->Reserved_id,
        out[k].1->Reserved_id,
    ) by {
        assert(better(u, out[i].1->Reserved_id, out[k].1->Reserved_id));
    }
    assert forall|i: int, o: JobId|
        #![trigger out[i], is_ready(b, o)]
        before.len() <= i < out.len() && is_ready(b, o) && open_at(m, m.jobs[o].tube, now)
            && m.conns[out[i].0].watch.items.contains(m.jobs[o].tube) implies better(
        m,
        out[i].1->Reserved_id,
        o,
    ) by {
        assert(open_at(u, u.jobs[o].tube, now));
        assert(better(u, out[i].1->Reserved_id, o));
    }
    assert forall|t: TubeId| #[trigger] b.live(t) == m.live(t) by {
        assert(b.live(t) == u.live(t));
        assert(u.live(t) == m.live(t));
    }
    assert forall|t: TubeId| #[trigger] m.live(t) implies same_tube(m.tube(t), b.tube(t), now) by {
        assert(u.live(t));
        assert(same_tube(u.tube(t), b.tube(t), now));
    }
}

/// Where a job is next, it is handed out first.
pub proof fn lemma_first_reply(m: Model, now: Nanos, before: Out)
    requires
        lined_up(m),
        now <= MAX_NOW,
        m.unpaused(now).next_awaited() is Some,
    ensures
        ({
            let u = m.unpaused(now);
            let id = u.next_awaited()->0;
            let out = m.process_queue(now, before).1;
            &&& out.len() > before.len()
            &&& out[before.len() as int] == (
                u.next_waiter(u.jobs[id].tube),
                ResponseView::Reserved { id, body: u.jobs[id].body },
            )
            &&& u.is_next_awaited(id)
        }),
{
    let u = m.unpaused(now);
    lemma_lifted(m, now);
    let id = u.next_awaited()->0;
    assert(u.is_next_awaited(id));
    let c = u.next_waiter(u.jobs[id].tube);
    let first = (c, ResponseView::Reserved { id, body: u.jobs[id].body });
    let h = u.handing_over(id, now);
    lemma_one(u, id, now);
    assert(no_pause_over(h, now)) by {
        assert forall|v: TubeId| #[trigger]
            h.live(v) && h.tube(v).unpause_at <= now implies h.tube(v).pause == 0 by {
            assert(u.live(v));
        }
    }
    let o1 = before.push(first);
    lemma_dispatched(h, now, o1);
    let out = h.dispatch(now, o1).1;
    assert(out[before.len() as int] == first) by {
        assert(o1[before.len() as int] == first);
        assert(out.take(o1.len() as int)[before.len() as int] == out[before.len() as int]);
    }
}

/// Of those that wait for a tube, the one whose turn it is gets the first job:
/// the one at the tube's cursor, counted round from the front of the list.
pub proof fn waiters_take_turns(m: Model, now: Nanos, before: Out)
    requires
        lined_up(m),
        now <= MAX_NOW,
    ensures
        ({
            let out = m.process_queue(now, before).1;
            let (c, r) = out[before.len() as int];
            let w = m.tube(m.jobs[r->Reserved_id].tube).waiting;
            out.len() > before.len() ==> w.items.len() > 0 && c == w.items[w.last as int
                % w.items.len() as int]
        }),
{
    let u = m.unpaused(now);
    lemma_lifted(m, now);
    if u.next_awaited() is Some {
        lemma_first_reply(m, now, before);
        let t = u.jobs[u.next_awaited()->0].tube;
        assert(m.live(t) == u.live(t));
    }
}

} // verus!
