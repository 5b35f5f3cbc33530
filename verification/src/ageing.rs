//! What the passing of time does: delays end, pauses end, reservations run out
//! and waits are over, each at its time and not before.

use crate::api::{ConnId, Nanos, SysSnapshot, MAX_NOW};
use crate::effects::{
    is_mine, lemma_also_kept, lemma_handed_well_kept, lemma_less_awaited, lemma_moved,
    lemma_orderly_well_kept, lemma_passed, lemma_same_stage, less_awaited, made_ready,
    nobody_kept_waiting, passed, same_stage, touch_begins_anew, well_kept,
};
use crate::handout::{
    awaits, best_jobs_go_first, hands, is_ready, lined_up, one_more, open_at, same_client,
    same_rest, same_tube,
};
use crate::inv::{lemma_least_exists, lemma_least_unique};
use crate::kicked::{lemma_less_still, lemma_unmoved};
use crate::model::{JobState, JobView, TubeId, TubeView};
use crate::ms::{lemma_position, lemma_swap_remove, position};
use crate::proto::{CommandView, JobId, ResponseView};
use crate::resting::{lemma_held_finite, rested, waits};
use crate::rules::{
    bump, bump32, count_jobs, is_least, least, pair_le, picked_jobs, reserved_set, JobSel, Model,
    Out,
};
use crate::settle::{orderly, quiet};
use vstd::prelude::*;

verus! {

/// Whether a job that is `a` is due at `now`: its delay has passed, or its
/// reservation has run out.
pub open spec fn is_due(a: JobView, now: Nanos) -> bool {
    ||| a.state == JobState::Delayed && a.deadline_at <= now
    ||| a.state == JobState::Reserved && a.deadline_at < now
}

/// Whether job `id` of `m` has become due and ready in `n`, or is with whoever
/// waited for it; a reservation that ran out is counted.
pub open spec fn came_due(m: Model, n: Model, id: JobId, now: Nanos) -> bool {
    let (a, b) = (m.jobs[id], n.jobs[id]);
    &&& is_due(a, now)
    &&& made_ready(m, a, a.pri, a.delay, b, now)
    &&& a.state == JobState::Reserved ==> one_more(a.timeout_ct, b.timeout_ct)
    &&& a.state == JobState::Delayed ==> b.timeout_ct == a.timeout_ct
    &&& b.release_ct == a.release_ct
    &&& b.bury_ct == a.bury_ct
    &&& b.kick_ct == a.kick_ct
}

/// Whether job `id` of `m` is in `n` as it was, or has been handed out, or came
/// due.
pub open spec fn aged(m: Model, n: Model, id: JobId, now: Nanos) -> bool {
    n.jobs.contains_key(id) && (passed(m, n, id, now) || came_due(m, n, id, now))
}

/// Whether tube `a` has become `b` with nothing done to it but that its pause,
/// if it is over by `now`, may be lifted.
pub open spec fn tube_aged(a: TubeView, b: TubeView, now: Nanos) -> bool {
    &&& b.name == a.name
    &&& b.buried == a.buried
    &&& b.pause == a.pause || (a.unpause_at <= now && b.pause == 0)
    &&& b.unpause_at == a.unpause_at
    &&& b.pause_ct == a.pause_ct
    &&& b.total_delete_ct == a.total_delete_ct
    &&& b.total_jobs_ct == a.total_jobs_ct
}

/// Whether reply `r` is in its place: to a connection that waited and waits no
/// longer, which has been handed a job, or holds one whose reservation runs out
/// within a second, or whose own wait is over while it holds none such.
pub open spec fn told_in_time(m: Model, n: Model, r: (ConnId, ResponseView), now: Nanos) -> bool {
    &&& waits(m, r.0)
    &&& !waits(n, r.0)
    &&& match r.1 {
        ResponseView::Reserved { id, body } => {
            &&& m.jobs.contains_key(id)
            &&& body == m.jobs[id].body
            &&& n.jobs[id].state == JobState::Reserved
            &&& n.jobs[id].reserver == Some(r.0)
            &&& n.jobs[id].deadline_at == now + m.jobs[id].ttr * 1_000_000_000
            &&& m.conns[r.0].watch.items.contains(m.jobs[id].tube)
        },
        ResponseView::DeadlineSoon => exists|id: JobId| #[trigger]
            is_mine(m, r.0, id) && m.jobs[id].deadline_at <= now + 1_000_000_000,
        ResponseView::TimedOut => {
            &&& m.conns[r.0].wait_deadline is Some
            &&& m.conns[r.0].wait_deadline->0 <= now
            &&& forall|id: JobId| #[trigger]
                is_mine(n, r.0, id) ==> n.jobs[id].deadline_at > now + 1_000_000_000
        },
        _ => false,
    }
}

/// The jobs whose timeouts differ between `m` and `n`.
pub open spec fn timed_out(m: Model, n: Model) -> Set<JobId> {
    m.jobs.dom().filter(|id: JobId| n.jobs[id].timeout_ct != m.jobs[id].timeout_ct)
}

/// Whether from `m` to `n` time did its work at `now`, or some of it, and
/// nothing else happened.
pub open spec fn worked(m: Model, before: Out, n: Model, out: Out, now: Nanos) -> bool {
    &&& well_kept(n)
    &&& less_awaited(m, n, now)
    &&& n.jobs.dom() == m.jobs.dom()
    &&& forall|id: JobId| #[trigger] m.jobs.contains_key(id) ==> aged(m, n, id, now)
    &&& forall|id: JobId| #[trigger]
        m.jobs.contains_key(id) && n.jobs[id] != m.jobs[id] && n.jobs[id].state
            == JobState::Reserved ==> !waits(n, n.jobs[id].reserver->0)
    &&& n.timeout_ct as int == (m.timeout_ct + timed_out(m, n).len())
        % 0x1_0000_0000_0000_0000
    &&& forall|t: TubeId| #[trigger] m.live(t) ==> tube_aged(m.tube(t), n.tube(t), now)
    &&& n.conns.dom() == m.conns.dom()
    &&& forall|c: ConnId| #[trigger] m.conns.contains_key(c) ==> same_client(m.conns[c], n.conns[c])
    &&& forall|c: ConnId| #[trigger]
        waits(n, c) ==> waits(m, c) && n.conns[c].wait_deadline == m.conns[c].wait_deadline
    &&& same_rest(m, Model { timeout_ct: m.timeout_ct, ..n })
    &&& before.is_prefix_of(out)
    &&& forall|i: int| before.len() <= i < out.len() ==> told_in_time(m, n, #[trigger] out[i], now)
    &&& forall|c: ConnId| #[trigger]
        waits(m, c) && !waits(n, c) ==> exists|i: int|
            before.len() <= i < out.len() && (#[trigger] out[i]).0 == c
}

/// Nothing done is some of the work.
proof fn lemma_no_work(m: Model, out: Out, now: Nanos)
    requires
        well_kept(m),
    ensures
        worked(m, out, m, out, now),
{
    lemma_unmoved(m, now);
    assert(timed_out(m, m) =~= Set::empty());
    assert(forall|id: JobId| #[trigger] m.jobs.contains_key(id) ==> aged(m, m, id, now));
}

/// A job that aged, and aged on.
proof fn lemma_aged_on(m: Model, k: Model, n: Model, id: JobId, now: Nanos)
    requires
        less_awaited(m, k, now),
        m.jobs.contains_key(id),
        m.jobs[id].ttr >= 1,
        aged(m, k, id, now),
        aged(k, n, id, now),
    ensures
        aged(m, n, id, now),
        k.jobs[id].timeout_ct != m.jobs[id].timeout_ct ==> n.jobs[id].timeout_ct
            == k.jobs[id].timeout_ct,
        k.jobs[id] != m.jobs[id] && k.jobs[id].state == JobState::Reserved ==> n.jobs[id]
            == k.jobs[id],
{
    let (a, b, c) = (m.jobs[id], k.jobs[id], n.jobs[id]);
    assert(a.ttr * 1_000_000_000 >= 0) by (nonlinear_arith)
        requires
            a.ttr >= 1,
    ;
    if c.reserver is Some {
        assert(awaits(k, c.reserver->0, a.tube) ==> awaits(m, c.reserver->0, a.tube));
    }
    assert(open_at(k, a.tube, now) == open_at(m, a.tube, now));
    if b == a {
    } else if b.state == JobState::Reserved {
        assert(b.deadline_at >= now);
        assert(c == b);
    } else {
        assert(b.state == JobState::Ready);
    }
}

/// Some of the work, and more of it.
proof fn lemma_worked_on(m: Model, o1: Out, k: Model, o2: Out, n: Model, o3: Out, now: Nanos)
    requires
        well_kept(m),
        worked(m, o1, k, o2, now),
        worked(k, o2, n, o3, now),
    ensures
        worked(m, o1, n, o3, now),
{
    lemma_less_still(m, k, n, now);
    assert forall|id: JobId| #[trigger] m.jobs.contains_key(id) implies aged(m, n, id, now) by {
        assert(k.jobs.dom().contains(id));
        lemma_aged_on(m, k, n, id, now);
    }
    assert forall|id: JobId| #[trigger]
        m.jobs.contains_key(id) && n.jobs[id] != m.jobs[id] && n.jobs[id].state
            == JobState::Reserved implies !waits(n, n.jobs[id].reserver->0) by {
        assert(k.jobs.dom().contains(id));
        lemma_aged_on(m, k, n, id, now);
        if n.jobs[id] == k.jobs[id] {
            assert(!waits(k, k.jobs[id].reserver->0));
        }
    }
    let (a, b, c) = (timed_out(m, k), timed_out(k, n), timed_out(m, n));
    assert(a.disjoint(b)) by {
        assert forall|id: JobId| !(a.contains(id) && b.contains(id)) by {
            if m.jobs.contains_key(id) {
                assert(k.jobs.dom().contains(id));
                lemma_aged_on(m, k, n, id, now);
            }
        }
    }
    assert(c =~= a.union(b)) by {
        assert forall|id: JobId| c.contains(id) == a.union(b).contains(id) by {
            assert(k.jobs.dom().contains(id) == m.jobs.dom().contains(id));
            if m.jobs.contains_key(id) {
                lemma_aged_on(m, k, n, id, now);
            }
        }
    }
    assert(a.finite() && b.finite());
    vstd::set_lib::lemma_set_disjoint_lens(a, b);
    assert(n.timeout_ct as int == (m.timeout_ct + c.len()) % 0x1_0000_0000_0000_0000) by {
        let big = 0x1_0000_0000_0000_0000int;
        let (x, y) = (a.len() as int, b.len() as int);
        vstd::arithmetic::div_mod::lemma_add_mod_noop(m.timeout_ct + x, y, big);
        vstd::arithmetic::div_mod::lemma_mod_twice(m.timeout_ct + x, big);
        vstd::arithmetic::div_mod::lemma_add_mod_noop((m.timeout_ct + x) % big, y, big);
    }
    assert forall|t: TubeId| #[trigger] m.live(t) implies tube_aged(m.tube(t), n.tube(t), now) by {
        assert(k.live(t));
    }
    assert forall|q: ConnId| #[trigger] m.conns.contains_key(q) implies same_client(
        m.conns[q],
        n.conns[q],
    ) by {
        assert(k.conns.dom().contains(q));
    }
    assert forall|q: ConnId| #[trigger] waits(n, q) implies waits(m, q) && n.conns[q].wait_deadline
        == m.conns[q].wait_deadline by {
        assert(waits(k, q));
    }
    assert(o1.is_prefix_of(o3)) by {
        assert(o3.take(o1.len() as int) =~= o2.take(o1.len() as int));
    }
    assert forall|i: int| o1.len() <= i < o3.len() implies told_in_time(
        m,
        n,
        #[trigger] o3[i],
        now,
    ) by {
        let r = o3[i];
        if i < o2.len() {
            assert(o2[i] == r) by {
                assert(o3.take(o2.len() as int)[i] == o3[i]);
            }
            assert(told_in_time(m, k, o2[i], now));
            assert(!waits(n, r.0)) by {
                if waits(n, r.0) {
                    assert(waits(k, r.0));
                }
            }
            if let ResponseView::Reserved { id, body } = r.1 {
                assert(k.jobs.dom().contains(id));
                lemma_aged_on(m, k, n, id, now);
                assert(m.jobs[id].ttr * 1_000_000_000 >= 0) by (nonlinear_arith)
                    requires
                        m.jobs[id].ttr >= 1,
                ;
            }
            if r.1 is TimedOut {
                assert forall|id: JobId| #[trigger] is_mine(n, r.0, id) implies n.jobs[id].deadline_at
                    > now + 1_000_000_000 by {
                    assert(k.jobs.dom().contains(id));
                    assert(aged(k, n, id, now));
                    assert(!waits(k, r.0));
                    assert(!awaits(k, r.0, k.jobs[id].tube));
                    assert(is_mine(k, r.0, id));
                }
            }
        } else {
            assert(told_in_time(k, n, r, now));
            assert(waits(m, r.0));
            match r.1 {
                ResponseView::Reserved { id, body } => {
                    assert(m.jobs.dom().contains(id));
                    lemma_aged_on(m, k, n, id, now);
                    assert(m.conns.contains_key(r.0));
                    assert(same_client(m.conns[r.0], k.conns[r.0]));
                },
                ResponseView::DeadlineSoon => {
                    let id = choose|id: JobId| #[trigger]
                        is_mine(k, r.0, id) && k.jobs[id].deadline_at <= now + 1_000_000_000;
                    assert(m.jobs.dom().contains(id));
                    if k.jobs[id] != m.jobs[id] {
                        assert(!waits(k, k.jobs[id].reserver->0));
                    }
                    assert(is_mine(m, r.0, id));
                },
                _ => {},
            }
        }
    }
    assert forall|q: ConnId| #[trigger] waits(m, q) && !waits(n, q) implies exists|i: int|
        o1.len() <= i < o3.len() && (#[trigger] o3[i]).0 == q by {
        if waits(k, q) {
            let i = choose|i: int| o2.len() <= i < o3.len() && (#[trigger] o3[i]).0 == q;
            assert(o1.len() <= i);
        } else {
            let i = choose|i: int| o1.len() <= i < o2.len() && (#[trigger] o2[i]).0 == q;
            assert(o3.take(o2.len() as int)[i] == o3[i]);
        }
    }
}

/// Jobs are handed out, from a stage on which one job may have come due.
proof fn lemma_then_handed(m: Model, x: Model, id: JobId, now: Nanos, out: Out)
    requires
        well_kept(m),
        well_kept(x),
        now <= MAX_NOW,
        same_stage(m, x),
        same_rest(m, Model { timeout_ct: m.timeout_ct, ..x }),
        x.jobs.dom() == m.jobs.dom(),
        forall|k: JobId| #[trigger] m.jobs.contains_key(k) && k != id ==> x.jobs[k] == m.jobs[k],
        m.jobs.contains_key(id) && x.jobs[id] != m.jobs[id] ==> came_due(m, x, id, now)
            && x.jobs[id].state == JobState::Ready,
        x.timeout_ct as int == (m.timeout_ct + timed_out(m, x).len())
            % 0x1_0000_0000_0000_0000,
        forall|t: TubeId| #[trigger] m.live(t) ==> tube_aged(m.tube(t), x.tube(t), now),
        forall|c: ConnId| #[trigger]
            m.conns.contains_key(c) ==> same_client(m.conns[c], x.conns[c])
                && x.conns[c].wait_deadline == m.conns[c].wait_deadline,
    ensures
        worked(m, out, x.process_queue(now, out).0, x.process_queue(now, out).1, now),
        forall|k: JobId| #[trigger]
            x.jobs.contains_key(k) ==> passed(x, x.process_queue(now, out).0, k, now),
{
    let (n, o) = x.process_queue(now, out);
    best_jobs_go_first(x, now, out);
    lemma_passed(x, out, n, o, now);
    lemma_handed_well_kept(x, out, n, o, now);
    lemma_less_awaited(m, x, n, out, o, now);
    lemma_same_stage(m, x, now);
    assert forall|k: JobId| #[trigger] m.jobs.contains_key(k) implies aged(m, n, k, now) by {
        assert(x.jobs.dom().contains(k));
        assert(passed(x, n, k, now));
        let b = n.jobs[k];
        if b.reserver is Some {
            assert(awaits(x, b.reserver->0, m.jobs[k].tube) == awaits(
                m,
                b.reserver->0,
                m.jobs[k].tube,
            ));
        }
        assert(open_at(x, m.jobs[k].tube, now) == open_at(m, m.jobs[k].tube, now));
    }
    assert(timed_out(m, n) =~= timed_out(m, x)) by {
        assert forall|k: JobId| timed_out(m, n).contains(k) == timed_out(m, x).contains(k) by {
            if m.jobs.contains_key(k) {
                assert(x.jobs.dom().contains(k));
                assert(passed(x, n, k, now));
            }
        }
    }
    assert forall|k: JobId| #[trigger]
        m.jobs.contains_key(k) && n.jobs[k] != m.jobs[k] && n.jobs[k].state
            == JobState::Reserved implies !waits(n, n.jobs[k].reserver->0) by {
        assert(x.jobs.dom().contains(k));
        if n.jobs[k] != x.jobs[k] {
            let i = choose|i: int|
                out.len() <= i < o.len() && (#[trigger] o[i]).1->Reserved_id == k;
            assert(hands(x, n, o[i], now));
        }
    }
    assert forall|t: TubeId| #[trigger] m.live(t) implies tube_aged(m.tube(t), n.tube(t), now) by {
        assert(x.live(t));
        assert(same_tube(x.tube(t), n.tube(t), now));
    }
    assert forall|c: ConnId| #[trigger] m.conns.contains_key(c) implies same_client(
        m.conns[c],
        n.conns[c],
    ) by {
        assert(x.conns.dom().contains(c));
    }
    assert forall|c: ConnId| #[trigger] waits(n, c) implies waits(m, c) && n.conns[c].wait_deadline
        == m.conns[c].wait_deadline by {
        assert(x.conns.dom().contains(c));
        assert(m.conns.dom().contains(c));
        if n.conns[c] != x.conns[c] {
            let i = choose|i: int| out.len() <= i < o.len() && (#[trigger] o[i]).0 == c;
            assert(hands(x, n, o[i], now));
        }
    }
    assert forall|i: int| out.len() <= i < o.len() implies told_in_time(
        m,
        n,
        #[trigger] o[i],
        now,
    ) by {
        assert(hands(x, n, o[i], now));
        let k = o[i].1->Reserved_id;
        assert(x.conns.dom().contains(o[i].0));
        assert(m.jobs.dom().contains(k));
    }
    assert forall|c: ConnId| #[trigger] waits(m, c) && !waits(n, c) implies exists|i: int|
        out.len() <= i < o.len() && (#[trigger] o[i]).0 == c by {
        assert(x.conns.dom().contains(c));
        assert(n.conns[c] != x.conns[c]);
    }
}

/// Jobs are handed out.
proof fn lemma_queued(m: Model, now: Nanos, out: Out)
    requires
        well_kept(m),
        now <= MAX_NOW,
    ensures
        worked(m, out, m.process_queue(now, out).0, m.process_queue(now, out).1, now),
{
    assert(timed_out(m, m) =~= Set::empty());
    lemma_then_handed(m, m, 0, now, out);
}

/// A job comes due, and jobs are handed out.
proof fn lemma_woken(m: Model, id: JobId, late: bool, now: Nanos, out: Out)
    requires
        well_kept(m),
        now <= MAX_NOW,
        m.jobs.contains_key(id),
        is_due(m.jobs[id], now),
        late == (m.jobs[id].state == JobState::Reserved),
    ensures
        ({
            let a = m.jobs[id];
            let k = if late {
                Model { timeout_ct: bump(m.timeout_ct), ..m }
            } else {
                m
            };
            let j = JobView {
                state: JobState::Ready,
                reserver: None,
                timeout_ct: if late {
                    bump32(a.timeout_ct)
                } else {
                    a.timeout_ct
                },
                ..a
            };
            let (n, o) = k.without_job(id).with_job(j).process_queue(now, out);
            worked(m, out, n, o, now)
        }),
{
    let a = m.jobs[id];
    let k = if late {
        Model { timeout_ct: bump(m.timeout_ct), ..m }
    } else {
        m
    };
    let j = JobView {
        state: JobState::Ready,
        reserver: None,
        timeout_ct: if late {
            bump32(a.timeout_ct)
        } else {
            a.timeout_ct
        },
        ..a
    };
    lemma_also_kept(m, k);
    lemma_moved(k, j);
    let x = k.without_job(id).with_job(j);
    assert(x.jobs.dom() =~= m.jobs.dom());
    assert(same_stage(m, x)) by {
        assert forall|t: TubeId| #[trigger] x.live(t) == m.live(t) by {
            assert(x.live(t) == k.live(t));
        }
        assert forall|t: TubeId| #[trigger] m.live(t) implies x.tube(t).pause == m.tube(t).pause
            && x.tube(t).unpause_at == m.tube(t).unpause_at && x.tube(t).waiting == m.tube(
            t,
        ).waiting by {
            assert(k.live(t));
        }
    }
    let s = timed_out(m, x);
    if late {
        assert(s =~= set![id]);
        assert(s.len() == 1) by {
            assert(set![id] =~= Set::empty().insert(id));
        }
    } else {
        assert(s =~= Set::empty());
    }
    assert forall|t: TubeId| #[trigger] m.live(t) implies tube_aged(m.tube(t), x.tube(t), now) by {
        assert(k.live(t));
        let b = m.tube(t).buried;
        assert(m.tube(t).buried.contains(id) ==> m.jobs[id].state == JobState::Buried);
    }
    assert(came_due(m, x, id, now));
    lemma_then_handed(m, x, id, now, out);
}

/// Delays pass.
proof fn lemma_delays_pass(m: Model, now: Nanos, out: Out)
    requires
        well_kept(m),
        now <= MAX_NOW,
    ensures
        worked(m, out, m.release_due(now, out).0, m.release_due(now, out).1, now),
    decreases count_jobs(m.jobs, JobSel::Delayed),
{
    lemma_no_work(m, out, now);
    if m.soonest_delayed() is Some {
        let id = m.soonest_delayed()->0;
        assert(m.is_soonest_delayed(id));
        assert(m.is_delayed(id));
        if m.jobs[id].deadline_at <= now {
            lemma_woken(m, id, false, now, out);
            let (k, o) = m.readying(id).process_queue(now, out);
            if count_jobs(k.jobs, JobSel::Delayed) < count_jobs(m.jobs, JobSel::Delayed) {
                lemma_delays_pass(k, now, o);
                let (n, o3) = k.release_due(now, o);
                lemma_worked_on(m, out, k, o, n, o3, now);
            }
        }
    }
}

/// Reservations run out.
proof fn lemma_expired(m: Model, c: ConnId, now: Nanos, out: Out)
    requires
        well_kept(m),
        now <= MAX_NOW,
    ensures
        worked(m, out, m.expire(c, now, out).0, m.expire(c, now, out).1, now),
    decreases count_jobs(m.jobs, JobSel::Overdue(now)),
{
    lemma_no_work(m, out, now);
    if m.soonest_reserved(c) is Some {
        let p = m.soonest_reserved(c)->0;
        let s = reserved_set(m.jobs, c);
        let q = choose|q: (u64, u64)| is_least(s, q);
        assert(is_least(s, q));
        lemma_least_unique(s, q);
        assert(s.contains(p));
        let id = p.1;
        if p.0 < now {
            lemma_woken(m, id, true, now, out);
            let j = m.jobs[id];
            let (k, o) = (Model { timeout_ct: bump(m.timeout_ct), ..m }).without_job(id).with_job(
                JobView {
                    state: JobState::Ready,
                    reserver: None,
                    timeout_ct: bump32(j.timeout_ct),
                    ..j
                },
            ).process_queue(now, out);
            if count_jobs(k.jobs, JobSel::Overdue(now)) < count_jobs(m.jobs, JobSel::Overdue(now)) {
                lemma_expired(k, c, now, o);
                let (n, o3) = k.expire(c, now, o);
                lemma_worked_on(m, out, k, o, n, o3, now);
            }
        }
    }
}

/// A wait ends.
pub proof fn lemma_wait_ends(m: Model, c: ConnId)
    requires
        well_kept(m),
        waits(m, c),
    ensures
        ({
            let n = m.stop_waiting(c);
            &&& well_kept(n)
            &&& forall|d: ConnId, t: TubeId| #[trigger]
                awaits(n, d, t) <==> awaits(m, d, t) && d != c
            &&& forall|t: TubeId| #[trigger] n.live(t) == m.live(t)
            &&& forall|t: TubeId| #[trigger]
                m.live(t) ==> n.tube(t) == (TubeView {
                    waiting: n.tube(t).waiting,
                    ..m.tube(t)
                })
        }),
{
    let n = m.stop_waiting(c);
    assert(n.conns.dom() =~= m.conns.dom());
    assert forall|t: TubeId| #[trigger] n.live(t) == m.live(t) by {}
    assert forall|d: ConnId, t: TubeId| #[trigger] awaits(n, d, t) <==> awaits(m, d, t) && d
        != c by {}
    assert forall|t: TubeId| #[trigger] n.live(t) implies n.tube(t).waiting.items.no_duplicates()
        && forall|d: ConnId| #[trigger]
        n.tube(t).waiting.items.contains(d) <==> awaits(n, d, t) by {
        assert(m.live(t));
        let w = m.tube(t).waiting;
        assert(w.items.contains(c) <==> awaits(m, c, t));
        if m.conns[c].watch.items.contains(t) {
            lemma_position(w.items, c);
            lemma_swap_remove(w.items, position(w.items, c));
        }
        assert forall|d: ConnId| #[trigger] n.tube(t).waiting.items.contains(d) <==> awaits(
            n,
            d,
            t,
        ) by {
            assert(w.items.contains(d) <==> awaits(m, d, t));
        }
    }
    assert(lined_up(n)) by {
        assert forall|id: JobId| #[trigger] n.jobs.contains_key(id) implies n.jobs[id].id == id
            && n.live(n.jobs[id].tube) by {
            assert(m.jobs.contains_key(id));
            assert(m.live(m.jobs[id].tube));
        }
    }
    assert forall|t: TubeId, k: JobId|
        n.live(t) implies (#[trigger] n.tube(t).buried.contains(k) <==> n.jobs.contains_key(k)
        && n.jobs[k].state == JobState::Buried && n.jobs[k].tube == t) by {
        assert(m.live(t));
        assert(m.tube(t).buried.contains(k) == n.tube(t).buried.contains(k));
    }
    assert forall|t: TubeId| #[trigger] n.live(t) implies n.tube(t).buried.no_duplicates() by {
        assert(m.live(t));
    }
    assert forall|d: ConnId, k: JobId|
        n.conns.contains_key(d) implies (#[trigger] n.conns[d].reserved.contains(k) <==> is_mine(
        n,
        d,
        k,
    )) by {
        assert(m.conns[d].reserved.contains(k) <==> is_mine(m, d, k));
        assert(n.conns[d].reserved == m.conns[d].reserved);
    }
    assert forall|d: ConnId| #[trigger] n.conns.contains_key(d) implies n.conns[d].reserved.no_duplicates() by {
        assert(m.conns.contains_key(d));
    }
}

/// A connection that waits is told why it waits no longer.
proof fn lemma_told_off(m: Model, c: ConnId, r: ResponseView, now: Nanos, out: Out)
    requires
        well_kept(m),
        waits(m, c),
        r == ResponseView::DeadlineSoon ==> exists|id: JobId| #[trigger]
            is_mine(m, c, id) && m.jobs[id].deadline_at <= now + 1_000_000_000,
        r == ResponseView::TimedOut ==> m.conns[c].wait_deadline is Some
            && m.conns[c].wait_deadline->0 <= now && forall|id: JobId| #[trigger]
            is_mine(m, c, id) ==> m.jobs[id].deadline_at > now + 1_000_000_000,
        r is DeadlineSoon || r is TimedOut,
    ensures
        worked(m, out, m.stop_waiting(c), out.push((c, r)), now),
{
    let n = m.stop_waiting(c);
    let o = out.push((c, r));
    lemma_wait_ends(m, c);
    lemma_unmoved(m, now);
    assert(timed_out(m, n) =~= Set::empty());
    assert(less_awaited(m, n, now)) by {
        assert forall|t: TubeId| #[trigger] open_at(n, t, now) == open_at(m, t, now) by {
            assert(n.live(t) == m.live(t));
        }
    }
    assert forall|id: JobId| #[trigger] m.jobs.contains_key(id) implies aged(m, n, id, now) by {
        assert(passed(m, n, id, now));
    }
    assert(n.conns.dom() =~= m.conns.dom());
    assert(o.take(out.len() as int) =~= out);
    assert(o[out.len() as int] == (c, r));
    assert(!waits(n, c));
    assert forall|id: JobId| #[trigger] is_mine(n, c, id) implies is_mine(m, c, id) by {}
}

/// A connection is attended to.
proof fn lemma_attended(m: Model, c: ConnId, now: Nanos, out: Out)
    requires
        well_kept(m),
        now <= MAX_NOW,
    ensures
        worked(m, out, m.attend(c, now, out).0, m.attend(c, now, out).1, now),
{
    lemma_expired(m, c, now, out);
    let (k, o) = m.expire(c, now, out);
    if waits(k, c) {
        if k.deadline_soon(c, now) {
            let s = reserved_set(k.jobs, c);
            let q = choose|q: (u64, u64)| is_least(s, q);
            assert(is_least(s, q));
            lemma_least_unique(s, q);
            assert(s.contains(q));
            assert(is_mine(k, c, q.1));
            lemma_told_off(k, c, ResponseView::DeadlineSoon, now, o);
            lemma_worked_on(
                m,
                out,
                k,
                o,
                k.stop_waiting(c),
                o.push((c, ResponseView::DeadlineSoon)),
                now,
            );
        } else if k.conns[c].wait_deadline is Some && k.conns[c].wait_deadline->0 <= now {
            assert forall|id: JobId| #[trigger] is_mine(k, c, id) implies k.jobs[id].deadline_at
                > now + 1_000_000_000 by {
                let s = reserved_set(k.jobs, c);
                let p = (k.jobs[id].deadline_at, id);
                assert(s.contains(p));
                lemma_held_finite(k, c);
                lemma_least_exists(s);
                assert(pair_le(least(s)->0, p));
            }
            lemma_told_off(k, c, ResponseView::TimedOut, now, o);
            lemma_worked_on(
                m,
                out,
                k,
                o,
                k.stop_waiting(c),
                o.push((c, ResponseView::TimedOut)),
                now,
            );
        }
    }
}

/// Every connection that needs it is attended to.
proof fn lemma_all_attended(m: Model, done: Set<ConnId>, now: Nanos, out: Out)
    requires
        well_kept(m),
        now <= MAX_NOW,
    ensures
        worked(m, out, m.attend_all(done, now, out).0, m.attend_all(done, now, out).1, now),
    decreases m.conns.dom().difference(done).len(),
{
    lemma_no_work(m, out, now);
    if least(m.due_conns(done, now)) is Some {
        let p = least(m.due_conns(done, now))->0;
        lemma_attended(m, p.1, now, out);
        let (k, o) = m.attend(p.1, now, out);
        if k.conns.dom().difference(done.insert(p.1)).len() < m.conns.dom().difference(
            done,
        ).len() {
            lemma_all_attended(k, done.insert(p.1), now, o);
            let (n, o3) = k.attend_all(done.insert(p.1), now, o);
            lemma_worked_on(m, out, k, o, n, o3, now);
        }
    }
}

/// A tick does what is due by now and nothing else. A delay that has not passed,
/// a reservation that has not run out and a pause that is not over stay as they
/// are, and so does a job that is buried; a job that came due is ready, or with
/// whoever waited for it; and whoever is told something waited, and is told why
/// it waits no longer.
pub proof fn a_tick_does_only_what_is_due(m: Model, now: Nanos, out: Out)
    requires
        orderly(m),
        now <= MAX_NOW,
    ensures
        worked(m, out, m.tick(now, out).0, m.tick(now, out).1, now),
{
    lemma_orderly_well_kept(m);
    lemma_work(m, now, out);
}

/// As `a_tick_does_only_what_is_due`.
proof fn lemma_work(m: Model, now: Nanos, out: Out)
    requires
        well_kept(m),
        now <= MAX_NOW,
    ensures
        worked(m, out, m.tick(now, out).0, m.tick(now, out).1, now),
{
    lemma_delays_pass(m, now, out);
    let (m1, o1) = m.release_due(now, out);
    lemma_no_work(m1, o1, now);
    lemma_queued(m1, now, o1);
    let (m2, o2) = if m1.pause_expired(now) {
        m1.process_queue(now, o1)
    } else {
        (m1, o1)
    };
    lemma_worked_on(m, out, m1, o1, m2, o2, now);
    lemma_all_attended(m2, Set::empty(), now, o2);
    let (n, o) = m2.attend_all(Set::empty(), now, o2);
    lemma_worked_on(m, out, m2, o2, n, o, now);
}

/// Whether from `m` to `n` all was done that was due by `now`: every job that
/// was due has come due, every pause that was over is lifted, and whoever waits
/// still has time left and holds no job that runs out within a second.
pub open spec fn all_done(m: Model, n: Model, now: Nanos) -> bool {
    &&& forall|id: JobId| #[trigger]
        m.jobs.contains_key(id) ==> (if is_due(m.jobs[id], now) {
            came_due(m, n, id, now)
        } else {
            passed(m, n, id, now)
        })
    &&& forall|t: TubeId| #[trigger]
        m.live(t) ==> n.tube(t).pause == (if m.tube(t).unpause_at <= now {
            0
        } else {
            m.tube(t).pause
        })
    &&& forall|c: ConnId| #[trigger]
        waits(n, c) ==> (n.conns[c].wait_deadline is Some ==> n.conns[c].wait_deadline->0 > now)
    &&& forall|c: ConnId, id: JobId|
        #![trigger is_mine(n, c, id)]
        waits(n, c) && is_mine(n, c, id) ==> n.jobs[id].deadline_at > now + 1_000_000_000
}

/// A tick that has left nothing to do has done all that was due.
pub proof fn a_tick_does_all_that_is_due(m: Model, now: Nanos, out: Out)
    requires
        orderly(m),
        now <= MAX_NOW,
        rested(m.tick(now, out).0, now),
    ensures
        all_done(m, m.tick(now, out).0, now),
{
    a_tick_does_only_what_is_due(m, now, out);
    let n = m.tick(now, out).0;
    assert forall|id: JobId| #[trigger] m.jobs.contains_key(id) implies (if is_due(
        m.jobs[id],
        now,
    ) {
        came_due(m, n, id, now)
    } else {
        passed(m, n, id, now)
    }) by {
        assert(aged(m, n, id, now));
        let a = m.jobs[id];
        if is_due(a, now) && n.jobs[id] == a {
            if a.state == JobState::Delayed {
                assert(n.is_delayed(id));
            } else {
                let c = a.reserver->0;
                assert(n.conns.dom().contains(c));
                assert(n.conns.contains_key(c));
                assert(n.holds(c, id));
            }
        }
    }
    assert forall|t: TubeId| #[trigger] m.live(t) implies n.tube(t).pause == (if m.tube(
        t,
    ).unpause_at <= now {
        0
    } else {
        m.tube(t).pause
    }) by {
        assert(n.live(t));
    }
    assert forall|c: ConnId, id: JobId|
        #![trigger is_mine(n, c, id)]
        waits(n, c) && is_mine(n, c, id) implies n.jobs[id].deadline_at > now + 1_000_000_000 by {
        assert(n.conns.contains_key(c));
        assert(n.holds(c, id));
    }
}

/// A job that was touched stays with its holder, as it is, for its whole time to
/// run from then on: a tick up to that time leaves it alone.
pub proof fn touched_job_is_kept(
    m: Model,
    now: Nanos,
    c: ConnId,
    id: JobId,
    sys: SysSnapshot,
    out: Out,
    at: Nanos,
    later: Out,
)
    requires
        orderly(m),
        now <= MAX_NOW,
        m.conns.contains_key(c),
        is_mine(m, c, id),
        at <= MAX_NOW,
        at <= now + m.jobs[id].ttr * 1_000_000_000,
    ensures
        ({
            let k = m.handle(now, c, CommandView::Touch(id), sys, out).0;
            let n = k.tick(at, later).0;
            is_mine(n, c, id) && n.jobs[id] == k.jobs[id] && n.jobs[id].deadline_at == now
                + m.jobs[id].ttr * 1_000_000_000
        }),
{
    touch_begins_anew(m, now, c, id, sys, out);
    let k = m.handle(now, c, CommandView::Touch(id), sys, out).0;
    lemma_orderly_well_kept(m);
    assert(k.jobs.dom() =~= m.jobs.dom());
    lemma_touched_kept(m, k);
    lemma_work(k, at, later);
    assert(k.jobs.contains_key(id));
    assert(aged(k, k.tick(at, later).0, id, at));
}

/// When a reservation runs out is no matter to the lists.
proof fn lemma_touched_kept(m: Model, k: Model)
    requires
        well_kept(m),
        k.tubes == m.tubes,
        k.conns == m.conns,
        k.jobs.dom() == m.jobs.dom(),
        forall|id: JobId| #[trigger]
            m.jobs.contains_key(id) ==> k.jobs[id] == (JobView {
                deadline_at: k.jobs[id].deadline_at,
                ..m.jobs[id]
            }),
    ensures
        well_kept(k),
{
    assert forall|t: TubeId| #[trigger] k.live(t) == m.live(t) && k.tube(t) == m.tube(t) by {}
    lemma_same_stage(m, k, 0);
    assert forall|t: TubeId| #[trigger] k.live(t) implies k.tube(t).buried.no_duplicates() by {
        assert(m.live(t));
    }
    assert forall|t: TubeId, q: JobId|
        k.live(t) implies (#[trigger] k.tube(t).buried.contains(q) <==> k.jobs.contains_key(q)
        && k.jobs[q].state == JobState::Buried && k.jobs[q].tube == t) by {
        assert(m.live(t));
        assert(m.tube(t).buried.contains(q) == k.tube(t).buried.contains(q));
        assert(k.jobs.dom().contains(q) == m.jobs.dom().contains(q));
        assert(m.jobs.contains_key(q) ==> k.jobs[q].state == m.jobs[q].state);
    }
    assert forall|c: ConnId, q: JobId|
        k.conns.contains_key(c) implies (#[trigger] k.conns[c].reserved.contains(q) <==> is_mine(
        k,
        c,
        q,
    )) by {
        assert(m.conns[c].reserved.contains(q) <==> is_mine(m, c, q));
        assert(k.jobs.dom().contains(q) == m.jobs.dom().contains(q));
        assert(m.jobs.contains_key(q) ==> k.jobs[q].state == m.jobs[q].state);
    }
    assert forall|q: JobId| #[trigger] k.jobs.contains_key(q) implies ({
        let j = k.jobs[q];
        &&& j.ttr >= 1
        &&& j.state == JobState::Reserved <==> j.reserver is Some
        &&& j.reserver is Some ==> k.conns.contains_key(j.reserver->0)
    }) by {
        assert(m.jobs.dom().contains(q));
        assert(m.jobs.contains_key(q));
    }
}

/// Where nobody waits for a job of an open tube, no job could be handed out at
/// once.
proof fn lemma_then_quiet(m: Model, now: Nanos)
    requires
        well_kept(m),
        nobody_kept_waiting(m, now),
    ensures
        quiet(m),
{
    assert forall|id: JobId| !m.awaited(id) by {
        if m.awaited(id) {
            let t = m.jobs[id].tube;
            assert(is_ready(m, id));
            assert(m.live(t));
            let c = m.tube(t).waiting.items[0];
            assert(m.tube(t).waiting.items.contains(c));
            assert(awaits(m, c, t));
            assert(m.conns.contains_key(c));
            assert(open_at(m, t, now));
        }
    }
}

/// Whether job `id` is delayed and due.
pub open spec fn ripe(m: Model, id: JobId, now: Nanos) -> bool {
    m.jobs.contains_key(id) && m.jobs[id].state == JobState::Delayed && m.jobs[id].deadline_at
        <= now
}

/// Whether of two jobs that are delayed and due in `m`, the one that was due
/// sooner has not been passed over in `n`: where the other has gone to a
/// connection that watches the tube of the first, and that is open, the first is
/// not left ready.
pub open spec fn in_time(m: Model, n: Model, now: Nanos) -> bool {
    forall|a: JobId, b: JobId|
        #![trigger ripe(m, a, now), ripe(m, b, now)]
        ripe(m, a, now) && ripe(m, b, now) && m.jobs[a].deadline_at < m.jobs[b].deadline_at
            && open_at(m, m.jobs[a].tube, now) && n.jobs[b].reserver is Some
            && m.conns[n.jobs[b].reserver->0].watch.items.contains(m.jobs[a].tube)
            ==> n.jobs[a].state != JobState::Ready
}

/// Delays pass: all of them that are over, and nothing is sent but jobs.
proof fn lemma_all_delays_pass(m: Model, now: Nanos, out: Out)
    requires
        well_kept(m),
        now <= MAX_NOW,
        quiet(m),
    ensures
        ({
            let (n, o) = m.release_due(now, out);
            &&& worked(m, out, n, o, now)
            &&& quiet(n)
            &&& forall|i: int| out.len() <= i < o.len() ==> (#[trigger] o[i]).1 is Reserved
            &&& forall|id: JobId| #[trigger]
                n.jobs.contains_key(id) && n.jobs[id].state == JobState::Delayed
                    ==> n.jobs[id].deadline_at > now
            &&& forall|id: JobId| #[trigger] ripe(m, id, now) ==> nobody_kept_waiting(n, now)
            &&& in_time(m, n, now)
            &&& forall|id: JobId| #[trigger]
                m.jobs.contains_key(id) && m.jobs[id].state == JobState::Reserved ==> n.jobs[id]
                    == m.jobs[id]
        }),
    decreases count_jobs(m.jobs, JobSel::Delayed),
{
    lemma_no_work(m, out, now);
    match m.soonest_delayed() {
        None => {
            assert forall|id: JobId| !m.is_delayed(id) by {
                if m.is_delayed(id) {
                    lemma_some_delayed(m, id);
                }
            }
            assert forall|id: JobId| #[trigger]
                m.jobs.contains_key(id) && m.jobs[id].state == JobState::Delayed implies false by {
                assert(m.is_delayed(id));
            }
        },
        Some(id) => {
            assert(m.is_soonest_delayed(id));
            assert(m.is_delayed(id));
            if m.jobs[id].deadline_at <= now {
                lemma_woken(m, id, false, now, out);
                let a = m.jobs[id];
                lemma_moved(m, JobView { state: JobState::Ready, reserver: None, ..a });
                let x = m.readying(id);
                lemma_same_stage(m, x, now);
                let (k, o) = x.process_queue(now, out);
                best_jobs_go_first(x, now, out);
                lemma_passed(x, out, k, o, now);
                lemma_then_quiet(k, now);
                let (p, q) = (
                    picked_jobs(m.jobs, JobSel::Delayed),
                    picked_jobs(k.jobs, JobSel::Delayed),
                );
                assert(q =~= p.remove(id)) by {
                    assert forall|j: JobId| q.contains(j) == p.remove(id).contains(j) by {
                        assert(k.jobs.dom().contains(j) == x.jobs.dom().contains(j));
                        assert(x.jobs.contains_key(j) == m.jobs.contains_key(j));
                        if x.jobs.contains_key(j) {
                            assert(passed(x, k, j, now));
                        }
                    }
                }
                assert(p.finite() && p.contains(id));
                assert(count_jobs(k.jobs, JobSel::Delayed) < count_jobs(m.jobs, JobSel::Delayed));
                lemma_all_delays_pass(k, now, o);
                let (n, o3) = k.release_due(now, o);
                lemma_worked_on(m, out, k, o, n, o3, now);
                assert forall|i: int| out.len() <= i < o3.len() implies (
                #[trigger] o3[i]).1 is Reserved by {
                    if i < o.len() {
                        assert(o3.take(o.len() as int)[i] == o3[i]);
                        assert(hands(x, k, o[i], now));
                    }
                }
                assert(nobody_kept_waiting(n, now)) by {
                    if forall|j: JobId| !ripe(k, j, now) {
                        lemma_nothing_ripe(k, now, o);
                    }
                }
                assert forall|j: JobId| #[trigger]
                    m.jobs.contains_key(j) && m.jobs[j].state
                        == JobState::Reserved implies n.jobs[j] == m.jobs[j] by {
                    assert(x.jobs.contains_key(j));
                    assert(passed(x, k, j, now));
                }
                assert(in_time(m, n, now)) by {
                    assert forall|a: JobId, b: JobId|
                        #![trigger ripe(m, a, now), ripe(m, b, now)]
                        ripe(m, a, now) && ripe(m, b, now) && m.jobs[a].deadline_at
                            < m.jobs[b].deadline_at && open_at(m, m.jobs[a].tube, now)
                            && n.jobs[b].reserver is Some
                            && m.conns[n.jobs[b].reserver->0].watch.items.contains(
                            m.jobs[a].tube,
                        ) implies n.jobs[a].state != JobState::Ready by {
                        let c = n.jobs[b].reserver->0;
                        let t = m.jobs[a].tube;
                        assert(m.is_delayed(a) && m.is_delayed(b));
                        assert(m.sooner(id, a) && m.sooner(id, b));
                        assert(b != id);
                        assert(x.jobs.contains_key(a) && x.jobs.contains_key(b));
                        assert(passed(x, k, b, now));
                        assert(k.jobs[b] == m.jobs[b]);
                        assert(ripe(k, b, now));
                        assert(aged(k, n, b, now));
                        assert(awaits(k, c, m.jobs[b].tube));
                        assert(m.conns.dom().contains(c));
                        assert(same_client(m.conns[c], k.conns[c]));
                        assert(awaits(k, c, t));
                        assert(passed(x, k, a, now));
                        if a == id {
                            assert(open_at(k, t, now));
                            assert(!is_ready(k, a));
                            assert(aged(k, n, a, now));
                            lemma_aged_on(m, k, n, a, now);
                        } else {
                            assert(ripe(k, a, now));
                            assert(open_at(k, t, now));
                        }
                    }
                }
            } else {
                assert forall|j: JobId| #[trigger]
                    m.jobs.contains_key(j) && m.jobs[j].state
                        == JobState::Delayed implies m.jobs[j].deadline_at > now by {
                    assert(m.is_delayed(j));
                    assert(m.sooner(id, j));
                }
            }
        },
    }
}

/// Where no delayed job is due, none becomes ready.
proof fn lemma_nothing_ripe(m: Model, now: Nanos, out: Out)
    requires
        forall|id: JobId| !ripe(m, id, now),
    ensures
        m.release_due(now, out) == (m, out),
{
    if m.soonest_delayed() is Some {
        let id = m.soonest_delayed()->0;
        assert(m.is_soonest_delayed(id));
        assert(!ripe(m, id, now));
    }
}

/// Where there is a delayed job, there is a soonest.
proof fn lemma_some_delayed(m: Model, id: JobId)
    requires
        m.jobs.dom().finite(),
        m.is_delayed(id),
    ensures
        m.soonest_delayed() is Some,
    decreases m.jobs.dom().filter(|j: JobId| m.is_delayed(j) && m.sooner(j, id)).len(),
{
    let s = m.jobs.dom().filter(|j: JobId| m.is_delayed(j) && m.sooner(j, id));
    if m.is_soonest_delayed(id) {
    } else {
        let o = choose|o: JobId| #[trigger] m.is_delayed(o) && !m.sooner(id, o);
        let r = m.jobs.dom().filter(|j: JobId| m.is_delayed(j) && m.sooner(j, o));
        assert(s.contains(id));
        assert(!r.contains(id));
        assert(r.subset_of(s));
        vstd::set_lib::lemma_len_subset(r, s.remove(id));
        lemma_some_delayed(m, o);
    }
}

/// What comes due goes out before anybody is told that its wait is over: where a
/// connection is told so by a tick, or that a deadline is near, no job is left
/// ready that was ready before, or delayed and due, in an open tube that the
/// connection watches.
pub proof fn due_jobs_go_out_before_waits_end(m: Model, now: Nanos, before: Out)
    requires
        orderly(m),
        quiet(m),
        now <= MAX_NOW,
    ensures
        ({
            let (n, out) = m.tick(now, before);
            forall|i: int, id: JobId|
                #![trigger out[i], m.jobs.contains_key(id)]
                before.len() <= i < out.len() && (out[i].1 is TimedOut || out[i].1 is DeadlineSoon)
                    && m.jobs.contains_key(id) && m.conns[out[i].0].watch.items.contains(
                    m.jobs[id].tube,
                ) && open_at(m, m.jobs[id].tube, now) && (m.jobs[id].state == JobState::Ready || (
                m.jobs[id].state == JobState::Delayed && m.jobs[id].deadline_at <= now))
                    ==> n.jobs[id].state != JobState::Ready
        }),
{
    lemma_orderly_well_kept(m);
    lemma_all_delays_pass(m, now, before);
    let (m1, o1) = m.release_due(now, before);
    lemma_no_work(m1, o1, now);
    lemma_queued(m1, now, o1);
    best_jobs_go_first(m1, now, o1);
    let late = m1.pause_expired(now);
    let (m2, o2) = if late {
        m1.process_queue(now, o1)
    } else {
        (m1, o1)
    };
    if late {
        lemma_passed(m1, o1, m2, o2, now);
    }
    lemma_worked_on(m, before, m1, o1, m2, o2, now);
    lemma_all_attended(m2, Set::empty(), now, o2);
    let (n, out) = m2.attend_all(Set::empty(), now, o2);
    assert((n, out) == m.tick(now, before));
    assert(nobody_kept_waiting(m2, now)) by {
        if !late {
            assert forall|id: JobId, c: ConnId|
                #![trigger is_ready(m2, id), m2.conns.contains_key(c)]
                is_ready(m2, id) && open_at(m2, m2.jobs[id].tube, now) implies !awaits(
                m2,
                c,
                m2.jobs[id].tube,
            ) by {
                let t = m2.jobs[id].tube;
                assert(m2.live(t));
                if awaits(m2, c, t) {
                    assert(m2.tube(t).waiting.items.contains(c));
                    assert(m2.awaited(id));
                }
            }
        }
    }
    assert forall|i: int, id: JobId|
        #![trigger out[i], m.jobs.contains_key(id)]
        before.len() <= i < out.len() && (out[i].1 is TimedOut || out[i].1 is DeadlineSoon)
            && m.jobs.contains_key(id) && m.conns[out[i].0].watch.items.contains(m.jobs[id].tube)
            && open_at(m, m.jobs[id].tube, now) && (m.jobs[id].state == JobState::Ready || (
        m.jobs[id].state == JobState::Delayed && m.jobs[id].deadline_at <= now)) implies
        n.jobs[id].state != JobState::Ready by {
        let c = out[i].0;
        let t = m.jobs[id].tube;
        if i < o2.len() {
            assert(out.take(o2.len() as int)[i] == out[i]);
            if i < o1.len() {
                assert(o2.take(o1.len() as int)[i] == o2[i]);
            } else {
                assert(hands(m1, m2, o2[i], now));
            }
        }
        assert(told_in_time(m2, n, out[i], now));
        assert(waits(m2, c));
        assert(m.conns.contains_key(c));
        assert(same_client(m.conns[c], m2.conns[c]));
        assert(m1.jobs.dom().contains(id));
        assert(m2.jobs.dom().contains(id));
        assert(aged(m, m2, id, now));
        assert(aged(m, m1, id, now));
        assert(aged(m1, m2, id, now));
        assert(aged(m2, n, id, now));
        assert(open_at(m2, t, now));
        assert(awaits(m2, c, t));
        assert(!is_ready(m2, id));
        assert(m1.jobs[id].state != JobState::Delayed);
        assert(m2.jobs[id].state == JobState::Reserved);
        lemma_aged_on(m, m2, n, id, now);
    }
}

/// Of two delayed jobs that come due by the same tick, the one that was due sooner
/// goes out first, whatever their priorities: where the other goes to a
/// connection that watches the tubes of both, and these are open, the first is
/// not left behind.
pub proof fn the_sooner_due_goes_first(m: Model, now: Nanos, out: Out)
    requires
        orderly(m),
        quiet(m),
        now <= MAX_NOW,
    ensures
        in_time(m, m.tick(now, out).0, now),
{
    lemma_orderly_well_kept(m);
    lemma_all_delays_pass(m, now, out);
    let (m1, o1) = m.release_due(now, out);
    lemma_no_work(m1, o1, now);
    lemma_queued(m1, now, o1);
    let (m2, o2) = if m1.pause_expired(now) {
        m1.process_queue(now, o1)
    } else {
        (m1, o1)
    };
    lemma_all_attended(m2, Set::empty(), now, o2);
    let (n, o) = m2.attend_all(Set::empty(), now, o2);
    lemma_worked_on(m1, o1, m2, o2, n, o, now);
    assert(n == m.tick(now, out).0);
    assert forall|a: JobId, b: JobId|
        #![trigger ripe(m, a, now), ripe(m, b, now)]
        ripe(m, a, now) && ripe(m, b, now) && m.jobs[a].deadline_at < m.jobs[b].deadline_at
            && open_at(m, m.jobs[a].tube, now) && n.jobs[b].reserver is Some
            && m.conns[n.jobs[b].reserver->0].watch.items.contains(m.jobs[a].tube) implies
        n.jobs[a].state != JobState::Ready by {
        let c = n.jobs[b].reserver->0;
        let t = m.jobs[a].tube;
        assert(m1.jobs.dom().contains(a) && m1.jobs.dom().contains(b));
        assert(aged(m, m1, a, now) && aged(m, m1, b, now));
        assert(aged(m1, n, a, now) && aged(m1, n, b, now));
        assert(nobody_kept_waiting(m1, now));
        assert(open_at(m1, t, now));
        assert(m1.jobs[b].state != JobState::Delayed);
        assert(m1.jobs[a].state != JobState::Delayed);
        if m1.jobs[b].reserver is None {
            assert(awaits(m1, c, m1.jobs[b].tube));
            assert(m.conns.dom().contains(c));
            assert(same_client(m.conns[c], m1.conns[c]));
            assert(awaits(m1, c, t));
            assert(!is_ready(m1, a));
        } else {
            lemma_aged_on(m, m1, n, b, now);
            assert(m1.jobs[a].state != JobState::Ready);
        }
        lemma_aged_on(m, m1, n, a, now);
    }
}

/// Reservations run out: all of them that are over, and of this connection alone;
/// and nothing is sent but jobs.
proof fn lemma_all_expired(m: Model, c: ConnId, now: Nanos, out: Out)
    requires
        well_kept(m),
        now <= MAX_NOW,
    ensures
        ({
            let (n, o) = m.expire(c, now, out);
            &&& worked(m, out, n, o, now)
            &&& forall|id: JobId| #[trigger] is_mine(n, c, id) ==> n.jobs[id].deadline_at >= now
            &&& forall|id: JobId| #[trigger]
                is_mine(m, c, id) && m.jobs[id].deadline_at < now ==> nobody_kept_waiting(n, now)
            &&& forall|d: ConnId, id: JobId| #[trigger]
                is_mine(m, d, id) && d != c ==> n.jobs[id] == m.jobs[id]
            &&& forall|i: int| out.len() <= i < o.len() ==> (#[trigger] o[i]).1 is Reserved
        }),
    decreases count_jobs(m.jobs, JobSel::Overdue(now)),
{
    lemma_no_work(m, out, now);
    let s = reserved_set(m.jobs, c);
    lemma_held_finite(m, c);
    match m.soonest_reserved(c) {
        None => {
            assert forall|id: JobId| !is_mine(m, c, id) by {
                if is_mine(m, c, id) {
                    assert(s.contains((m.jobs[id].deadline_at, id)));
                    lemma_least_exists(s);
                }
            }
        },
        Some(p) => {
            let q = choose|q: (u64, u64)| is_least(s, q);
            assert(is_least(s, q));
            lemma_least_unique(s, q);
            assert(s.contains(p));
            let id = p.1;
            assert forall|j: JobId| #[trigger] is_mine(m, c, j) implies m.jobs[j].deadline_at
                >= p.0 by {
                let w = (m.jobs[j].deadline_at, j);
                assert(s.contains(w));
                assert(pair_le(p, w));
            }
            if p.0 < now {
                lemma_woken(m, id, true, now, out);
                let a = m.jobs[id];
                let m1 = Model { timeout_ct: bump(m.timeout_ct), ..m };
                let j = JobView {
                    state: JobState::Ready,
                    reserver: None,
                    timeout_ct: bump32(a.timeout_ct),
                    ..a
                };
                lemma_also_kept(m, m1);
                lemma_moved(m1, j);
                let x = m1.without_job(id).with_job(j);
                let (k, o) = x.process_queue(now, out);
                best_jobs_go_first(x, now, out);
                lemma_passed(x, out, k, o, now);
                lemma_overdue_less(m, x, k, id, now);
                lemma_all_expired(k, c, now, o);
                let (n, o3) = k.expire(c, now, o);
                lemma_worked_on(m, out, k, o, n, o3, now);
                assert(nobody_kept_waiting(n, now)) by {
                    if forall|j: JobId| !(is_mine(k, c, j) && k.jobs[j].deadline_at < now) {
                        lemma_none_overdue(k, c, now, o);
                    } else {
                        let j = choose|j: JobId|
                            is_mine(k, c, j) && k.jobs[j].deadline_at < now;
                        assert(is_mine(k, c, j));
                    }
                }
                assert forall|d: ConnId, j: JobId| #[trigger]
                    is_mine(m, d, j) && d != c implies n.jobs[j] == m.jobs[j] by {
                    assert(x.jobs.contains_key(j));
                    assert(passed(x, k, j, now));
                    assert(is_mine(k, d, j));
                }
                assert forall|i: int| out.len() <= i < o3.len() implies (
                #[trigger] o3[i]).1 is Reserved by {
                    if i < o.len() {
                        assert(o3.take(o.len() as int)[i] == o3[i]);
                        assert(hands(x, k, o[i], now));
                    }
                }
            }
        },
    }
}

/// Where no reservation of a connection is over, it loses none.
proof fn lemma_none_overdue(m: Model, c: ConnId, now: Nanos, out: Out)
    requires
        forall|id: JobId| !(is_mine(m, c, id) && m.jobs[id].deadline_at < now),
    ensures
        m.expire(c, now, out) == (m, out),
{
    let s = reserved_set(m.jobs, c);
    if m.soonest_reserved(c) is Some {
        let p = m.soonest_reserved(c)->0;
        let q = choose|q: (u64, u64)| is_least(s, q);
        assert(is_least(s, q));
        lemma_least_unique(s, q);
        assert(s.contains(p));
        assert(!(is_mine(m, c, p.1) && m.jobs[p.1].deadline_at < now));
    }
}

/// A reservation that runs out is one less that is over.
proof fn lemma_overdue_less(m: Model, x: Model, k: Model, id: JobId, now: Nanos)
    requires
        well_kept(m),
        m.jobs.contains_key(id),
        m.jobs[id].state == JobState::Reserved,
        m.jobs[id].deadline_at < now,
        x.jobs == m.jobs.insert(id, x.jobs[id]),
        x.jobs[id].state == JobState::Ready,
        x.jobs[id].ttr == m.jobs[id].ttr,
        k.jobs.dom() == x.jobs.dom(),
        forall|j: JobId| #[trigger] x.jobs.contains_key(j) ==> passed(x, k, j, now),
    ensures
        count_jobs(k.jobs, JobSel::Overdue(now)) < count_jobs(m.jobs, JobSel::Overdue(now)),
{
    let (p, q) = (
        picked_jobs(m.jobs, JobSel::Overdue(now)),
        picked_jobs(k.jobs, JobSel::Overdue(now)),
    );
    assert(q =~= p.remove(id)) by {
        assert forall|j: JobId| q.contains(j) == p.remove(id).contains(j) by {
            assert(k.jobs.dom().contains(j) == x.jobs.dom().contains(j));
            assert(x.jobs.contains_key(j) == m.jobs.contains_key(j));
            if x.jobs.contains_key(j) {
                assert(passed(x, k, j, now));
                assert(x.jobs[j].ttr * 1_000_000_000 >= 0) by (nonlinear_arith)
                    requires
                        x.jobs[j].ttr >= 0,
                ;
            }
        }
    }
    assert(p.finite() && p.contains(id));
}

/// Whether connection `c` holds no job whose reservation runs out within a second.
pub open spec fn at_ease(m: Model, c: ConnId, now: Nanos) -> bool {
    forall|id: JobId| #[trigger]
        is_mine(m, c, id) ==> m.jobs[id].deadline_at > now + 1_000_000_000
}

/// Whether a connection that is at ease in `m` and is told by one of the replies
/// after `before` that its wait is over has not been passed over: where another,
/// outside `done`, held a job that was over before that wait was, in an open tube
/// that the first watches, the job is not left ready in `n`.
pub open spec fn ends_in_order(
    m: Model,
    before: Out,
    n: Model,
    out: Out,
    done: Set<ConnId>,
    now: Nanos,
) -> bool {
    forall|i: int, b: ConnId, id: JobId|
        #![trigger out[i], is_mine(m, b, id)]
        before.len() <= i < out.len() && out[i].1 is TimedOut && is_mine(m, b, id)
            && !done.contains(b) && m.jobs[id].deadline_at < now && m.jobs[id].deadline_at
            < m.conns[out[i].0].wait_deadline->0 && at_ease(m, out[i].0, now)
            && m.conns[out[i].0].watch.items.contains(m.jobs[id].tube) && open_at(
            m,
            m.jobs[id].tube,
            now,
        ) ==> n.jobs[id].state != JobState::Ready
}

/// Connections are attended to in the order in which they fell due.
proof fn lemma_in_order(m: Model, done: Set<ConnId>, now: Nanos, out: Out)
    requires
        well_kept(m),
        m.conns.dom().finite(),
        now <= MAX_NOW,
    ensures
        ({
            let (n, o) = m.attend_all(done, now, out);
            &&& ends_in_order(m, out, n, o, done, now)
            &&& forall|i: int|
                out.len() <= i < o.len() && (#[trigger] o[i]).1 is TimedOut ==> !done.contains(
                    o[i].0,
                )
        }),
    decreases m.conns.dom().difference(done).len(),
{
    let due = m.due_conns(done, now);
    if least(due) is Some {
        let p = least(due)->0;
        let w = choose|w: (u64, u64)| is_least(due, w);
        assert(is_least(due, w));
        lemma_least_unique(due, w);
        assert(due.contains(p));
        let c = p.1;
        lemma_attended(m, c, now, out);
        lemma_all_expired(m, c, now, out);
        let (y, oy) = m.expire(c, now, out);
        let (k, o1) = m.attend(c, now, out);
        let next = done.insert(c);
        assert(k.conns.dom().difference(next) =~= m.conns.dom().difference(done).remove(c));
        assert(m.conns.dom().difference(done).contains(c));
        lemma_all_attended(k, next, now, o1);
        lemma_in_order(k, next, now, o1);
        let (n, o) = k.attend_all(next, now, o1);
        assert((n, o) == m.attend_all(done, now, out));
        assert(k.jobs == y.jobs);
        assert forall|i: int|
            out.len() <= i < o.len() && (#[trigger] o[i]).1 is TimedOut implies !done.contains(
            o[i].0,
        ) by {
            if i < o1.len() {
                assert(o.take(o1.len() as int)[i] == o[i]);
                if i < oy.len() {
                    assert(o1[i] == oy[i]);
                }
            } else {
                assert(!next.contains(o[i].0));
            }
        }
        assert forall|i: int, b: ConnId, id: JobId|
            #![trigger o[i], is_mine(m, b, id)]
            out.len() <= i < o.len() && o[i].1 is TimedOut && is_mine(m, b, id) && !done.contains(b)
                && m.jobs[id].deadline_at < now && m.jobs[id].deadline_at
                < m.conns[o[i].0].wait_deadline->0 && at_ease(m, o[i].0, now)
                && m.conns[o[i].0].watch.items.contains(m.jobs[id].tube) && open_at(
                m,
                m.jobs[id].tube,
                now,
            ) implies n.jobs[id].state != JobState::Ready by {
            let a = o[i].0;
            let t = m.jobs[id].tube;
            assert(m.conns.contains_key(b));
            assert(aged(m, y, id, now));
            assert(k.jobs.dom().contains(id));
            assert(aged(k, n, id, now));
            assert(open_at(y, t, now));
            assert(open_at(k, t, now));
            lemma_attention(m, b, id);
            let tb = m.tick_at(b)->0;
            assert(due.contains((tb, b)));
            assert(pair_le(p, (tb, b)));
            if i < o1.len() {
                assert(o.take(o1.len() as int)[i] == o[i]);
                if i < oy.len() {
                    assert(o1[i] == oy[i]);
                }
                assert(a == c);
                assert(waits(y, c));
                assert(waits(m, c));
                if c != b {
                    lemma_no_haste(m, c, now);
                }
                assert(c == b);
            }
            if c == b {
                assert(nobody_kept_waiting(y, now));
                assert(waits(y, a)) by {
                    if i >= o1.len() {
                        assert(told_in_time(k, n, o[i], now));
                        assert(waits(k, a));
                    }
                }
                assert(m.conns.contains_key(a));
                assert(same_client(m.conns[a], y.conns[a]));
                assert(awaits(y, a, t));
                assert(!is_ready(y, id));
                assert(y.jobs[id] != m.jobs[id]) by {
                    if y.jobs[id] == m.jobs[id] {
                        assert(is_mine(y, c, id));
                    }
                }
                assert(y.jobs[id].state == JobState::Reserved);
                assert(aged(m, k, id, now));
                lemma_aged_on(m, k, n, id, now);
            } else {
                assert(is_mine(k, b, id));
                assert(told_in_time(k, n, o[i], now));
                assert(waits(k, a));
                assert(m.conns.contains_key(a));
                assert(same_client(m.conns[a], k.conns[a]));
                assert(!next.contains(a));
                assert(at_ease(k, a, now)) by {
                    assert forall|j: JobId| #[trigger] is_mine(k, a, j) implies k.jobs[j].deadline_at
                        > now + 1_000_000_000 by {
                        assert(m.jobs.dom().contains(j));
                        if k.jobs[j] != m.jobs[j] {
                            assert(!waits(k, k.jobs[j].reserver->0));
                        }
                        assert(is_mine(m, a, j));
                    }
                }
            }
        }
    }
}

/// A connection calls for attention no later than when a job of its runs out.
proof fn lemma_attention(m: Model, c: ConnId, id: JobId)
    requires
        m.jobs.dom().finite(),
        is_mine(m, c, id),
    ensures
        m.tick_at(c) is Some,
        m.tick_at(c)->0 <= m.jobs[id].deadline_at,
{
    let s = reserved_set(m.jobs, c);
    let p = (m.jobs[id].deadline_at, id);
    assert(s.contains(p));
    lemma_held_finite(m, c);
    lemma_least_exists(s);
    assert(pair_le(least(s)->0, p));
}

/// A connection that is at ease, waits and calls for attention by now does so
/// because its wait is over.
proof fn lemma_no_haste(m: Model, c: ConnId, now: Nanos)
    requires
        m.jobs.dom().finite(),
        waits(m, c),
        at_ease(m, c, now),
        m.tick_at(c) is Some,
        m.tick_at(c)->0 <= now,
    ensures
        m.conns[c].wait_deadline == m.tick_at(c),
{
    let s = reserved_set(m.jobs, c);
    lemma_held_finite(m, c);
    if least(s) is Some {
        let q = choose|q: (u64, u64)| is_least(s, q);
        assert(is_least(s, q));
        lemma_least_unique(s, q);
        assert(s.contains(q));
        assert(is_mine(m, c, q.1));
    }
}

/// What was over sooner ends sooner: where a tick tells a connection, which holds
/// no job that runs out within a second, that its wait is over, no job is left
/// ready whose reservation was over before that wait was, in an open tube that
/// the connection watches.
pub proof fn reservations_end_before_later_waits(m: Model, now: Nanos, before: Out)
    requires
        orderly(m),
        quiet(m),
        now <= MAX_NOW,
    ensures
        ends_in_order(
            m,
            before,
            m.tick(now, before).0,
            m.tick(now, before).1,
            Set::empty(),
            now,
        ),
{
    lemma_orderly_well_kept(m);
    lemma_all_delays_pass(m, now, before);
    let (m1, o1) = m.release_due(now, before);
    lemma_no_work(m1, o1, now);
    lemma_queued(m1, now, o1);
    best_jobs_go_first(m1, now, o1);
    let late = m1.pause_expired(now);
    let (m2, o2) = if late {
        m1.process_queue(now, o1)
    } else {
        (m1, o1)
    };
    if late {
        lemma_passed(m1, o1, m2, o2, now);
    }
    lemma_worked_on(m, before, m1, o1, m2, o2, now);
    lemma_all_attended(m2, Set::empty(), now, o2);
    lemma_in_order(m2, Set::empty(), now, o2);
    let (n, out) = m2.attend_all(Set::empty(), now, o2);
    assert((n, out) == m.tick(now, before));
    assert forall|i: int, b: ConnId, id: JobId|
        #![trigger out[i], is_mine(m, b, id)]
        before.len() <= i < out.len() && out[i].1 is TimedOut && is_mine(m, b, id)
            && m.jobs[id].deadline_at < now && m.jobs[id].deadline_at
            < m.conns[out[i].0].wait_deadline->0 && at_ease(m, out[i].0, now)
            && m.conns[out[i].0].watch.items.contains(m.jobs[id].tube) && open_at(
            m,
            m.jobs[id].tube,
            now,
        ) implies n.jobs[id].state != JobState::Ready by {
        let a = out[i].0;
        if i < o2.len() {
            assert(out.take(o2.len() as int)[i] == out[i]);
            if i < o1.len() {
                assert(o2.take(o1.len() as int)[i] == o2[i]);
            } else {
                assert(hands(m1, m2, o2[i], now));
            }
        }
        assert(told_in_time(m2, n, out[i], now));
        assert(waits(m2, a));
        assert(m.conns.contains_key(a));
        assert(same_client(m.conns[a], m2.conns[a]));
        assert(m1.jobs.dom().contains(id));
        assert(m1.jobs[id] == m.jobs[id]);
        assert(m2.jobs[id] == m.jobs[id]) by {
            if late {
                assert(passed(m1, m2, id, now));
            }
        }
        assert(is_mine(m2, b, id));
        assert(open_at(m2, m.jobs[id].tube, now));
        assert(at_ease(m2, a, now)) by {
            assert forall|j: JobId| #[trigger] is_mine(m2, a, j) implies m2.jobs[j].deadline_at
                > now + 1_000_000_000 by {
                assert(m.jobs.dom().contains(j));
                if m2.jobs[j] != m.jobs[j] {
                    assert(!waits(m2, m2.jobs[j].reserver->0));
                }
                assert(is_mine(m, a, j));
            }
        }
    }
}

/// Whether something falls due at `d`: a delay ends, a pause, a wait; or a
/// reservation runs out, or, where its holder waits, is a second from that.
pub open spec fn falls_due(m: Model, d: Nanos) -> bool {
    ||| exists|id: JobId| #[trigger]
        m.jobs.contains_key(id) && m.jobs[id].state == JobState::Delayed && m.jobs[id].deadline_at
            == d
    ||| exists|t: TubeId| #[trigger]
        m.live(t) && m.tube(t).pause > 0 && m.tube(t).unpause_at == d
    ||| exists|c: ConnId| #[trigger]
        m.conns.contains_key(c) && m.conns[c].waiting && m.conns[c].wait_deadline == Some(d)
    ||| exists|c: ConnId, id: JobId| #[trigger]
        is_mine(m, c, id) && m.conns.contains_key(c) && d == press_time(m, c, id)
}

/// When job `id` of connection `c` calls for attention: when its time is up, or a
/// second earlier where the connection waits.
pub open spec fn press_time(m: Model, c: ConnId, id: JobId) -> int {
    let d = m.jobs[id].deadline_at as int;
    if !m.conns[c].waiting {
        d
    } else if d >= 1_000_000_000 {
        d - 1_000_000_000
    } else {
        0
    }
}

/// The time at which something is next due is the first at which something falls
/// due: it is such a time, and none is earlier; and where there is none, nothing
/// falls due.
pub proof fn what_is_due_next_comes_first(m: Model, next: Option<Nanos>)
    requires
        orderly(m),
        match next {
            Some(d) => m.due_times().contains(d) && forall|e: Nanos| #[trigger]
                m.due_times().contains(e) ==> d <= e,
            None => forall|e: Nanos| !(#[trigger] m.due_times().contains(e)),
        },
    ensures
        next is Some ==> falls_due(m, next->0),
        forall|e: Nanos| #[trigger] falls_due(m, e) ==> next is Some && next->0 <= e,
{
    if next is Some {
        let d = next->0;
        if exists|id: JobId| #[trigger] m.is_delayed(id) && m.jobs[id].deadline_at == d {
            let id = choose|id: JobId| #[trigger] m.is_delayed(id) && m.jobs[id].deadline_at == d;
            assert(m.jobs.contains_key(id));
        } else if exists|c: ConnId| #[trigger]
            m.conns.contains_key(c) && m.tick_at(c) == Some(d) {
            let c = choose|c: ConnId| #[trigger]
                m.conns.contains_key(c) && m.tick_at(c) == Some(d);
            let s = reserved_set(m.jobs, c);
            lemma_held_finite(m, c);
            if least(s) is Some {
                let q = choose|q: (u64, u64)| is_least(s, q);
                assert(is_least(s, q));
                lemma_least_unique(s, q);
                assert(s.contains(q));
                assert(is_mine(m, c, q.1));
                assert(m.conns.contains_key(c));
            }
        }
    }
    assert forall|e: Nanos| #[trigger] falls_due(m, e) implies next is Some && next->0 <= e by {
        if exists|id: JobId| #[trigger]
            m.jobs.contains_key(id) && m.jobs[id].state == JobState::Delayed
                && m.jobs[id].deadline_at == e {
            let id = choose|id: JobId| #[trigger]
                m.jobs.contains_key(id) && m.jobs[id].state == JobState::Delayed
                    && m.jobs[id].deadline_at == e;
            assert(m.is_delayed(id));
            assert(m.due_times().contains(e));
        } else if exists|t: TubeId| #[trigger]
            m.live(t) && m.tube(t).pause > 0 && m.tube(t).unpause_at == e {
            assert(m.due_times().contains(e));
        } else if exists|c: ConnId| #[trigger]
            m.conns.contains_key(c) && m.conns[c].waiting && m.conns[c].wait_deadline == Some(e) {
            let c = choose|c: ConnId| #[trigger]
                m.conns.contains_key(c) && m.conns[c].waiting && m.conns[c].wait_deadline == Some(
                    e,
                );
            let f = m.tick_at(c)->0;
            assert(m.conns.contains_key(c) && m.tick_at(c) == Some(f));
            assert(m.due_times().contains(f));
        } else {
            let (c, id) = choose|c: ConnId, id: JobId| #[trigger]
                is_mine(m, c, id) && m.conns.contains_key(c) && e == press_time(m, c, id);
            let s = reserved_set(m.jobs, c);
            let p = (m.jobs[id].deadline_at, id);
            assert(s.contains(p));
            lemma_held_finite(m, c);
            lemma_least_exists(s);
            assert(pair_le(least(s)->0, p));
            let f = m.tick_at(c)->0;
            assert(m.conns.contains_key(c) && m.tick_at(c) == Some(f));
            assert(m.due_times().contains(f));
        }
    }
}

} // verus!
