//! What kick does: the buried jobs of the used tube, longest buried first, or if
//! there are none the delayed ones, soonest first.

use crate::api::{ConnId, Nanos, SysSnapshot, MAX_NOW};
use crate::effects::{
    lemma_also_kept, lemma_kicked, lemma_orderly_well_kept, less_awaited, made_ready,
    nobody_kept_waiting, passed, well_kept,
};
use crate::handout::{awaits, is_ready, one_more, one_more_long, open_at};
use crate::inv::lemma_least_exists;
use crate::model::{JobState, TubeId};
use crate::ms::lemma_position_is;
use crate::proto::{CommandView, JobId, ResponseView};
use crate::rules::{bump, delayed_set, is_least, least, pair_le, remove_first, Model, OpCounts, Out};
use crate::settle::orderly;
use vstd::prelude::*;

verus! {

/// Whether job `id` of `m` has been kicked in `n`: it is ready, or with whoever
/// waited for it, and one kick more is counted. All else stays.
pub open spec fn kicked(m: Model, n: Model, id: JobId, now: Nanos) -> bool {
    let (a, b) = (m.jobs[id], n.jobs[id]);
    &&& n.jobs.contains_key(id)
    &&& made_ready(m, a, a.pri, a.delay, b, now)
    &&& one_more(a.kick_ct, b.kick_ct)
    &&& b.timeout_ct == a.timeout_ct
    &&& b.release_ct == a.release_ct
    &&& b.bury_ct == a.bury_ct
}

/// The delayed jobs of tube `t`.
pub open spec fn delayed_in(m: Model, t: TubeId) -> Set<JobId> {
    m.jobs.dom().filter(
        |id: JobId| m.jobs[id].state == JobState::Delayed && m.jobs[id].tube == t,
    )
}

/// Being handed out, or left alone, twice.
pub proof fn lemma_passed_twice(m: Model, k: Model, n: Model, id: JobId, now: Nanos)
    requires
        less_awaited(m, k, now),
        passed(m, k, id, now),
        passed(k, n, id, now),
    ensures
        passed(m, n, id, now),
{
    let b = n.jobs[id];
    if k.jobs[id] == m.jobs[id] && b != k.jobs[id] {
        assert(awaits(k, b.reserver->0, m.jobs[id].tube));
        assert(open_at(k, m.jobs[id].tube, now));
    }
}

/// Kicked, then handed out or left alone.
proof fn lemma_kicked_then(m: Model, k: Model, n: Model, id: JobId, now: Nanos)
    requires
        less_awaited(m, k, now),
        kicked(m, k, id, now),
        passed(k, n, id, now),
    ensures
        kicked(m, n, id, now),
{
    let b = n.jobs[id];
    if b != k.jobs[id] {
        assert(awaits(k, b.reserver->0, m.jobs[id].tube));
        assert(open_at(k, m.jobs[id].tube, now));
    }
}

/// Left alone, then kicked.
proof fn lemma_then_kicked(m: Model, k: Model, n: Model, id: JobId, now: Nanos)
    requires
        less_awaited(m, k, now),
        k.jobs[id] == m.jobs[id],
        kicked(k, n, id, now),
    ensures
        kicked(m, n, id, now),
{
    let b = n.jobs[id];
    if b.state != JobState::Ready {
        assert(awaits(k, b.reserver->0, m.jobs[id].tube));
        assert(open_at(k, m.jobs[id].tube, now));
    }
}

/// Where somebody waits for a job of an open tube, none of that tube is ready.
proof fn lemma_not_left(x: Model, id: JobId, c: ConnId, t: TubeId, now: Nanos)
    requires
        nobody_kept_waiting(x, now),
        x.jobs.contains_key(id),
        x.jobs[id].tube == t,
        awaits(x, c, t),
        open_at(x, t, now),
    ensures
        x.jobs[id].state != JobState::Ready,
{
    if x.jobs[id].state == JobState::Ready {
        assert(is_ready(x, id));
        assert(x.conns.contains_key(c));
    }
}

/// Fewer wait, and then fewer still.
pub proof fn lemma_less_still(m: Model, k: Model, n: Model, now: Nanos)
    requires
        less_awaited(m, k, now),
        less_awaited(k, n, now),
    ensures
        less_awaited(m, n, now),
{
    assert forall|c: ConnId, t: TubeId| #[trigger] awaits(n, c, t) implies awaits(m, c, t) by {
        assert(awaits(k, c, t));
    }
    assert forall|t: TubeId| #[trigger] n.live(t) == m.live(t) by {
        assert(k.live(t) == n.live(t));
    }
    assert forall|t: TubeId| #[trigger] open_at(n, t, now) == open_at(m, t, now) by {
        assert(open_at(k, t, now) == open_at(n, t, now));
    }
}

/// Nothing has changed: nobody waits who did not, and no job has moved.
pub proof fn lemma_unmoved(m: Model, now: Nanos)
    ensures
        less_awaited(m, m, now),
        forall|id: JobId| #[trigger] m.jobs.contains_key(id) ==> passed(m, m, id, now),
{
}

/// Kicking buried jobs kicks the first ones of the list.
proof fn lemma_kick_buried(m: Model, t: TubeId, k: nat, now: Nanos, out: Out)
    requires
        well_kept(m),
        m.live(t),
        now <= MAX_NOW,
    ensures
        ({
            let (n, o, r) = m.kick_buried(t, k, now, out);
            let buried = m.tube(t).buried;
            &&& r == (if k < buried.len() {
                k
            } else {
                buried.len()
            })
            &&& n.jobs.dom() == m.jobs.dom()
            &&& n.tube(t).buried == buried.skip(r as int)
            &&& forall|i: int| 0 <= i < r ==> kicked(m, n, #[trigger] buried[i], now)
            &&& forall|i: int, j: int|
                #![trigger buried[i], buried[j]]
                0 <= i < j < r && n.jobs[buried[j]].state != JobState::Ready
                    ==> n.jobs[buried[i]].state != JobState::Ready
            &&& forall|id: JobId| #[trigger]
                m.jobs.contains_key(id) && !buried.take(r as int).contains(id) ==> passed(
                    m,
                    n,
                    id,
                    now,
                )
            &&& well_kept(n)
            &&& less_awaited(m, n, now)
            &&& n.ops == m.ops
        }),
    decreases k,
{
    let buried = m.tube(t).buried;
    if k == 0 || buried.len() == 0 {
        lemma_unmoved(m, now);
        assert(buried.skip(0) =~= buried);
    } else {
        let id = buried[0];
        assert(buried.contains(id));
        lemma_kicked(m, id, now, out);
        let (x, o1) = m.kicking(id, now, out);
        assert(kicked(m, x, id, now));
        lemma_position_is(buried, id, 0);
        assert(x.tube(t).buried =~= buried.skip(1));
        assert(x.live(t) == m.live(t));
        lemma_kick_buried(x, t, (k - 1) as nat, now, o1);
        let (n, o, r1) = x.kick_buried(t, (k - 1) as nat, now, o1);
        let r = r1 + 1;
        let rest = x.tube(t).buried;
        lemma_less_still(m, x, n, now);
        assert(rest.skip(r1 as int) =~= buried.skip(r as int));
        assert forall|i: int| 0 <= i < r implies kicked(m, n, #[trigger] buried[i], now) by {
            let b = buried[i];
            if i == 0 {
                assert(!rest.take(r1 as int).contains(id)) by {
                    if rest.take(r1 as int).contains(id) {
                        let j = rest.take(r1 as int).index_of(id);
                        assert(buried[j + 1] == id);
                    }
                }
                assert(x.jobs.contains_key(id));
                lemma_kicked_then(m, x, n, id, now);
            } else {
                assert(rest[i - 1] == b);
                assert(kicked(x, n, rest[i - 1], now));
                assert(rest.contains(b));
                assert(x.jobs.contains_key(b) && x.jobs[b].state == JobState::Buried);
                assert(m.jobs.contains_key(b));
                assert(passed(m, x, b, now));
                lemma_then_kicked(m, x, n, b, now);
            }
        }
        assert forall|i: int, j: int|
            #![trigger buried[i], buried[j]]
            0 <= i < j < r && n.jobs[buried[j]].state
                != JobState::Ready implies n.jobs[buried[i]].state != JobState::Ready by {
            let b = buried[j];
            assert(rest[j - 1] == b);
            assert(kicked(x, n, rest[j - 1], now));
            if i == 0 {
                assert(rest.contains(b));
                assert(x.tube(t).buried.contains(b) <==> x.jobs.contains_key(b) && x.jobs[b].state
                    == JobState::Buried && x.jobs[b].tube == t);
                lemma_not_left(x, id, n.jobs[b].reserver->0, t, now);
                assert(!rest.take(r1 as int).contains(id)) by {
                    if rest.take(r1 as int).contains(id) {
                        let z = rest.take(r1 as int).index_of(id);
                        assert(buried[z + 1] == id);
                    }
                }
                assert(x.jobs.contains_key(id));
                assert(passed(x, n, id, now));
            } else {
                assert(rest[i - 1] == buried[i]);
            }
        }
        assert forall|q: JobId| #[trigger]
            m.jobs.contains_key(q) && !buried.take(r as int).contains(q) implies passed(
            m,
            n,
            q,
            now,
        ) by {
            assert(buried.take(r as int)[0] == id);
            assert(q != id);
            assert(passed(m, x, q, now));
            assert(x.jobs.contains_key(q));
            assert(!rest.take(r1 as int).contains(q)) by {
                if rest.take(r1 as int).contains(q) {
                    let j = rest.take(r1 as int).index_of(q);
                    assert(buried.take(r as int)[j + 1] == q);
                }
            }
            assert(passed(x, n, q, now));
            lemma_passed_twice(m, x, n, q, now);
        }
    }
}

/// Whether delayed job `a` is due before delayed job `b`: sooner, or at the same
/// time and put earlier.
pub open spec fn due_before(m: Model, a: JobId, b: JobId) -> bool {
    m.jobs[a].deadline_at < m.jobs[b].deadline_at || (m.jobs[a].deadline_at
        == m.jobs[b].deadline_at && a < b)
}

/// Whether of the delayed jobs that were kicked, those of `all` but not of `left`, the
/// one that was due sooner goes out first: where another has been handed out, it
/// is not left ready.
pub open spec fn soonest_first(m: Model, n: Model, all: Set<JobId>, left: Set<JobId>) -> bool {
    forall|a: JobId, b: JobId|
        #![trigger all.contains(a), all.contains(b)]
        all.contains(a) && all.contains(b) && !left.contains(a) && !left.contains(b) && due_before(
            m,
            a,
            b,
        ) && n.jobs[b].state != JobState::Ready ==> n.jobs[a].state != JobState::Ready
}

/// Kicking delayed jobs kicks the soonest.
proof fn lemma_kick_delayed(m: Model, t: TubeId, k: nat, now: Nanos, out: Out)
    requires
        well_kept(m),
        m.live(t),
        now <= MAX_NOW,
    ensures
        ({
            let (n, o, r) = m.kick_delayed(t, k, now, out);
            let (all, left) = (delayed_in(m, t), delayed_in(n, t));
            &&& r == (if k < all.len() {
                k
            } else {
                all.len()
            })
            &&& n.jobs.dom() == m.jobs.dom()
            &&& left.subset_of(all)
            &&& r == all.len() - left.len()
            &&& forall|id: JobId| #[trigger]
                all.contains(id) && !left.contains(id) ==> kicked(m, n, id, now)
            &&& forall|a: JobId, b: JobId|
                #![trigger left.contains(a), left.contains(b)]
                all.contains(a) && !left.contains(a) && left.contains(b) ==> due_before(m, a, b)
            &&& soonest_first(m, n, all, left)
            &&& forall|id: JobId| #[trigger]
                m.jobs.contains_key(id) && (!all.contains(id) || left.contains(id)) ==> passed(
                    m,
                    n,
                    id,
                    now,
                )
            &&& n.tube(t).buried == m.tube(t).buried
            &&& well_kept(n)
            &&& less_awaited(m, n, now)
            &&& n.ops == m.ops
        }),
    decreases k,
{
    let s = delayed_set(m.jobs, t);
    let all = delayed_in(m, t);
    lemma_unmoved(m, now);
    match least(s) {
        None => {
            assert(all =~= Set::empty()) by {
                assert forall|id: JobId| !all.contains(id) by {
                    if all.contains(id) {
                        lemma_soonest(m, t, id);
                    }
                }
            }
        },
        Some(p) => {
            let q = choose|q: (u64, u64)| is_least(s, q);
            assert(is_least(s, q));
            crate::inv::lemma_least_unique(s, q);
            let id = p.1;
            assert(s.contains(p));
            assert(all.contains(id));
            if k > 0 {
                lemma_kicked(m, id, now, out);
                let (x, o1) = m.kicking(id, now, out);
                assert(kicked(m, x, id, now));
                assert(x.live(t) == m.live(t));
                let mid = delayed_in(x, t);
                assert(mid =~= all.remove(id)) by {
                    assert forall|a: JobId| mid.contains(a) == all.remove(id).contains(a) by {
                        assert(x.jobs.dom().contains(a) == m.jobs.dom().contains(a));
                        if m.jobs.contains_key(a) && a != id {
                            assert(passed(m, x, a, now));
                        }
                    }
                }
                assert(all.finite());
                assert(m.tube(t).buried.contains(id) <==> m.jobs[id].state == JobState::Buried);
                assert(remove_first(m.tube(t).buried, id) == m.tube(t).buried);
                lemma_kick_delayed(x, t, (k - 1) as nat, now, o1);
                let (n, o, r1) = x.kick_delayed(t, (k - 1) as nat, now, o1);
                let left = delayed_in(n, t);
                lemma_less_still(m, x, n, now);
                assert(!left.contains(id)) by {
                    assert(!mid.contains(id));
                }
                assert forall|a: JobId| #[trigger]
                    all.contains(a) && !left.contains(a) implies kicked(m, n, a, now) by {
                    if a == id {
                        assert(x.jobs.contains_key(id));
                        assert(passed(x, n, id, now));
                        lemma_kicked_then(m, x, n, id, now);
                    } else {
                        assert(mid.contains(a));
                        assert(m.jobs.contains_key(a));
                        assert(passed(m, x, a, now));
                        lemma_then_kicked(m, x, n, a, now);
                    }
                }
                assert forall|a: JobId, b: JobId|
                    #![trigger left.contains(a), left.contains(b)]
                    all.contains(a) && !left.contains(a) && left.contains(b) implies due_before(
                    m,
                    a,
                    b,
                ) by {
                    assert(mid.contains(b));
                    assert(m.jobs.contains_key(b));
                    assert(passed(m, x, b, now));
                    if a == id {
                        let w = (m.jobs[b].deadline_at, b);
                        assert(s.contains(w));
                        assert(pair_le(p, w));
                    } else {
                        assert(mid.contains(a));
                        assert(m.jobs.contains_key(a));
                        assert(passed(m, x, a, now));
                        assert(due_before(x, a, b));
                    }
                }
                assert(soonest_first(m, n, all, left)) by {
                    assert forall|a: JobId, b: JobId|
                        #![trigger all.contains(a), all.contains(b)]
                        all.contains(a) && all.contains(b) && !left.contains(a) && !left.contains(b)
                            && due_before(m, a, b) && n.jobs[b].state
                            != JobState::Ready implies n.jobs[a].state != JobState::Ready by {
                        if b == id {
                            let w = (m.jobs[a].deadline_at, a);
                            assert(s.contains(w));
                            assert(pair_le(p, w));
                        }
                        assert(b != id);
                        assert(mid.contains(b));
                        assert(kicked(x, n, b, now));
                        if a == id {
                            assert(x.jobs.contains_key(id));
                            lemma_not_left(x, id, n.jobs[b].reserver->0, t, now);
                            assert(passed(x, n, id, now));
                        } else {
                            assert(mid.contains(a));
                            assert(m.jobs.contains_key(a) && m.jobs.contains_key(b));
                            assert(passed(m, x, a, now) && passed(m, x, b, now));
                            assert(due_before(x, a, b));
                        }
                    }
                }
                assert forall|a: JobId| #[trigger]
                    m.jobs.contains_key(a) && (!all.contains(a) || left.contains(a)) implies passed(
                    m,
                    n,
                    a,
                    now,
                ) by {
                    assert(a != id);
                    assert(passed(m, x, a, now));
                    assert(x.jobs.contains_key(a));
                    assert(!mid.contains(a) || left.contains(a));
                    assert(passed(x, n, a, now));
                    lemma_passed_twice(m, x, n, a, now);
                }
            } else {
                assert(all.finite());
                assert(all.len() > 0);
            }
        },
    }
}

/// Where a tube has a delayed job, it has a soonest one.
proof fn lemma_soonest(m: Model, t: TubeId, id: JobId)
    requires
        m.jobs.dom().finite(),
        delayed_in(m, t).contains(id),
    ensures
        least(delayed_set(m.jobs, t)) is Some,
{
    let s = delayed_set(m.jobs, t);
    let f = |id: JobId| (m.jobs[id].deadline_at, id);
    let all = m.jobs.dom().map(f);
    m.jobs.dom().lemma_map_finite(f);
    assert(s.subset_of(all)) by {
        assert forall|p: (Nanos, JobId)| s.contains(p) implies all.contains(p) by {
            assert(f(p.1) == p);
        }
    }
    vstd::set_lib::lemma_len_subset(s, all);
    assert(s.contains((m.jobs[id].deadline_at, id)));
    lemma_least_exists(s);
}

/// kick: of the tube that the connection uses, as many jobs are kicked as were
/// asked for, or as there are; the reply says how many. Where the tube has buried
/// jobs, they are the ones buried longest, and no delayed job is kicked; where it
/// has none, they are the delayed ones that were due soonest. In that order they
/// go to those that wait for them, whatever their priorities. The other jobs are
/// left as they are but for being handed out.
pub proof fn kick_takes_the_first(
    m: Model,
    now: Nanos,
    c: ConnId,
    bound: u32,
    sys: SysSnapshot,
    out: Out,
)
    requires
        orderly(m),
        now <= MAX_NOW,
        m.conns.contains_key(c),
    ensures
        ({
            let (n, o) = m.handle(now, c, CommandView::Kick(bound), sys, out);
            let t = m.conns[c].use_tube;
            let buried = m.tube(t).buried;
            let (all, left) = (delayed_in(m, t), delayed_in(n, t));
            let there = if buried.len() > 0 {
                buried.len()
            } else {
                all.len()
            };
            let k = if bound < there {
                bound as nat
            } else {
                there
            };
            &&& o.len() > 0
            &&& o.last() == (c, ResponseView::Kicked(k as u64))
            &&& k <= u32::MAX
            &&& one_more_long(m.ops.cmd_kick, n.ops.cmd_kick)
            &&& n.jobs.dom() == m.jobs.dom()
            &&& n.tube(t).buried == buried.skip(if buried.len() > 0 {
                k as int
            } else {
                0
            })
            &&& buried.len() > 0 ==> (forall|i: int|
                0 <= i < k ==> kicked(m, n, #[trigger] buried[i], now)) && (forall|id: JobId|
                #[trigger]
                m.jobs.contains_key(id) && !buried.take(k as int).contains(id) ==> passed(
                    m,
                    n,
                    id,
                    now,
                ))
            &&& forall|i: int, j: int|
                #![trigger buried[i], buried[j]]
                0 <= i < j < k && j < buried.len() && n.jobs[buried[j]].state != JobState::Ready
                    ==> n.jobs[buried[i]].state != JobState::Ready
            &&& buried.len() == 0 ==> {
                &&& soonest_first(m, n, all, left)
                &&& left.subset_of(all)
                &&& all.len() - left.len() == k
                &&& forall|id: JobId| #[trigger]
                    all.contains(id) && !left.contains(id) ==> kicked(m, n, id, now)
                &&& forall|a: JobId, b: JobId|
                    #![trigger left.contains(a), left.contains(b)]
                    all.contains(a) && !left.contains(a) && left.contains(b) ==> due_before(m, a, b)
                &&& forall|id: JobId| #[trigger]
                    m.jobs.contains_key(id) && (!all.contains(id) || left.contains(id)) ==> passed(
                        m,
                        n,
                        id,
                        now,
                    )
            }
        }),
{
    lemma_orderly_well_kept(m);
    let x = Model { ops: OpCounts { cmd_kick: bump(m.ops.cmd_kick), ..m.ops }, ..m };
    lemma_also_kept(m, x);
    let t = m.conns[c].use_tube;
    assert(m.live(t));
    assert(x.live(t) && x.tube(t) == m.tube(t));
    let (n, o) = m.handle(now, c, CommandView::Kick(bound), sys, out);
    let buried = m.tube(t).buried;
    assert(delayed_in(x, t) =~= delayed_in(m, t));
    assert(buried.skip(0) =~= buried);
    if buried.len() > 0 {
        lemma_kick_buried(x, t, bound as nat, now, out);
        assert forall|i: int| 0 <= i < buried.len() && kicked(x, n, #[trigger] buried[i], now) implies kicked(
            m,
            n,
            buried[i],
            now,
        ) by {
            lemma_like(m, x, n, buried[i], now);
        }
    } else {
        lemma_kick_delayed(x, t, bound as nat, now, out);
        assert forall|id: JobId| #[trigger] delayed_in(m, t).contains(id) && kicked(
            x,
            n,
            id,
            now,
        ) implies kicked(m, n, id, now) by {
            lemma_like(m, x, n, id, now);
        }
    }
    assert forall|id: JobId| #[trigger] m.jobs.contains_key(id) && passed(
        x,
        n,
        id,
        now,
    ) implies passed(m, n, id, now) by {
        lemma_like(m, x, n, id, now);
    }
}

/// What is counted is no matter.
proof fn lemma_like(m: Model, x: Model, n: Model, id: JobId, now: Nanos)
    requires
        x.jobs == m.jobs,
        x.tubes == m.tubes,
        x.conns == m.conns,
    ensures
        passed(x, n, id, now) == passed(m, n, id, now),
        kicked(x, n, id, now) == kicked(m, n, id, now),
{
    let b = n.jobs[id];
    let t = m.jobs[id].tube;
    assert(awaits(x, b.reserver->0, t) == awaits(m, b.reserver->0, t));
    assert(open_at(x, t, now) == open_at(m, t, now)) by {
        assert(x.live(t) == m.live(t));
    }
}

} // verus!
