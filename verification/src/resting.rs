//! What a tick leaves: nothing that is due. A tick of an engine that rests does
//! nothing.

use crate::api::{ConnId, Nanos, MAX_NOW};
use crate::inv::{lemma_least_empty, lemma_least_exists, lemma_least_unique};
use crate::model::{JobState, JobView, TubeId};
use crate::proto::JobId;
use crate::rules::{is_least, least, pair_le, reserved_set, Model, Out, SAFETY_MARGIN};
use vstd::prelude::*;

verus! {

/// Whether connection `c` is there and waits.
pub open spec fn waits(m: Model, c: ConnId) -> bool {
    m.conns.contains_key(c) && m.conns[c].waiting
}

/// Whether connection `c` needs no attention at `now`: none of its reservations
/// has run out and, if it waits, none is about to and its wait is not over.
pub open spec fn calm(m: Model, c: ConnId, now: Nanos) -> bool {
    &&& forall|id: JobId| #[trigger] m.holds(c, id) ==> m.jobs[id].deadline_at >= now
    &&& waits(m, c) ==> (forall|id: JobId| #[trigger]
        m.holds(c, id) ==> m.jobs[id].deadline_at > now + SAFETY_MARGIN) && (
    m.conns[c].wait_deadline is Some ==> m.conns[c].wait_deadline->0 > now)
}

/// Whether nothing is left to do at `now`: every delayed job's deadline is
/// still to come, no pause has expired, and no connection needs attention.
pub open spec fn rested(m: Model, now: Nanos) -> bool {
    &&& forall|id: JobId| #[trigger] m.is_delayed(id) ==> m.jobs[id].deadline_at > now
    &&& !m.pause_expired(now)
    &&& forall|c: ConnId| #[trigger] m.conns.contains_key(c) ==> calm(m, c, now)
}

/// Whether job `id` is reserved in `b` as it was in `a`.
pub open spec fn still_held(a: Model, b: Model, id: JobId) -> bool {
    a.jobs.contains_key(id) && a.jobs[id].state == JobState::Reserved && a.jobs[id].reserver
        == b.jobs[id].reserver && a.jobs[id].deadline_at == b.jobs[id].deadline_at
}

/// Whether from `a` to `b` nothing has become due by `now`: nobody has begun to
/// wait, no job has been delayed, no tube paused, and a job that was reserved
/// is held by a connection that does not wait, until after `now`.
pub open spec fn eased(a: Model, b: Model, now: Nanos) -> bool {
    &&& a.conns.dom() == b.conns.dom()
    &&& forall|c: ConnId| #[trigger]
        waits(b, c) ==> waits(a, c) && a.conns[c].wait_deadline == b.conns[c].wait_deadline
    &&& forall|id: JobId| #[trigger]
        b.jobs.contains_key(id) && b.jobs[id].state == JobState::Reserved ==> still_held(a, b, id)
            || (b.jobs[id].deadline_at > now && b.jobs[id].reserver is Some && !waits(
            b,
            b.jobs[id].reserver->0,
        ))
    &&& forall|id: JobId| #[trigger]
        b.is_delayed(id) ==> a.is_delayed(id) && a.jobs[id].deadline_at == b.jobs[id].deadline_at
    &&& forall|t: TubeId| #[trigger]
        b.live(t) && b.tube(t).pause > 0 ==> a.live(t) && a.tube(t).pause > 0
            && a.tube(t).unpause_at == b.tube(t).unpause_at
}

/// Where nothing becomes due twice in a row, nothing becomes due.
pub proof fn lemma_eased(a: Model, b: Model, c: Model, now: Nanos)
    requires
        eased(a, b, now),
        eased(b, c, now),
    ensures
        eased(a, c, now),
{
    assert forall|id: JobId| #[trigger]
        c.jobs.contains_key(id) && c.jobs[id].state == JobState::Reserved implies still_held(
        a,
        c,
        id,
    ) || (c.jobs[id].deadline_at > now && c.jobs[id].reserver is Some && !waits(
        c,
        c.jobs[id].reserver->0,
    )) by {
        if still_held(b, c, id) {
            assert(b.jobs.contains_key(id));
        }
    }
    assert forall|t: TubeId| #[trigger] c.live(t) && c.tube(t).pause > 0 implies a.live(t)
        && a.tube(t).pause > 0 && a.tube(t).unpause_at == c.tube(t).unpause_at by {
        assert(b.live(t));
    }
}

/// Where nothing becomes due, a connection that needed no attention needs none.
pub proof fn lemma_calm(a: Model, b: Model, c: ConnId, now: Nanos)
    requires
        eased(a, b, now),
        calm(a, c, now),
    ensures
        calm(b, c, now),
{
    assert forall|id: JobId| #[trigger] b.holds(c, id) implies b.jobs[id].deadline_at >= now && (
    waits(b, c) ==> b.jobs[id].deadline_at > now + SAFETY_MARGIN) by {
        assert(b.jobs.contains_key(id));
        if still_held(a, b, id) {
            assert(a.holds(c, id));
        }
    }
}

/// Handing a job to a connection that waits makes nothing due.
pub proof fn lemma_handed(m: Model, id: JobId, now: Nanos)
    requires
        m.awaited(id),
        m.jobs[id].id == id,
        m.jobs[id].ttr >= 1,
        waits(m, m.next_waiter(m.jobs[id].tube)),
        now <= MAX_NOW,
    ensures
        eased(m, m.handing_over(id, now), now),
{
    let n = m.handing_over(id, now);
    let c = m.next_waiter(m.jobs[id].tube);
    let j = n.jobs[id];
    assert(j.deadline_at > now) by (nonlinear_arith)
        requires
            j.deadline_at == (now + m.jobs[id].ttr * 1_000_000_000) as u64,
            m.jobs[id].ttr >= 1,
            m.jobs[id].ttr <= u32::MAX,
            now <= 14_151_776_778_709_551_615,
    ;
    assert(m.conns.dom() =~= n.conns.dom());
    assert(!waits(n, c));
    assert forall|t: TubeId| #[trigger] n.live(t) && n.tube(t).pause > 0 implies m.live(t)
        && m.tube(t).pause > 0 && m.tube(t).unpause_at == n.tube(t).unpause_at by {
        assert(m.live(t));
    }
}

/// Lifting pauses makes nothing due.
pub proof fn lemma_unpaused(m: Model, now: Nanos)
    ensures
        eased(m, m.unpaused(now), now),
{
    let n = m.unpaused(now);
    assert forall|t: TubeId| #[trigger] n.live(t) && n.tube(t).pause > 0 implies m.live(t)
        && m.tube(t).pause > 0 && m.tube(t).unpause_at == n.tube(t).unpause_at by {
        assert(m.live(t));
    }
}

/// Making a job ready makes nothing due.
pub proof fn lemma_made_ready(m: Model, j: JobView, now: Nanos)
    requires
        m.jobs.contains_key(j.id),
        m.jobs[j.id].state == JobState::Reserved ==> m.jobs[j.id].reserver is Some
            && m.conns.contains_key(m.jobs[j.id].reserver->0),
        m.jobs[j.id].state == JobState::Buried ==> m.live(m.jobs[j.id].tube),
        j.state == JobState::Ready,
    ensures
        eased(m, m.without_job(j.id).with_job(j), now),
{
    let n = m.without_job(j.id).with_job(j);
    assert(m.conns.dom() =~= n.conns.dom());
    assert forall|t: TubeId| #[trigger] n.live(t) && n.tube(t).pause > 0 implies m.live(t)
        && m.tube(t).pause > 0 && m.tube(t).unpause_at == n.tube(t).unpause_at by {
        assert(m.live(t));
    }
}

/// Ending a wait makes nothing due, and leaves a connection calm that holds no
/// job for too long.
pub proof fn lemma_stopped(m: Model, c: ConnId, now: Nanos)
    ensures
        eased(m, m.stop_waiting(c), now),
        (forall|id: JobId| #[trigger] m.holds(c, id) ==> m.jobs[id].deadline_at >= now) ==> calm(
            m.stop_waiting(c),
            c,
            now,
        ),
{
    let n = m.stop_waiting(c);
    assert forall|id: JobId| n.holds(c, id) == #[trigger] m.holds(c, id) by {}
    if forall|id: JobId| #[trigger] m.holds(c, id) ==> m.jobs[id].deadline_at >= now {
        assert forall|id: JobId| #[trigger] n.holds(c, id) implies n.jobs[id].deadline_at
            >= now by {
            assert(m.holds(c, id));
        }
    }
    assert(m.conns.dom() =~= n.conns.dom());
    assert forall|t: TubeId| #[trigger] n.live(t) && n.tube(t).pause > 0 implies m.live(t)
        && m.tube(t).pause > 0 && m.tube(t).unpause_at == n.tube(t).unpause_at by {
        assert(m.live(t));
    }
}

/// The reservations of a connection are finitely many.
pub proof fn lemma_held_finite(m: Model, c: ConnId)
    requires
        m.jobs.dom().finite(),
    ensures
        reserved_set(m.jobs, c).finite(),
{
    let s = reserved_set(m.jobs, c);
    let f = |id: JobId| (m.jobs[id].deadline_at, id);
    let all = m.jobs.dom().map(f);
    m.jobs.dom().lemma_map_finite(f);
    assert(s.subset_of(all)) by {
        assert forall|p: (Nanos, JobId)| s.contains(p) implies all.contains(p) by {
            assert(f(p.1) == p);
        }
    }
    vstd::set_lib::lemma_len_subset(s, all);
}

/// Where the first of a connection's reservations has not run out, none has.
pub proof fn lemma_none_overdue(m: Model, c: ConnId, now: Nanos)
    requires
        m.jobs.dom().finite(),
        m.soonest_reserved(c) is Some ==> (m.soonest_reserved(c)->0).0 >= now,
    ensures
        forall|id: JobId| #[trigger] m.holds(c, id) ==> m.jobs[id].deadline_at >= now,
        !m.deadline_soon(c, now) ==> forall|id: JobId| #[trigger]
            m.holds(c, id) ==> m.jobs[id].deadline_at > now + SAFETY_MARGIN,
{
    let s = reserved_set(m.jobs, c);
    lemma_held_finite(m, c);
    assert forall|id: JobId| #[trigger] m.holds(c, id) implies m.jobs[id].deadline_at >= now && (
    !m.deadline_soon(c, now) ==> m.jobs[id].deadline_at > now + SAFETY_MARGIN) by {
        let p = (m.jobs[id].deadline_at, id);
        assert(s.contains(p));
        lemma_least_exists(s);
        assert(pair_le(least(s)->0, p));
    }
}

/// A connection that needs attention only after `now` is calm.
pub proof fn lemma_not_due(m: Model, c: ConnId, now: Nanos)
    requires
        m.jobs.dom().finite(),
        m.conns.contains_key(c),
        m.tick_at(c) is Some ==> m.tick_at(c)->0 > now,
    ensures
        calm(m, c, now),
{
    let s = reserved_set(m.jobs, c);
    lemma_held_finite(m, c);
    assert forall|id: JobId| #[trigger] m.holds(c, id) implies m.jobs[id].deadline_at >= now && (
    waits(m, c) ==> m.jobs[id].deadline_at > now + SAFETY_MARGIN) by {
        let p = (m.jobs[id].deadline_at, id);
        assert(s.contains(p));
        lemma_least_exists(s);
        assert(pair_le(least(s)->0, p));
    }
}

/// A connection that is calm is told nothing and loses nothing.
proof fn lemma_left_alone(m: Model, c: ConnId, now: Nanos, out: Out)
    requires
        m.conns.contains_key(c),
        calm(m, c, now),
    ensures
        m.attend(c, now, out) == (m, out),
{
    let s = reserved_set(m.jobs, c);
    if least(s) is Some {
        let p = choose|p: (Nanos, JobId)| is_least(s, p);
        assert(is_least(s, p));
        lemma_least_unique(s, p);
        assert(m.holds(c, p.1));
    }
    assert(m.expire(c, now, out) == (m, out));
}

/// Attending to connections that are calm changes nothing.
proof fn lemma_all_left_alone(m: Model, done: Set<ConnId>, now: Nanos, out: Out)
    requires
        forall|c: ConnId| #[trigger] m.conns.contains_key(c) ==> calm(m, c, now),
    ensures
        m.attend_all(done, now, out) == (m, out),
    decreases m.conns.dom().difference(done).len(),
{
    let due = m.due_conns(done, now);
    match least(due) {
        None => {},
        Some(p) => {
            let q = choose|q: (Nanos, ConnId)| is_least(due, q);
            assert(is_least(due, q));
            lemma_least_unique(due, q);
            assert(m.conns.contains_key(p.1));
            lemma_left_alone(m, p.1, now, out);
            if m.conns.dom().difference(done.insert(p.1)).len() < m.conns.dom().difference(
                done,
            ).len() {
                lemma_all_left_alone(m, done.insert(p.1), now, out);
            }
        },
    }
}

/// Where a tick has left nothing to do, another one at the same time changes
/// nothing and sends nothing.
pub proof fn ticking_again_does_nothing(m: Model, now: Nanos, out: Out)
    requires
        rested(m, now),
    ensures
        m.tick(now, out) == (m, out),
{
    if m.soonest_delayed() is Some {
        let id = m.soonest_delayed()->0;
        assert(m.is_soonest_delayed(id));
        assert(m.is_delayed(id));
    }
    assert(m.release_due(now, out) == (m, out));
    lemma_all_left_alone(m, Set::empty(), now, out);
}

/// Before the first time at which something is due, a tick changes nothing and
/// sends nothing.
pub proof fn nothing_due_nothing_done(m: Model, now: Nanos, out: Out)
    requires
        forall|e: Nanos| #[trigger] m.due_times().contains(e) ==> e > now,
    ensures
        m.tick(now, out) == (m, out),
{
    if m.soonest_delayed() is Some {
        let id = m.soonest_delayed()->0;
        assert(m.is_soonest_delayed(id));
        assert(m.is_delayed(id));
        assert(m.due_times().contains(m.jobs[id].deadline_at));
    }
    assert(m.release_due(now, out) == (m, out));
    if m.pause_expired(now) {
        let t = choose|t: TubeId| #[trigger]
            m.live(t) && m.tube(t).pause > 0 && m.tube(t).unpause_at <= now;
        assert(m.due_times().contains(m.tube(t).unpause_at));
    }
    assert forall|p: (Nanos, ConnId)| !m.due_conns(Set::empty(), now).contains(p) by {
        if m.due_conns(Set::empty(), now).contains(p) {
            assert(m.conns.contains_key(p.1));
            assert(m.due_times().contains(p.0));
        }
    }
    assert(m.due_conns(Set::empty(), now) =~= Set::empty());
    lemma_least_empty(m.due_conns(Set::empty(), now));
}

/// Where nothing is due, nothing is left to do.
pub proof fn lemma_nothing_due_rests(m: Model, now: Nanos)
    requires
        m.jobs.dom().finite(),
        forall|e: Nanos| #[trigger] m.due_times().contains(e) ==> e > now,
    ensures
        rested(m, now),
{
    assert forall|id: JobId| #[trigger] m.is_delayed(id) implies m.jobs[id].deadline_at > now by {
        assert(m.due_times().contains(m.jobs[id].deadline_at));
    }
    if m.pause_expired(now) {
        let t = choose|t: TubeId| #[trigger]
            m.live(t) && m.tube(t).pause > 0 && m.tube(t).unpause_at <= now;
        assert(m.due_times().contains(m.tube(t).unpause_at));
    }
    assert forall|c: ConnId| #[trigger] m.conns.contains_key(c) implies calm(m, c, now) by {
        if m.tick_at(c) is Some {
            assert(m.due_times().contains(m.tick_at(c)->0));
        }
        lemma_not_due(m, c, now);
    }
}

} // verus!
