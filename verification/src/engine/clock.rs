//! What time brings about: delayed jobs that become ready, pauses that end,
//! reservations and waits that run out.

use super::dispatch::{bump_u32, bump_u64};
use super::jobs::first_pair;
use super::Engine;
use crate::api::{sent, ConnId, Nanos, Outbox, MAX_NOW};
use crate::inv::{
    at, conn_ok, lemma_jobs_insert, lemma_jobs_remove, lemma_least_empty, lemma_least_exists,
    lemma_least_unique, live, tube_ok,
};
use crate::model::{JobRec, JobState, JobView, TubeId};
use crate::ordset::{
    first_time, lemma_finite, lemma_iter_index_pairs, lemma_iter_pairs, time_le,
};
use crate::proto::{JobId, Response, ResponseView};
use crate::resting::{
    calm, eased, lemma_calm, lemma_eased, lemma_made_ready, lemma_none_overdue, lemma_not_due,
    lemma_nothing_due_rests, lemma_stopped, nothing_due_nothing_done, rested,
};
use crate::rules::{
    bump, bump32, count_jobs, delayed_set, is_least, least, pair_le, reserved_set, JobSel, Model,
    SAFETY_MARGIN,
};
use crate::settle::{quiet, same_refs};
use std::collections::BTreeSet;
use vstd::prelude::*;

verus! {

/// At most one delayed job is the soonest.
proof fn lemma_soonest_delayed(m: Model, id: JobId)
    requires
        m.is_soonest_delayed(id),
    ensures
        m.soonest_delayed() == Some(id),
{
    let o = choose|o: JobId| m.is_soonest_delayed(o);
    assert(m.is_soonest_delayed(o));
    assert(m.is_delayed(o) && m.is_delayed(id));
    assert(m.sooner(o, id) && m.sooner(id, o));
}

impl Engine {
    /// The first job of the delayed ones of tube `tid`, which has the soonest
    /// deadline of all, and of those that have it stands first in the list.
    fn first_delayed(&self, tid: TubeId, d: Nanos) -> (r: (Nanos, TubeId, JobId))
        requires
            self.wf(),
            live(self.tubes@, tid),
            at(self.tubes@, tid).delay_head == Some(d),
            forall|p: (Nanos, TubeId)| #[trigger] self.delay_heads@.contains(p) ==> d <= p.0,
            forall|p: (Nanos, TubeId)| #[trigger]
                self.delay_heads@.contains(p) && p.0 == d ==> at(self.tubes@, tid).pos <= at(
                    self.tubes@,
                    p.1,
                ).pos,
        ensures
            self@.is_soonest_delayed(r.2),
            self@.soonest_delayed() == Some(r.2),
            self@.jobs[r.2].deadline_at == r.0,
            self@.jobs[r.2].tube == r.1,
            r.0 == d,
    {
        let mut r: (Nanos, TubeId, JobId) = (d, tid, 0);
        assert(tube_ok(at(self.tubes@, tid), tid, self.jv(), self.cv()));
        if let Some(t) = &self.tubes[tid] {
            if let Some(p) = first_pair(&t.delayed) {
                r = (p.0, tid, p.1);
            }
            proof {
                assert(least(t.delayed@) is Some);
                assert(t.delayed@.contains((r.0, r.2)));
                assert(delayed_set(self.jv(), tid).contains((r.0, r.2)));
            }
        }
        proof {
            let id = r.2;
            assert(self@.is_delayed(id));
            assert forall|o: JobId| #[trigger] self@.is_delayed(o) implies self@.sooner(id, o) by {
                let u = self@.jobs[o].tube;
                assert(self.jv().contains_key(o));
                assert(live(self.tubes@, u));
                let x = at(self.tubes@, u);
                assert(tube_ok(x, u, self.jv(), self.cv()));
                assert(x.delayed@.contains((self@.jobs[o].deadline_at, o)));
                lemma_finite(&x.delayed);
                lemma_least_exists(x.delayed@);
                let h = least(x.delayed@)->0;
                assert(is_least(x.delayed@, h));
                assert(pair_le(h, (self@.jobs[o].deadline_at, o)));
                assert(self.delay_heads@.contains((h.0, u)));
                self.lemma_place(u);
                self.lemma_place(tid);
                if self@.place(u) == self@.place(tid) {
                    assert(u == tid);
                }
            }
            lemma_soonest_delayed(self@, id);
        }
        r
    }

    /// The delayed job with the soonest deadline. Of equal ones, the tube that
    /// stands first in the list of tubes wins.
    pub(super) fn soonest_delayed_job(&self) -> (r: Option<(Nanos, TubeId, JobId)>)
        requires
            self.wf(),
        ensures
            match r {
                Some(p) => self@.is_soonest_delayed(p.2) && self@.soonest_delayed() == Some(p.2)
                    && self@.jobs[p.2].deadline_at == p.0 && self@.jobs[p.2].tube == p.1,
                None => self@.soonest_delayed() is None && forall|id: JobId| !self@.is_delayed(id),
            },
    {
        broadcast use {crate::ordset::group_ordered, vstd::std_specs::btree::group_btree_axioms};

        let mut best: Option<(Nanos, usize, TubeId)> = None;
        proof {
            lemma_iter_index_pairs(&self.delay_heads);
        }
        for p in it: self.delay_heads.iter()
            invariant
                self.wf(),
                it.seq().unref().to_set() == self.delay_heads@,
                it.seq().len() == self.delay_heads@.len(),
                forall|i: int, j: int|
                    #![trigger it.seq()[i], it.seq()[j]]
                    0 <= i < j < it.seq().len() ==> it.seq()[i].0 <= it.seq()[j].0,
                best is None <==> it.index() == 0,
                match best {
                    Some(b) => {
                        &&& live(self.tubes@, b.2)
                        &&& at(self.tubes@, b.2).delay_head == Some(b.0)
                        &&& at(self.tubes@, b.2).pos == b.1
                        &&& b.0 == it.seq()[0].0
                        &&& forall|i: int|
                            #![trigger it.seq()[i]]
                            0 <= i < it.index() ==> it.seq()[i].0 == b.0 && b.1 <= at(
                                self.tubes@,
                                it.seq()[i].1,
                            ).pos
                        &&& it.index() == it.seq().len() ==> (forall|q: (Nanos, TubeId)| #[trigger]
                            self.delay_heads@.contains(q) ==> b.0 == q.0 && b.1 <= at(
                                self.tubes@,
                                q.1,
                            ).pos)
                    },
                    None => true,
                },
        {
            proof {
                assert(it.seq().unref()[it.index()] == *p);
                assert(it.seq().unref().to_set().contains(*p));
                assert(self.delay_heads@.contains(*p));
                assert(live(self.tubes@, p.1));
            }
            let ghost before = best;
            if let Some(b) = best {
                if p.0 != b.0 {
                    proof {
                        assert forall|q: (Nanos, TubeId)| #[trigger]
                            self.delay_heads@.contains(q) implies b.0 <= q.0 && (q.0 == b.0
                            ==> b.1 <= at(self.tubes@, q.1).pos) by {
                            assert(it.seq().unref().to_set().contains(q));
                            let k = it.seq().unref().index_of(q);
                            assert(*it.seq()[k] == q);
                            if k >= it.index() {
                                assert(it.seq()[it.index()].0 <= it.seq()[k].0 || k == it.index());
                                assert(it.seq()[0].0 <= it.seq()[it.index()].0);
                            }
                        }
                    }
                    return Some(self.first_delayed(b.2, b.0));
                }
            }
            let pos: usize = match &self.tubes[p.1] {
                Some(t) => t.pos,
                None => 0,
            };
            let better = match best {
                Some(b) => pos < b.1,
                None => true,
            };
            if better {
                best = Some((p.0, pos, p.1));
            }
            proof {
                let b = best->0;
                assert forall|i: int|
                    #![trigger it.seq()[i]]
                    0 <= i < it.index() + 1 implies it.seq()[i].0 == b.0 && b.1 <= at(
                    self.tubes@,
                    it.seq()[i].1,
                ).pos by {
                    if i == it.index() {
                        assert(*it.seq()[i] == *p);
                    }
                }
                assert forall|q: (Nanos, TubeId)| #[trigger]
                    self.delay_heads@.contains(q) && it.index() + 1 == it.seq().len() implies b.0
                    == q.0 && b.1 <= at(self.tubes@, q.1).pos by {
                    assert(it.seq().unref().to_set().contains(q));
                    let k = it.seq().unref().index_of(q);
                    assert(*it.seq()[k] == q);
                }
            }
        }
        match best {
            Some(b) => Some(self.first_delayed(b.2, b.0)),
            None => {
                proof {
                    lemma_finite(&self.delay_heads);
                    assert(self.delay_heads@.len() == 0);
                    assert forall|id: JobId| !self@.is_delayed(id) by {
                        if self@.is_delayed(id) {
                            self.lemma_delayed_listed(id);
                        }
                    }
                }
                None
            },
        }
    }

    /// A delayed job has its tube listed, under a deadline no later than its
    /// own.
    pub(super) proof fn lemma_delayed_listed(self, id: JobId)
        requires
            self.wf(),
            self@.is_delayed(id),
        ensures
            exists|p: (Nanos, TubeId)| #[trigger]
                self.delay_heads@.contains(p) && p.0 <= self@.jobs[id].deadline_at,
    {
        let u = self@.jobs[id].tube;
        assert(self.jv().contains_key(id));
        assert(live(self.tubes@, u));
        let x = at(self.tubes@, u);
        assert(tube_ok(x, u, self.jv(), self.cv()));
        assert(x.delayed@.contains((self@.jobs[id].deadline_at, id)));
        lemma_finite(&x.delayed);
        lemma_least_exists(x.delayed@);
        let h = least(x.delayed@)->0;
        assert(pair_le(h, (self@.jobs[id].deadline_at, id)));
        assert(self.delay_heads@.contains((h.0, u)));
    }

    /// A connection's entry in the index of ticks is when it needs attention.
    proof fn lemma_tick_at(self, c: ConnId)
        requires
            self.wf(),
            self@.conns.contains_key(c),
        ensures
            self@.tick_at(c) == self.conns@[c].tick_key,
            self@.soonest_reserved(c) == least(self.conns@[c].reserved_by_deadline@),
    {
        assert(self.conns@.contains_key(c));
        assert(conn_ok(self.conns@[c], c, self.next_job_id, self.tubes@, self.jv()));
    }

    /// The earliest time at which something is due.
    pub fn next_deadline(&self) -> (r: Option<Nanos>)
        requires
            self.wf(),
        ensures
            match r {
                Some(d) => self@.due_times().contains(d) && forall|e: Nanos| #[trigger]
                    self@.due_times().contains(e) ==> d <= e,
                None => forall|e: Nanos| !(#[trigger] self@.due_times().contains(e)),
            },
    {
        let by_delay = first_time(&self.delay_heads);
        let by_pause = first_time(&self.pauses);
        let by_conn = first_pair(&self.conn_ticks);
        let mut r: Option<Nanos> = None;
        if let Some(p) = by_delay {
            r = Some(p.0);
        }
        if let Some(p) = by_pause {
            r = match r {
                Some(d) => Some(
                    if d <= p.0 {
                        d
                    } else {
                        p.0
                    },
                ),
                None => Some(p.0),
            };
        }
        if let Some(p) = by_conn {
            r = match r {
                Some(d) => Some(
                    if d <= p.0 {
                        d
                    } else {
                        p.0
                    },
                ),
                None => Some(p.0),
            };
        }
        proof {
            if let Some(p) = by_delay {
                self.lemma_head_due(p);
            }
            if let Some(p) = by_pause {
                assert(live(self.tubes@, p.1));
                assert(self@.live(p.1));
                assert(self@.due_times().contains(p.0));
            }
            if let Some(p) = by_conn {
                self.lemma_tick_at(p.1);
                assert(self@.conns.contains_key(p.1));
                assert(self@.due_times().contains(p.0));
            }
            assert forall|e: Nanos| #[trigger] self@.due_times().contains(e) implies r is Some
                && r->0 <= e by {
                if exists|id: JobId| #[trigger]
                    self@.is_delayed(id) && self@.jobs[id].deadline_at == e {
                    let id = choose|id: JobId| #[trigger]
                        self@.is_delayed(id) && self@.jobs[id].deadline_at == e;
                    self.lemma_delayed_listed(id);
                } else if exists|t: TubeId| #[trigger]
                    self@.live(t) && self@.tube(t).pause > 0 && self@.tube(t).unpause_at == e {
                    let t = choose|t: TubeId| #[trigger]
                        self@.live(t) && self@.tube(t).pause > 0 && self@.tube(t).unpause_at == e;
                    assert(live(self.tubes@, t));
                    assert(self.pauses@.contains((e, t)));
                } else {
                    let c = choose|c: ConnId| #[trigger]
                        self@.conns.contains_key(c) && self@.tick_at(c) == Some(e);
                    self.lemma_tick_at(c);
                    assert(self.conn_ticks@.contains((e, c)));
                }
            }
        }
        r
    }

    /// A tube's first deadline is the deadline of one of its jobs.
    proof fn lemma_head_due(self, p: (Nanos, TubeId))
        requires
            self.wf(),
            self.delay_heads@.contains(p),
        ensures
            self@.due_times().contains(p.0),
    {
        assert(live(self.tubes@, p.1));
        let x = at(self.tubes@, p.1);
        assert(tube_ok(x, p.1, self.jv(), self.cv()));
        let h = least(x.delayed@)->0;
        assert(is_least(x.delayed@, h));
        assert(delayed_set(self.jv(), p.1).contains(h));
        assert(self@.is_delayed(h.1));
    }

    /// The connection outside `done` that has needed attention longest.
    fn next_due(&self, done: &BTreeSet<ConnId>, now: Nanos) -> (r: Option<ConnId>)
        requires
            self.wf(),
        ensures
            match least(self@.due_conns(done@, now)) {
                Some(p) => r == Some(p.1) && self@.conns.contains_key(p.1) && !done@.contains(p.1),
                None => r is None,
            },
    {
        broadcast use {crate::ordset::group_ordered, vstd::std_specs::btree::group_btree_axioms};

        let ghost due = self@.due_conns(done@, now);
        proof {
            lemma_iter_pairs(&self.conn_ticks);
            assert forall|q: (Nanos, ConnId)| #[trigger] due.contains(q) <==> self.conn_ticks@.contains(
                q,
            ) && !done@.contains(q.1) && q.0 <= now by {
                if self@.conns.contains_key(q.1) {
                    self.lemma_tick_at(q.1);
                }
            }
        }
        for p in it: self.conn_ticks.iter()
            invariant
                it.seq().unref().to_set() == self.conn_ticks@,
                it.seq().len() == self.conn_ticks@.len(),
                forall|i: int, j: int|
                    #![trigger it.seq()[i], it.seq()[j]]
                    0 <= i < j < it.seq().len() ==> time_le(*it.seq()[i], *it.seq()[j]),
                forall|q: (Nanos, ConnId)| #[trigger]
                    due.contains(q) <==> self.conn_ticks@.contains(q) && !done@.contains(q.1) && q.0
                        <= now,
                due == self@.due_conns(done@, now),
                forall|i: int| 0 <= i < it.index() ==> !due.contains(*#[trigger] it.seq()[i]),
                it.index() == it.seq().len() ==> due =~= Set::<(Nanos, ConnId)>::empty(),
        {
            proof {
                assert(it.seq().unref()[it.index()] == *p);
                assert(it.seq().unref().to_set().contains(*p));
            }
            if p.0 > now {
                proof {
                    assert forall|q: (Nanos, ConnId)| !due.contains(q) by {
                        if self.conn_ticks@.contains(q) {
                            assert(it.seq().unref().to_set().contains(q));
                            let k = it.seq().unref().index_of(q);
                            assert(*it.seq()[k] == q);
                            assert(k < it.index() || k == it.index() || time_le(
                                *it.seq()[it.index()],
                                *it.seq()[k],
                            ));
                        }
                    }
                    assert(due =~= Set::empty());
                    lemma_least_empty(due);
                }
                return None;
            }
            if !done.contains(&p.1) {
                proof {
                    assert(due.contains(*p));
                    assert forall|q: (Nanos, ConnId)| #[trigger] due.contains(q) implies pair_le(
                        *p,
                        q,
                    ) by {
                        assert(it.seq().unref().to_set().contains(q));
                        let k = it.seq().unref().index_of(q);
                        assert(*it.seq()[k] == q);
                        assert(k < it.index() || k == it.index() || time_le(
                            *it.seq()[it.index()],
                            *it.seq()[k],
                        ));
                    }
                    assert(is_least(due, *p));
                    lemma_least_unique(due, *p);
                }
                return Some(p.1);
            }
            proof {
                assert forall|q: (Nanos, ConnId)| it.index() + 1 == it.seq().len() implies !due.contains(
                q) by {
                    if due.contains(q) {
                        assert(it.seq().unref().to_set().contains(q));
                        let k = it.seq().unref().index_of(q);
                        assert(*it.seq()[k] == q);
                    }
                }
            }
        }
        proof {
            if self.conn_ticks@.len() == 0 {
                lemma_finite(&self.conn_ticks);
                assert(due =~= Set::empty());
            }
            lemma_least_empty(due);
        }
        None
    }

    /// Whether a reservation of connection `cid` is about to run out, or has.
    pub(super) fn conn_deadline_soon(&self, cid: ConnId, now: Nanos) -> (r: bool)
        requires
            self.wf(),
            self@.conns.contains_key(cid),
        ensures
            r == self@.deadline_soon(cid, now),
    {
        broadcast use {crate::ordset::group_ordered, vstd::std_specs::btree::group_btree_axioms};

        proof {
            self.lemma_tick_at(cid);
        }
        match self.conns.get(&cid) {
            Some(c) => match first_pair(&c.reserved_by_deadline) {
                Some(p) => now >= p.0.saturating_sub(SAFETY_MARGIN),
                None => false,
            },
            None => false,
        }
    }

    /// Makes job `id` ready.
    pub(super) fn make_ready(&mut self, id: JobId)
        requires
            old(self).wf(),
            old(self)@.jobs.contains_key(id),
        ensures
            final(self).host() == old(self).host(),
            final(self).wf(),
            final(self)@ == old(self)@.readying(id),
            same_refs(old(self)@, final(self)@),
    {
        let mut j: JobRec = self.take_job(id);
        j.state = JobState::Ready;
        j.reserver = None;
        self.put_job(j);
        assert(same_refs(old(self)@, self@)) by {
            assert(old(self).jv().contains_key(id));
            assert(old(self)@.jobs.dom() =~= self@.jobs.dom());
            assert(old(self)@.conns.dom() =~= self@.conns.dom());
        }
    }

    /// Takes job `id`, whose reservation has run out, from its holder and makes
    /// it ready.
    fn time_out(&mut self, id: JobId)
        requires
            old(self).wf(),
            old(self)@.jobs.contains_key(id),
        ensures
            final(self).host() == old(self).host(),
            final(self).wf(),
            final(self)@ == (Model { timeout_ct: bump(old(self)@.timeout_ct), ..old(self)@ }).without_job(
                id,
            ).with_job(
                JobView {
                    state: JobState::Ready,
                    reserver: None,
                    timeout_ct: bump32(old(self)@.jobs[id].timeout_ct),
                    ..old(self)@.jobs[id]
                },
            ),
            same_refs(old(self)@, final(self)@),
    {
        self.timeout_ct = bump_u64(self.timeout_ct);
        let ghost m = Model { timeout_ct: bump(old(self)@.timeout_ct), ..old(self)@ };
        assert(self.wf());
        assert(self@ =~= m);
        let mut j: JobRec = self.take_job(id);
        j.timeout_ct = bump_u32(j.timeout_ct);
        j.state = JobState::Ready;
        j.reserver = None;
        self.put_job(j);
        assert(same_refs(old(self)@, self@)) by {
            assert(old(self).jv().contains_key(id));
            assert(old(self)@.jobs.dom() =~= self@.jobs.dom());
            assert(old(self)@.conns.dom() =~= self@.conns.dom());
        }
    }

    /// The reservation of connection `cid` that runs out first.
    fn soonest_reservation(&self, cid: ConnId) -> (r: Option<(Nanos, JobId)>)
        requires
            self.wf(),
            self@.conns.contains_key(cid),
        ensures
            r == self@.soonest_reserved(cid),
            r is Some ==> self@.jobs.contains_key((r->0).1) && self@.jobs[(r->0).1].deadline_at == (r->0).0
                && self@.jobs[(r->0).1].state == JobState::Reserved && self@.jobs[(r->0).1].reserver
                == Some(cid),
    {
        broadcast use {crate::ordset::group_ordered, vstd::std_specs::btree::group_btree_axioms};

        proof {
            self.lemma_tick_at(cid);
            assert(conn_ok(self.conns@[cid], cid, self.next_job_id, self.tubes@, self.jv()));
        }
        match self.conns.get(&cid) {
            Some(c) => {
                let r = first_pair(&c.reserved_by_deadline);
                assert(r is Some ==> reserved_set(self.jv(), cid).contains(r->0));
                r
            },
            None => None,
        }
    }

    /// Takes from connection `cid` every job whose reservation has run out.
    fn expire_reservations(&mut self, cid: ConnId, now: Nanos, out: &mut Outbox)
        requires
            old(self).wf(),
            now <= MAX_NOW,
            old(self)@.conns.contains_key(cid),
        ensures
            final(self).host() == old(self).host(),
            final(self).wf(),
            (final(self)@, sent(final(out)@)) == old(self)@.expire(cid, now, sent(old(out)@)),
            same_refs(old(self)@, final(self)@),
            quiet(old(self)@) ==> quiet(final(self)@),
            eased(old(self)@, final(self)@, now),
            forall|id: JobId| #[trigger]
                final(self)@.holds(cid, id) ==> final(self)@.jobs[id].deadline_at >= now,
            !final(self)@.deadline_soon(cid, now) ==> forall|id: JobId| #[trigger]
                final(self)@.holds(cid, id) ==> final(self)@.jobs[id].deadline_at > now
                    + SAFETY_MARGIN,
    {
        broadcast use {crate::ordset::group_ordered, vstd::std_specs::btree::group_btree_axioms};

        loop
            invariant
                self.host() == old(self).host(),
                self.wf(),
                now <= MAX_NOW,
                self@.conns.contains_key(cid),
                self@.expire(cid, now, sent(out@)) == old(self)@.expire(cid, now, sent(old(out)@)),
                same_refs(old(self)@, self@),
                quiet(old(self)@) ==> quiet(self@),
                eased(old(self)@, self@, now),
            ensures
                self.wf(),
                (self@, sent(out@)) == old(self)@.expire(cid, now, sent(old(out)@)),
                same_refs(old(self)@, self@),
                quiet(old(self)@) ==> quiet(self@),
                eased(old(self)@, self@, now),
                self@.soonest_reserved(cid) is Some ==> (self@.soonest_reserved(cid)->0).0 >= now,
            decreases count_jobs(self@.jobs, JobSel::Overdue(now)),
        {
            let ghost before = self@;
            match self.soonest_reservation(cid) {
                None => {
                    break;
                },
                Some(p) => {
                    if p.0 >= now {
                        break;
                    }
                    proof {
                        assert(self.jobs@.dom().finite());
                        assert(before.jobs.dom() =~= self.jobs@.dom());
                        assert(self.jv().contains_key(p.1));
                    }
                    self.time_out(p.1);
                    let ghost freed = self@;
                    proof {
                        let m = Model { timeout_ct: bump(before.timeout_ct), ..before };
                        lemma_made_ready(m, self@.jobs[p.1], now);
                        assert(eased(before, m, now));
                        lemma_eased(before, m, freed, now);
                        lemma_jobs_remove(before.jobs, p.1, JobSel::Overdue(now));
                        lemma_jobs_insert(
                            before.jobs.remove(p.1),
                            p.1,
                            self@.jobs[p.1],
                            JobSel::Overdue(now),
                        );
                        assert(self@.jobs == before.jobs.remove(p.1).insert(
                            p.1,
                            self@.jobs[p.1],
                        ));
                    }
                    self.process_queue(now, out);
                    proof {
                        lemma_eased(before, freed, self@, now);
                        lemma_eased(old(self)@, before, self@, now);
                    }
                },
            }
        }
        proof {
            assert(self.jobs@.dom().finite());
            assert(self@.jobs.dom() =~= self.jobs@.dom());
            lemma_none_overdue(self@, cid, now);
        }
    }

    /// Leaving those that wait makes no job awaited.
    pub(super) proof fn lemma_still_quiet(m: Model, c: ConnId)
        requires
            quiet(m),
        ensures
            quiet(m.stop_waiting(c)),
            m.conns.contains_key(c) ==> same_refs(m, m.stop_waiting(c)),
    {
        let n = m.stop_waiting(c);
        assert forall|id: JobId| !n.awaited(id) by {
            if n.awaited(id) {
                assert(!m.awaited(id));
            }
        }
        if m.conns.contains_key(c) {
            assert(m.conns.dom() =~= n.conns.dom());
        }
    }

    /// Takes from connection `cid` every job whose reservation has run out;
    /// then, if it is (still) waiting, tells it that a deadline is near or that
    /// its wait is over.
    fn conn_timeout(&mut self, cid: ConnId, now: Nanos, out: &mut Outbox)
        requires
            old(self).wf(),
            now <= MAX_NOW,
            old(self)@.conns.contains_key(cid),
            quiet(old(self)@),
        ensures
            final(self).host() == old(self).host(),
            final(self).wf(),
            (final(self)@, sent(final(out)@)) == old(self)@.attend(cid, now, sent(old(out)@)),
            same_refs(old(self)@, final(self)@),
            quiet(final(self)@),
            eased(old(self)@, final(self)@, now),
            calm(final(self)@, cid, now),
    {
        broadcast use {crate::ordset::group_ordered, vstd::std_specs::btree::group_btree_axioms};

        self.expire_reservations(cid, now, out);
        let ghost mid = self@;
        let ghost sent_mid = sent(out@);
        let (waiting, wait_deadline) = match self.conns.get(&cid) {
            Some(c) => (c.waiting, c.wait_deadline),
            None => (false, None),
        };
        proof {
            assert(self@.conns[cid] == self.conns@[cid]@);
            lemma_stopped(mid, cid, now);
            lemma_eased(old(self)@, mid, mid.stop_waiting(cid), now);
        }
        if !waiting {
            return;
        }
        if self.conn_deadline_soon(cid, now) {
            self.do_remove_waiting_conn(cid);
            out.push((cid, Response::DeadlineSoon));
            proof {
                assert(sent(out@) =~= sent_mid.push((cid, ResponseView::DeadlineSoon)));
                Self::lemma_still_quiet(mid, cid);
            }
        } else if let Some(wd) = wait_deadline {
            if wd <= now {
                self.do_remove_waiting_conn(cid);
                out.push((cid, Response::TimedOut));
                proof {
                    assert(sent(out@) =~= sent_mid.push((cid, ResponseView::TimedOut)));
                    Self::lemma_still_quiet(mid, cid);
                }
            }
        }
    }

    /// Where no connection outside `done` is due, all of those are calm.
    proof fn lemma_none_due(self, done: Set<ConnId>, now: Nanos)
        requires
            self.wf(),
            least(self@.due_conns(done, now)) is None,
        ensures
            forall|c: ConnId| #[trigger]
                self@.conns.contains_key(c) && !done.contains(c) ==> calm(self@, c, now),
    {
        let m = self@;
        let due = m.due_conns(done, now);
        assert(self.jobs@.dom().finite());
        assert(m.jobs.dom() =~= self.jobs@.dom());
        lemma_finite(&self.conn_ticks);
        assert(due.subset_of(self.conn_ticks@)) by {
            assert forall|p: (Nanos, ConnId)| due.contains(p) implies self.conn_ticks@.contains(
                p,
            ) by {
                self.lemma_tick_at(p.1);
            }
        }
        vstd::set_lib::lemma_len_subset(due, self.conn_ticks@);
        assert forall|c: ConnId| #[trigger]
            m.conns.contains_key(c) && !done.contains(c) implies calm(m, c, now) by {
            if m.tick_at(c) is Some && m.tick_at(c)->0 <= now {
                assert(due.contains((m.tick_at(c)->0, c)));
                lemma_least_exists(due);
            }
            lemma_not_due(m, c, now);
        }
    }

    /// Attends to every connection that needs it.
    fn attend_conns(&mut self, now: Nanos, out: &mut Outbox)
        requires
            old(self).wf(),
            now <= MAX_NOW,
            quiet(old(self)@),
        ensures
            final(self).host() == old(self).host(),
            final(self).wf(),
            (final(self)@, sent(final(out)@)) == old(self)@.attend_all(
                Set::empty(),
                now,
                sent(old(out)@),
            ),
            same_refs(old(self)@, final(self)@),
            quiet(final(self)@),
            eased(old(self)@, final(self)@, now),
            forall|c: ConnId| #[trigger]
                final(self)@.conns.contains_key(c) ==> calm(final(self)@, c, now),
    {
        broadcast use {crate::ordset::group_ordered, vstd::std_specs::btree::group_btree_axioms};

        let mut done: BTreeSet<ConnId> = BTreeSet::new();
        loop
            invariant
                self.host() == old(self).host(),
                self.wf(),
                now <= MAX_NOW,
                quiet(self@),
                self@.attend_all(done@, now, sent(out@)) == old(self)@.attend_all(
                    Set::empty(),
                    now,
                    sent(old(out)@),
                ),
                same_refs(old(self)@, self@),
                eased(old(self)@, self@, now),
                forall|c: ConnId| #[trigger]
                    self@.conns.contains_key(c) && done@.contains(c) ==> calm(self@, c, now),
            ensures
                self.wf(),
                quiet(self@),
                (self@, sent(out@)) == old(self)@.attend_all(Set::empty(), now, sent(old(out)@)),
                same_refs(old(self)@, self@),
                eased(old(self)@, self@, now),
                forall|c: ConnId| #[trigger] self@.conns.contains_key(c) ==> calm(self@, c, now),
            decreases self@.conns.dom().difference(done@).len(),
        {
            let ghost before = self@;
            let ghost done_before = done@;
            match self.next_due(&done, now) {
                None => {
                    proof {
                        self.lemma_none_due(done@, now);
                    }
                    break;
                },
                Some(cid) => {
                    let _ = done.insert(cid);
                    proof {
                        assert(self.conns@.dom().finite());
                        assert(before.conns.dom() =~= self.conns@.dom());
                        let a = before.conns.dom().difference(done_before);
                        let b = before.conns.dom().difference(done@);
                        assert(b =~= a.remove(cid));
                        assert(a.contains(cid));
                        assert(a.finite());
                    }
                    self.conn_timeout(cid, now, out);
                    proof {
                        lemma_eased(old(self)@, before, self@, now);
                        assert forall|c: ConnId| #[trigger]
                            self@.conns.contains_key(c) && done@.contains(c) implies calm(
                            self@,
                            c,
                            now,
                        ) by {
                            if c != cid {
                                assert(before.conns.contains_key(c));
                                lemma_calm(before, self@, c, now);
                            }
                        }
                    }
                },
            }
        }
    }

    /// Makes the delayed job `id` ready, then hands out jobs.
    fn release_one(&mut self, id: JobId, now: Nanos, out: &mut Outbox)
        requires
            old(self).wf(),
            now <= MAX_NOW,
            old(self)@.is_delayed(id),
        ensures
            final(self).host() == old(self).host(),
            final(self).wf(),
            (final(self)@, sent(final(out)@)) == old(self)@.readying(id).process_queue(
                now,
                sent(old(out)@),
            ),
            same_refs(old(self)@, final(self)@),
            quiet(final(self)@),
            count_jobs(final(self)@.jobs, JobSel::Delayed) < count_jobs(
                old(self)@.jobs,
                JobSel::Delayed,
            ),
    {
        broadcast use {crate::ordset::group_ordered, vstd::std_specs::btree::group_btree_axioms};

        let ghost before = self@;
        proof {
            assert(self.jobs@.dom().finite());
            assert(before.jobs.dom() =~= self.jobs@.dom());
            assert(self.jv().contains_key(id));
        }
        self.make_ready(id);
        proof {
            lemma_jobs_remove(before.jobs, id, JobSel::Delayed);
            lemma_jobs_insert(before.jobs.remove(id), id, self@.jobs[id], JobSel::Delayed);
            assert(self@.jobs == before.jobs.remove(id).insert(id, self@.jobs[id]));
        }
        self.process_queue(now, out);
    }

    /// Makes every delayed job ready whose deadline has passed.
    fn release_delayed(&mut self, now: Nanos, out: &mut Outbox)
        requires
            old(self).wf(),
            now <= MAX_NOW,
        ensures
            final(self).host() == old(self).host(),
            final(self).wf(),
            (final(self)@, sent(final(out)@)) == old(self)@.release_due(now, sent(old(out)@)),
            same_refs(old(self)@, final(self)@),
            quiet(old(self)@) ==> quiet(final(self)@),
            forall|id: JobId| #[trigger]
                final(self)@.is_delayed(id) ==> final(self)@.jobs[id].deadline_at > now,
    {
        broadcast use {crate::ordset::group_ordered, vstd::std_specs::btree::group_btree_axioms};

        loop
            invariant
                self.host() == old(self).host(),
                self.wf(),
                now <= MAX_NOW,
                self@.release_due(now, sent(out@)) == old(self)@.release_due(now, sent(old(out)@)),
                same_refs(old(self)@, self@),
                quiet(old(self)@) ==> quiet(self@),
            ensures
                self.wf(),
                (self@, sent(out@)) == old(self)@.release_due(now, sent(old(out)@)),
                same_refs(old(self)@, self@),
                quiet(old(self)@) ==> quiet(self@),
                forall|id: JobId| #[trigger]
                    self@.is_delayed(id) ==> self@.jobs[id].deadline_at > now,
            decreases count_jobs(self@.jobs, JobSel::Delayed),
        {
            let ghost before = self@;
            match self.soonest_delayed_job() {
                None => {
                    break;
                },
                Some((deadline, tube, id)) => {
                    if deadline > now {
                        break;
                    }
                    self.release_one(id, now, out);
                },
            }
        }
    }

    /// Does everything that is due by `now`: delayed jobs become ready, pauses
    /// end, reservations and waits run out.
    pub(super) fn run_tick(&mut self, now: Nanos, out: &mut Outbox)
        requires
            old(self).wf(),
            now <= MAX_NOW,
            quiet(old(self)@),
        ensures
            final(self).host() == old(self).host(),
            final(self).wf(),
            (final(self)@, sent(final(out)@)) == old(self)@.tick(now, sent(old(out)@)),
            same_refs(old(self)@, final(self)@),
            quiet(final(self)@),
            rested(final(self)@, now),
    {
        proof {
            assert(self.jobs@.dom().finite());
            assert(self@.jobs.dom() =~= self.jobs@.dom());
        }
        // Nothing is due before the earliest indexed deadline. This is the
        // common case: the server ticks after every message.
        match self.next_deadline() {
            Some(d) => {
                if d > now {
                    proof {
                        nothing_due_nothing_done(self@, now, sent(out@));
                        lemma_nothing_due_rests(self@, now);
                    }
                    return;
                }
            },
            None => {
                proof {
                    nothing_due_nothing_done(self@, now, sent(out@));
                        lemma_nothing_due_rests(self@, now);
                }
                return;
            },
        }
        self.release_delayed(now, out);
        let ghost released = self@;
        let expired = match first_time(&self.pauses) {
            Some(p) => p.0 <= now,
            None => false,
        };
        proof {
            self.lemma_pause_expired(now, expired);
        }
        if expired {
            self.process_queue(now, out);
        }
        let ghost unpaused = self@;
        assert(forall|id: JobId| #[trigger]
            unpaused.is_delayed(id) ==> unpaused.jobs[id].deadline_at > now);
        self.attend_conns(now, out);
        assert(!self@.pause_expired(now)) by {
            assert forall|t: TubeId| #[trigger] self@.live(t) && self@.tube(t).pause > 0 implies
                self@.tube(t).unpause_at > now by {
                assert(unpaused.live(t));
            }
        }
    }

    /// Whether a pause has expired can be read off the index.
    proof fn lemma_pause_expired(self, now: Nanos, expired: bool)
        requires
            self.wf(),
            expired ==> exists|p: (Nanos, TubeId)| #[trigger]
                self.pauses@.contains(p) && p.0 <= now,
            !expired ==> forall|p: (Nanos, TubeId)| #[trigger] self.pauses@.contains(p) ==> p.0 > now,
        ensures
            expired == self@.pause_expired(now),
    {
        if expired {
            let p = choose|p: (Nanos, TubeId)| #[trigger]
                self.pauses@.contains(p) && p.0 <= now;
            assert(live(self.tubes@, p.1));
            assert(self@.live(p.1));
        } else {
            assert forall|t: TubeId| #[trigger] self@.live(t) && self@.tube(t).pause > 0 implies self@.tube(
                t,
            ).unpause_at > now by {
                assert(live(self.tubes@, t));
                assert(self.pauses@.contains((self@.tube(t).unpause_at, t)));
            }
        }
    }
}

} // verus!
