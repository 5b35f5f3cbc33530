//! Handing out jobs, and everything that time brings about.

use super::Engine;
use crate::answers::{handed, lemma_handed_on, lemma_none_handed, lemma_one_handed};
use crate::api::{sent, ConnId, Nanos, Outbox, MAX_NOW, NANOS_PER_SEC};
use crate::buf::bytes_clone;
use crate::inv::{
    at, conn_ok, default_ok, dispatchable_of, heads_of, job_ok, lemma_jobs_insert,
    lemma_jobs_remove, live, names_ok, order_ok, pauses_of, tube_ok,
};
use crate::model::{JobRec, JobState, TubeId, TubeStat, TubeState};
use crate::ordset::{first_ready, first_time, items, lemma_finite};
use crate::proto::{JobId, Response, ResponseView};
use crate::resting::{eased, lemma_eased, lemma_handed, lemma_unpaused};
use crate::rules::{bump, bump32, count_jobs, ready_set, JobSel, Model};
use crate::settle::{idle_untouched, quiet, same_refs};
use vstd::prelude::*;

verus! {

impl Engine {
    /// All is well after something of tube `t` has changed that neither its
    /// jobs nor the connections decide.
    pub(super) proof fn lemma_tube_noted(self, old: Engine, t: TubeId)
        requires
            old.wf(),
            self == (Engine { tubes: self.tubes, pauses: self.pauses, ..old }),
            live(old.tubes@, t),
            self.tubes@ == old.tubes@.update(t as int, Some(at(self.tubes@, t))),
            at(self.tubes@, t) == (TubeState {
                pause: at(self.tubes@, t).pause,
                unpause_at: at(self.tubes@, t).unpause_at,
                stat: TubeStat {
                    pause_ct: at(self.tubes@, t).stat.pause_ct,
                    total_delete_ct: at(self.tubes@, t).stat.total_delete_ct,
                    total_jobs_ct: at(self.tubes@, t).stat.total_jobs_ct,
                    ..at(old.tubes@, t).stat
                },
                ..at(old.tubes@, t)
            }),
            self.pauses@ == pauses_of(self.tubes@),
        ensures
            self.wf(),
    {
        assert forall|u: TubeId|
            #![trigger live(self.tubes@, u)]
            #![trigger live(old.tubes@, u)]
            live(self.tubes@, u) == live(old.tubes@, u) by {}
        assert forall|u: TubeId| #[trigger] live(self.tubes@, u) implies tube_ok(
            at(self.tubes@, u),
            u,
            self.jv(),
            self.cv(),
        ) by {
            assert(live(old.tubes@, u));
            assert(tube_ok(at(old.tubes@, u), u, old.jv(), old.cv()));
        }
        assert forall|id: JobId| #[trigger] self.jv().contains_key(id) implies job_ok(
            self.jv()[id],
            id,
            self.next_job_id,
            self.tubes@,
            self.cv(),
        ) by {
            assert(old.jv().contains_key(id));
            assert(live(old.tubes@, old.jv()[id].tube));
        }
        assert forall|c: ConnId| #[trigger] self.conns@.contains_key(c) implies conn_ok(
            self.conns@[c],
            c,
            self.next_job_id,
            self.tubes@,
            self.jv(),
        ) by {
            assert(old.conns@.contains_key(c));
            let y = old.conns@[c];
            assert(live(old.tubes@, y.use_tube));
            assert forall|i: int| 0 <= i < y.watch@.items.len() implies live(
                self.tubes@,
                #[trigger] y.watch@.items[i],
            ) by {
                assert(live(old.tubes@, y.watch@.items[i]));
            }
        }
        assert(default_ok(self.tubes@)) by {
            assert(live(old.tubes@, 0));
        }
        assert(order_ok(self.tubes@, self.tube_order@.items)) by {
            assert forall|i: int| 0 <= i < self.tube_order@.items.len() implies live(
                self.tubes@,
                #[trigger] self.tube_order@.items[i],
            ) && at(self.tubes@, self.tube_order@.items[i]).pos == i by {
                assert(live(old.tubes@, old.tube_order@.items[i]));
            }
        }
        assert(names_ok(self.tubes@, self.tube_ids@)) by {
            let n = self.tube_ids@;
            assert forall|i: int| 0 <= i < n.len() implies live(self.tubes@, (#[trigger] n[i]).1)
                && at(self.tubes@, n[i].1).name@ == n[i].0@ by {
                assert(live(old.tubes@, n[i].1));
            }
            assert forall|t: TubeId| #[trigger] live(self.tubes@, t) implies exists|i: int|
                0 <= i < n.len() && (#[trigger] n[i]).1 == t by {
                assert(live(old.tubes@, t));
            }
        }
        assert(self.delay_heads@ =~= heads_of(self.tubes@));
        assert(self.dispatchable@ =~= dispatchable_of(self.tubes@));
    }

    /// Lifts every pause that has expired by `now`.
    pub(super) fn clear_expired_pauses(&mut self, now: Nanos)
        requires
            old(self).wf(),
        ensures
            final(self).host() == old(self).host(),
            final(self).wf(),
            final(self)@ == old(self)@.unpaused(now),
            forall|t: TubeId| #[trigger]
                live(final(self).tubes@, t) ==> at(final(self).tubes@, t).pause == 0 || at(
                    final(self).tubes@,
                    t,
                ).unpause_at > now,
    {
        broadcast use {crate::ordset::group_ordered, vstd::std_specs::btree::group_btree_axioms};

        loop
            invariant
                self.host() == old(self).host(),
                self.wf(),
                self@.unpaused(now) == old(self)@.unpaused(now),
            ensures
                self.wf(),
                self@ == old(self)@.unpaused(now),
                forall|t: TubeId| #[trigger]
                    live(self.tubes@, t) ==> at(self.tubes@, t).pause == 0 || at(
                        self.tubes@,
                        t,
                    ).unpause_at > now,
            decreases self.pauses@.len(),
        {
            let head = first_time(&self.pauses);
            let ghost before = *self;
            match head {
                Some(p) => {
                    if p.0 > now {
                        proof {
                            assert forall|t: TubeId| #[trigger] live(self.tubes@, t) implies at(
                                self.tubes@,
                                t,
                            ).pause == 0 || at(self.tubes@, t).unpause_at > now by {
                                if at(self.tubes@, t).pause > 0 {
                                    assert(self.pauses@.contains((at(self.tubes@, t).unpause_at, t)));
                                }
                            }
                            self.lemma_none_expired(now);
                        }
                        break;
                    }
                    proof {
                        lemma_finite(&self.pauses);
                    }
                    let _ = self.pauses.remove(&p);
                    assert(live(self.tubes@, p.1));
                    if let Some(t) = &mut self.tubes[p.1] {
                        t.pause = 0;
                    }
                    proof {
                        assert(self.pauses@ =~= pauses_of(self.tubes@));
                        self.lemma_tube_noted(before, p.1);
                        assert(self@.unpaused(now).tubes =~= before@.unpaused(now).tubes);
                    }
                },
                None => {
                    proof {
                        assert forall|t: TubeId| #[trigger] live(self.tubes@, t) implies at(
                            self.tubes@,
                            t,
                        ).pause == 0 || at(self.tubes@, t).unpause_at > now by {
                            if at(self.tubes@, t).pause > 0 {
                                assert(self.pauses@.contains((at(self.tubes@, t).unpause_at, t)));
                            }
                        }
                        self.lemma_none_expired(now);
                    }
                    break;
                },
            }
        }
    }

    /// With no pause expired, lifting expired pauses changes nothing.
    proof fn lemma_none_expired(self, now: Nanos)
        requires
            forall|t: TubeId| #[trigger]
                live(self.tubes@, t) ==> at(self.tubes@, t).pause == 0 || at(
                    self.tubes@,
                    t,
                ).unpause_at > now,
        ensures
            self@.unpaused(now) == self@,
    {
        assert forall|t: int| 0 <= t < self@.tubes.len() implies self@.unpaused(now).tubes[t]
            == self@.tubes[t] by {
            assert(self.tubes.len() == self.tubes@.len());
            if live(self.tubes@, t as usize) {
            }
        }
        assert(self@.unpaused(now).tubes =~= self@.tubes);
    }

    /// The job to hand out next, with its tube. Only tubes that are
    /// dispatchable can match.
    fn best_awaited(&self) -> (r: Option<(JobId, TubeId)>)
        requires
            self.wf(),
        ensures
            match r {
                Some(p) => self@.is_next_awaited(p.0) && self@.next_awaited() == Some(p.0)
                    && self@.jobs[p.0].tube == p.1 && self@.live(p.1),
                None => self@.next_awaited() is None && forall|id: JobId| !self@.awaited(id),
            },
    {
        broadcast use {crate::ordset::group_ordered, vstd::std_specs::btree::group_btree_axioms};

        let tids: Vec<TubeId> = items(&self.dispatchable);
        let n: usize = tids.len();
        let mut i: usize = 0;
        let mut best: Option<(u32, JobId, TubeId)> = None;
        while i < n
            invariant
                i <= n,
                n == tids@.len(),
                self.wf(),
                tids@.to_set() == self.dispatchable@,
                match best {
                    Some(b) => {
                        &&& self@.awaited(b.1)
                        &&& self@.jobs[b.1].pri == b.0
                        &&& self@.jobs[b.1].tube == b.2
                        &&& self@.live(b.2)
                        &&& forall|id: JobId, k: int|
                            0 <= k < i && #[trigger] self@.awaited(id) && self@.jobs[id].tube
                                == #[trigger] tids@[k] ==> self@.before(b.1, id)
                    },
                    None => forall|id: JobId, k: int|
                        0 <= k < i && #[trigger] self@.awaited(id) ==> self@.jobs[id].tube
                            != #[trigger] tids@[k],
                },
            decreases n - i,
        {
            let tid: TubeId = tids[i];
            proof {
                assert(tids@.to_set().contains(tids@[i as int]));
                assert(live(self.tubes@, tid));
                assert(tube_ok(at(self.tubes@, tid), tid, self.jv(), self.cv()));
                assert(self@.live(tid));
                assert(self@.tube(tid) == at(self.tubes@, tid)@);
            }
            if let Some(t) = &self.tubes[tid] {
                if t.pause == 0 {
                    if let Some(p) = first_ready(&t.ready) {
                        assert(ready_set(self.jv(), tid).contains(p));
                        assert(self@.awaited(p.1));
                        assert forall|id: JobId| #[trigger] self@.awaited(id) && self@.jobs[id].tube
                            == tid implies self@.before(p.1, id) by {
                            assert(t.ready@.contains((self@.jobs[id].pri, id)));
                        }
                        let better = match best {
                            Some(b) => p.0 < b.0 || (p.0 == b.0 && p.1 < b.1),
                            None => true,
                        };
                        if better {
                            best = Some((p.0, p.1, tid));
                        }
                    }
                }
            }
            i = i + 1;
        }
        proof {
            assert forall|id: JobId| #[trigger] self@.awaited(id) implies exists|k: int|
                0 <= k < n && self@.jobs[id].tube == #[trigger] tids@[k] by {
                assert(self.jv().contains_key(id));
                let t = self@.jobs[id].tube;
                assert(live(self.tubes@, t));
                let x = at(self.tubes@, t);
                assert(tube_ok(x, t, self.jv(), self.cv()));
                assert(x.ready@.contains((self@.jobs[id].pri, id)));
                assert(x.dispatchable);
                assert(self.dispatchable@.contains(t));
                assert(tids@.to_set().contains(t));
                let k = tids@.index_of(t);
                assert(tids@[k] == t);
            }
            match best {
                Some(b) => {
                    assert(self@.is_next_awaited(b.1));
                    lemma_next_awaited(self@, b.1);
                },
                None => {
                    assert forall|id: JobId| !self@.awaited(id) by {
                        if self@.awaited(id) {
                            let k = choose|k: int|
                                0 <= k < n && self@.jobs[id].tube == #[trigger] tids@[k];
                            assert(self@.jobs[id].tube != tids@[k]);
                        }
                    }
                },
            }
        }
        match best {
            Some(b) => Some((b.1, b.2)),
            None => None,
        }
    }

    /// Hands out jobs, each time the best ready job to a connection that
    /// waits on its tube, until no more can be handed out. Expired pauses are
    /// lifted first.
    pub(super) fn process_queue(&mut self, now: Nanos, out: &mut Outbox)
        requires
            old(self).wf(),
            now <= MAX_NOW,
        ensures
            final(self).host() == old(self).host(),
            final(self).wf(),
            (final(self)@, sent(final(out)@)) == old(self)@.process_queue(now, sent(old(out)@)),
            quiet(final(self)@),
            same_refs(old(self)@, final(self)@),
            idle_untouched(old(self)@, final(self)@),
            eased(old(self)@, final(self)@, now),
            handed(old(self)@, sent(old(out)@), final(self)@, sent(final(out)@)),
            !final(self)@.pause_expired(now),
            count_jobs(final(self)@.jobs, JobSel::Delayed) == count_jobs(
                old(self)@.jobs,
                JobSel::Delayed,
            ),
            count_jobs(final(self)@.jobs, JobSel::Overdue(now)) == count_jobs(
                old(self)@.jobs,
                JobSel::Overdue(now),
            ),
    {
        broadcast use {crate::ordset::group_ordered, vstd::std_specs::btree::group_btree_axioms};

        self.clear_expired_pauses(now);
        proof {
            lemma_unpaused(old(self)@, now);
            lemma_none_handed(old(self)@, self@, sent(out@));
            assert forall|t: TubeId| #[trigger] self@.live(t) && self@.tube(t).pause > 0 implies
                self@.tube(t).unpause_at > now by {
                assert(live(self.tubes@, t));
            }
        }
        loop
            invariant
                self.host() == old(self).host(),
                self.wf(),
                now <= MAX_NOW,
                self@.dispatch(now, sent(out@)) == old(self)@.process_queue(now, sent(old(out)@)),
                same_refs(old(self)@, self@),
                idle_untouched(old(self)@, self@),
                eased(old(self)@, self@, now),
                handed(old(self)@, sent(old(out)@), self@, sent(out@)),
                !self@.pause_expired(now),
                count_jobs(self@.jobs, JobSel::Delayed) == count_jobs(
                    old(self)@.jobs,
                    JobSel::Delayed,
                ),
                count_jobs(self@.jobs, JobSel::Overdue(now)) == count_jobs(
                    old(self)@.jobs,
                    JobSel::Overdue(now),
                ),
            ensures
                self.wf(),
                (self@, sent(out@)) == old(self)@.process_queue(now, sent(old(out)@)),
                quiet(self@),
                same_refs(old(self)@, self@),
                idle_untouched(old(self)@, self@),
                eased(old(self)@, self@, now),
                handed(old(self)@, sent(old(out)@), self@, sent(out@)),
                !self@.pause_expired(now),
                count_jobs(self@.jobs, JobSel::Delayed) == count_jobs(
                    old(self)@.jobs,
                    JobSel::Delayed,
                ),
                count_jobs(self@.jobs, JobSel::Overdue(now)) == count_jobs(
                    old(self)@.jobs,
                    JobSel::Overdue(now),
                ),
            decreases count_jobs(self@.jobs, JobSel::Ready),
        {
            let ghost before = self@;
            let ghost sent_before = sent(out@);
            match self.best_awaited() {
                None => {
                    break;
                },
                Some((id, tid)) => {
                    self.hand_over(id, tid, now, out);
                    proof {
                        lemma_eased(old(self)@, before, self@, now);
                        lemma_handed_on(
                            old(self)@,
                            sent(old(out)@),
                            before,
                            sent_before,
                            self@,
                            sent(out@),
                        );
                        assert forall|t: TubeId| #[trigger] self@.live(t) && self@.tube(t).pause
                            > 0 implies self@.tube(t).unpause_at > now by {
                            assert(before.live(t));
                        }
                    }
                },
            }
        }
    }

    /// Hands job `id` of tube `tid` to the connection whose turn it is there.
    fn hand_over(&mut self, id: JobId, tid: TubeId, now: Nanos, out: &mut Outbox)
        requires
            old(self).wf(),
            now <= MAX_NOW,
            old(self)@.awaited(id),
            old(self)@.jobs[id].tube == tid,
            old(self)@.live(tid),
        ensures
            final(self).host() == old(self).host(),
            final(self).wf(),
            final(self)@ == old(self)@.handing_over(id, now),
            sent(final(out)@) == sent(old(out)@).push(
                (
                    old(self)@.next_waiter(tid),
                    ResponseView::Reserved { id, body: old(self)@.jobs[id].body },
                ),
            ),
            same_refs(old(self)@, final(self)@),
            idle_untouched(old(self)@, final(self)@),
            eased(old(self)@, final(self)@, now),
            handed(old(self)@, sent(old(out)@), final(self)@, sent(final(out)@)),
            count_jobs(final(self)@.jobs, JobSel::Ready) < count_jobs(
                old(self)@.jobs,
                JobSel::Ready,
            ),
            count_jobs(final(self)@.jobs, JobSel::Delayed) == count_jobs(
                old(self)@.jobs,
                JobSel::Delayed,
            ),
            count_jobs(final(self)@.jobs, JobSel::Overdue(now)) == count_jobs(
                old(self)@.jobs,
                JobSel::Overdue(now),
            ),
    {
        broadcast use {crate::ordset::group_ordered, vstd::std_specs::btree::group_btree_axioms};

        proof {
            assert(self.jobs@.dom().finite());
            assert(self@.jobs.dom() =~= self.jobs@.dom());
            assert(self.jv().contains_key(id));
        }
        assert(live(self.tubes@, tid));
        assert(tube_ok(at(self.tubes@, tid), tid, self.jv(), self.cv()));
        let ghost w = self@.tube(tid).waiting;
        assert(w.items.contains(w.items[w.cursor()]));
        let cid: ConnId = self.take_turn(tid);
        let mut j: JobRec = self.take_job(id);
        j.state = JobState::Reserved;
        j.reserver = Some(cid);
        j.deadline_at = now + (j.ttr as u64) * NANOS_PER_SEC;
        j.reserve_ct = bump_u32(j.reserve_ct);
        let body = bytes_clone(&j.body);
        self.put_job(j);
        out.push((cid, Response::Reserved { id, body }));
        proof {
            assert(self@ == old(self)@.handing_over(id, now));
            lemma_handing_over(old(self)@, id, now);
            lemma_handed(old(self)@, id, now);
            let reply = (cid, ResponseView::Reserved { id, body: old(self)@.jobs[id].body });
            assert(sent(out@) =~= sent(old(out)@).push(reply));
            lemma_one_handed(old(self)@, id, now, sent(old(out)@), reply);
        }
    }
}

/// Handing a job over changes one job and who waits, nothing else.
proof fn lemma_handing_over(m: Model, id: JobId, now: Nanos)
    requires
        m.jobs.dom().finite(),
        m.awaited(id),
        m.jobs[id].id == id,
        m.jobs[id].ttr >= 1,
        m.live(m.jobs[id].tube),
        m.conns.contains_key(m.next_waiter(m.jobs[id].tube)),
        m.conns[m.next_waiter(m.jobs[id].tube)].waiting,
        now <= MAX_NOW,
    ensures
        same_refs(m, m.handing_over(id, now)),
        idle_untouched(m, m.handing_over(id, now)),
        count_jobs(m.handing_over(id, now).jobs, JobSel::Ready) < count_jobs(
            m.jobs,
            JobSel::Ready,
        ),
        count_jobs(m.handing_over(id, now).jobs, JobSel::Delayed) == count_jobs(
            m.jobs,
            JobSel::Delayed,
        ),
        count_jobs(m.handing_over(id, now).jobs, JobSel::Overdue(now)) == count_jobs(
            m.jobs,
            JobSel::Overdue(now),
        ),
{
    let n = m.handing_over(id, now);
    let j = n.jobs[id];
    let rest = m.jobs.remove(id);
    assert(n.jobs == rest.insert(id, j));
    assert(j.deadline_at > now) by (nonlinear_arith)
        requires
            j.deadline_at == (now + m.jobs[id].ttr * 1_000_000_000) as u64,
            m.jobs[id].ttr >= 1,
            m.jobs[id].ttr <= u32::MAX,
            now <= 14_151_776_778_709_551_615,
    ;
    lemma_jobs_remove(m.jobs, id, JobSel::Ready);
    lemma_jobs_remove(m.jobs, id, JobSel::Delayed);
    lemma_jobs_remove(m.jobs, id, JobSel::Overdue(now));
    lemma_jobs_insert(rest, id, j, JobSel::Ready);
    lemma_jobs_insert(rest, id, j, JobSel::Delayed);
    lemma_jobs_insert(rest, id, j, JobSel::Overdue(now));
    assert(m.conns.dom() =~= n.conns.dom());
    assert(m.jobs.dom() =~= n.jobs.dom());
}

/// One more; a counter that is full starts again at 0.
pub(super) fn bump_u32(n: u32) -> (r: u32)
    ensures
        r == bump32(n),
{
    if n == u32::MAX {
        0
    } else {
        n + 1
    }
}

/// One more; a counter that is full starts again at 0.
pub(super) fn bump_u64(n: u64) -> (r: u64)
    ensures
        r == bump(n),
{
    if n == u64::MAX {
        0
    } else {
        n + 1
    }
}

/// At most one job is next.
proof fn lemma_next_awaited(m: Model, id: JobId)
    requires
        m.is_next_awaited(id),
    ensures
        m.next_awaited() == Some(id),
{
    let o = choose|o: JobId| m.is_next_awaited(o);
    assert(m.is_next_awaited(o));
    assert(m.awaited(o) && m.awaited(id));
    assert(m.before(o, id) && m.before(id, o));
}

} // verus!
