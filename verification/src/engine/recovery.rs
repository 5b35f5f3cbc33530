//! Making an engine of what the log holds.

use super::tubes::name_position;
use super::{Engine, Held};
use crate::api::{
    recovered_view, ConnId, EngineConfig, Nanos, RecordState, RecoveredJob, RecoveredView,
    Recovery, SysInfo, SysSnapshot,
};
use crate::buf::bytes_clone;
use crate::inv::{at, lemma_jobs_none, live, tube_ok};
use crate::model::{ConnView, JobRec, JobState, JobView, TubeId};
use crate::proto::{JobId, TubeName};
use crate::rules::{JobSel, Model};
use crate::settle::{anchored, quiet, settled, watching};
use crate::stats::names_view;
use crate::steps::{distinct_ids, holds_some, next_after, recovered_job};
use crate::text::{bytes_lt, bytes_lt_is_a_strict_order};
use vstd::prelude::*;

verus! {

/// Whether the names ascend, and are those of the tubes that hold `jobs`.
spec fn wanted_by(names: Seq<(TubeName, TubeId)>, jobs: Seq<RecoveredView>) -> bool {
    &&& forall|i: int, j: int|
        #![trigger names[i], names[j]]
        0 <= i < j < names.len() ==> bytes_lt(names[i].0@, names[j].0@)
    &&& forall|i: int| 0 <= i < names.len() ==> holds_some(jobs, (#[trigger] names[i]).0@)
    &&& forall|k: int|
        0 <= k < jobs.len() ==> exists|i: int|
            0 <= i < names.len() && (#[trigger] names[i]).0@ == (#[trigger] jobs[k]).tube
}

/// Whether `name` is among ascending names, and where it would stand.
fn among(names: &Vec<(TubeName, TubeId)>, name: &TubeName) -> (r: (bool, usize))
    requires
        forall|i: int, j: int|
            #![trigger names@[i], names@[j]]
            0 <= i < j < names@.len() ==> bytes_lt(names@[i].0@, names@[j].0@),
    ensures
        r.0 == (exists|i: int| 0 <= i < names@.len() && (#[trigger] names@[i]).0@ == name@),
        r.1 <= names@.len(),
        forall|i: int| 0 <= i < r.1 ==> bytes_lt((#[trigger] names@[i]).0@, name@),
        !r.0 ==> forall|i: int|
            r.1 <= i < names@.len() ==> bytes_lt(name@, (#[trigger] names@[i]).0@),
{
    let k: usize = name_position(names, name);
    let found = k < names.len() && names[k].0.same(name);
    proof {
        if exists|i: int| 0 <= i < names@.len() && (#[trigger] names@[i]).0@ == name@ {
            let i = choose|i: int| 0 <= i < names@.len() && (#[trigger] names@[i]).0@ == name@;
            bytes_lt_is_a_strict_order(name@, name@, name@);
            if i < k {
                assert(bytes_lt(names@[i].0@, name@));
            } else if i > k {
                assert(bytes_lt(names@[k as int].0@, names@[i].0@));
            }
        }
        if found {
            assert(names@[k as int].0@ == name@);
        } else {
            assert forall|i: int| k <= i < names@.len() implies bytes_lt(
                name@,
                (#[trigger] names@[i]).0@,
            ) by {
                assert(names@[i].0@ != name@);
                bytes_lt_is_a_strict_order(name@, names@[i].0@, name@);
            }
        }
    }
    (found, k)
}

/// The names of the tubes that hold `jobs`, ascending.
fn wanted_names(jobs: &Vec<RecoveredJob>) -> (r: Vec<(TubeName, TubeId)>)
    ensures
        wanted_by(r@, recovered_view(jobs@)),
{
    let ghost js = recovered_view(jobs@);
    let n: usize = jobs.len();
    let mut r: Vec<(TubeName, TubeId)> = Vec::new();
    let mut i: usize = 0;
    assert(js.take(0) =~= Seq::<RecoveredView>::empty());
    while i < n
        invariant
            i <= n,
            n == jobs@.len(),
            js == recovered_view(jobs@),
            wanted_by(r@, js.take(i as int)),
        decreases n - i,
    {
        let name = &jobs[i].tube;
        let (found, k) = among(&r, name);
        let ghost was = r@;
        let ghost before = js.take(i as int);
        let ghost now = js.take(i + 1);
        proof {
            assert(js[i as int].tube == name@);
            assert(now[i as int].tube == name@);
            assert forall|q: Seq<u8>| holds_some(before, q) implies holds_some(now, q) by {
                let a = choose|a: int| 0 <= a < before.len() && (#[trigger] before[a]).tube == q;
                assert(now[a].tube == q);
            }
        }
        if !found {
            r.insert(k, (name.clone(), 0));
            proof {
                let v = r@;
                assert(v[k as int].0@ == name@);
                assert forall|a: int, b: int|
                    #![trigger v[a], v[b]]
                    0 <= a < b < v.len() implies bytes_lt(v[a].0@, v[b].0@) by {
                    if a < k {
                        assert(v[a] == was[a]);
                    } else if a > k {
                        assert(v[a] == was[a - 1]);
                    }
                    if b < k {
                        assert(v[b] == was[b]);
                    } else if b > k {
                        assert(v[b] == was[b - 1]);
                    }
                }
                assert forall|a: int| 0 <= a < v.len() implies holds_some(
                    now,
                    (#[trigger] v[a]).0@,
                ) by {
                    if a < k {
                        assert(v[a] == was[a]);
                    } else if a > k {
                        assert(v[a] == was[a - 1]);
                    }
                }
                assert forall|b: int| 0 <= b < now.len() implies exists|a: int|
                    0 <= a < v.len() && (#[trigger] v[a]).0@ == (#[trigger] now[b]).tube by {
                    if b < i {
                        assert(before[b] == now[b]);
                        let a = choose|a: int|
                            0 <= a < was.len() && (#[trigger] was[a]).0@ == before[b].tube;
                        if a < k {
                            assert(v[a] == was[a]);
                        } else {
                            assert(v[a + 1] == was[a]);
                        }
                    }
                }
            }
        } else {
            proof {
                assert forall|b: int| 0 <= b < now.len() implies exists|a: int|
                    0 <= a < was.len() && (#[trigger] was[a]).0@ == (#[trigger] now[b]).tube by {
                    if b < i {
                        assert(before[b] == now[b]);
                    }
                }
            }
        }
        i = i + 1;
    }
    assert(js.take(n as int) =~= js);
    r
}

/// The number that the next job will have.
fn next_id(jobs: &Vec<RecoveredJob>, next: JobId) -> (r: JobId)
    requires
        forall|i: int| 0 <= i < jobs@.len() ==> (#[trigger] jobs@[i]).record.id < u64::MAX,
    ensures
        r == next_after(recovered_view(jobs@), next),
        r >= 1,
        forall|i: int| 0 <= i < jobs@.len() ==> (#[trigger] jobs@[i]).record.id < r,
{
    let ghost js = recovered_view(jobs@);
    let n: usize = jobs.len();
    let mut r: JobId = if next >= 1 {
        next
    } else {
        1
    };
    let mut i: usize = 0;
    assert(js.take(0) =~= Seq::<RecoveredView>::empty());
    while i < n
        invariant
            i <= n,
            n == jobs@.len(),
            js == recovered_view(jobs@),
            forall|i: int| 0 <= i < jobs@.len() ==> (#[trigger] jobs@[i]).record.id < u64::MAX,
            r == next_after(js.take(i as int), next),
            r >= 1,
            forall|k: int| 0 <= k < i ==> (#[trigger] jobs@[k]).record.id < r,
        decreases n - i,
    {
        let id: JobId = jobs[i].record.id;
        proof {
            assert(js[i as int].record.id == id);
            assert(js.take(i + 1).drop_last() =~= js.take(i as int));
            assert(js.take(i + 1).last() == js[i as int]);
        }
        if r <= id {
            r = id + 1;
        }
        i = i + 1;
    }
    assert(js.take(n as int) =~= js);
    r
}

/// The job that a record stands for.
fn job_of(now: Nanos, rj: &RecoveredJob, tube: TubeId) -> (r: JobRec)
    ensures
        r@ == recovered_job(now, rj@, tube),
{
    let k = &rj.record;
    let late = k.state == RecordState::Delayed && k.deadline_at > now;
    let buried = k.state == RecordState::Buried;
    JobRec {
        id: k.id,
        tube,
        pri: k.pri,
        delay: k.delay,
        ttr: if k.ttr < 1 {
            1
        } else {
            k.ttr
        },
        body: bytes_clone(&rj.body),
        created_at: k.created_at,
        deadline_at: if late {
            k.deadline_at
        } else {
            0
        },
        state: if late {
            JobState::Delayed
        } else if buried {
            JobState::Buried
        } else {
            JobState::Ready
        },
        reserver: None,
        reserve_ct: k.reserve_ct,
        timeout_ct: k.timeout_ct,
        release_ct: k.release_ct,
        bury_ct: if buried {
            k.bury_ct.wrapping_add(1)
        } else {
            k.bury_ct
        },
        kick_ct: k.kick_ct,
        file: 0,
    }
}

/// Whether every tube but "default" is called as the tube of one of `jobs`.
spec fn named_for(m: Model, jobs: Seq<RecoveredView>) -> bool {
    forall|t: TubeId| #[trigger] m.live(t) && t != 0 ==> holds_some(jobs, m.tube(t).name)
}

/// Whether each of `jobs` is there, in the tube that it names.
spec fn stands(m: Model, jobs: Seq<RecoveredView>) -> bool {
    forall|i: int|
        0 <= i < jobs.len() ==> m.jobs.contains_key((#[trigger] jobs[i]).record.id) && m.live(
            m.jobs[jobs[i].record.id].tube,
        ) && m.tube(m.jobs[jobs[i].record.id].tube).name == jobs[i].tube
}

/// A tube that is made is called as asked, and the others stay.
proof fn lemma_made(m: Model, name: Seq<u8>)
    requires
        m.free.len() > 0 ==> m.free.last() < m.tubes.len() && m.tubes[m.free.last() as int] is None,
    ensures
        forall|t: TubeId| #[trigger]
            m.live(t) ==> m.making_tube(name).live(t) && m.making_tube(name).tube(t) == m.tube(t),
        forall|t: TubeId| #[trigger]
            m.making_tube(name).live(t) && !m.live(t) ==> m.making_tube(name).tube(t).name == name,
{
}

impl Engine {
    /// Makes the tubes of `names` that are to hold one of `jobs`.
    fn recover_tubes(&mut self, names: &Vec<TubeName>, jobs: &Vec<RecoveredJob>)
        requires
            old(self).wf(),
            named_for(old(self)@, recovered_view(jobs@)),
        ensures
            final(self).host() == old(self).host(),
            final(self).wf(),
            final(self)@ == old(self)@.recovering_tubes(
                names_view(names@),
                recovered_view(jobs@),
            ),
            named_for(final(self)@, recovered_view(jobs@)),
            final(self)@.conns == old(self)@.conns,
            final(self)@.jobs == old(self)@.jobs,
            final(self)@.next_job_id == old(self)@.next_job_id,
    {
        let ghost js = recovered_view(jobs@);
        let ghost ns = names_view(names@);
        let ghost m0 = self@;
        let wanted = wanted_names(jobs);
        let n: usize = names.len();
        let mut i: usize = 0;
        assert(ns.take(0) =~= Seq::<Seq<u8>>::empty());
        while i < n
            invariant
                self.host() == old(self).host(),
                i <= n,
                n == names@.len(),
                js == recovered_view(jobs@),
                ns == names_view(names@),
                wanted_by(wanted@, js),
                self.wf(),
                self@ == m0.recovering_tubes(ns.take(i as int), js),
                named_for(self@, js),
                self@.conns == m0.conns,
                self@.jobs == m0.jobs,
                self@.next_job_id == m0.next_job_id,
            decreases n - i,
        {
            let (found, _) = among(&wanted, &names[i]);
            let ghost m = self@;
            let ghost name = ns[i as int];
            proof {
                assert(name == names@[i as int]@);
                assert(ns.take(i + 1).drop_last() =~= ns.take(i as int));
                assert(ns.take(i + 1).last() == name);
                assert(found == holds_some(js, name)) by {
                    if found {
                        let a = choose|a: int|
                            0 <= a < wanted@.len() && (#[trigger] wanted@[a]).0@ == name;
                        assert(holds_some(js, wanted@[a].0@));
                    }
                    if holds_some(js, name) {
                        let k = choose|k: int| 0 <= k < js.len() && (#[trigger] js[k]).tube == name;
                        let a = choose|a: int|
                            0 <= a < wanted@.len() && (#[trigger] wanted@[a]).0@ == js[k].tube;
                        assert(wanted@[a].0@ == name);
                    }
                }
            }
            if found {
                proof {
                    self.lemma_free_slots();
                    lemma_made(m, name);
                }
                let _ = self.find_or_make_tube(&names[i]);
                assert(named_for(self@, js)) by {
                    assert forall|t: TubeId| #[trigger] self@.live(t) && t != 0 implies holds_some(
                        js,
                        self@.tube(t).name,
                    ) by {
                        if m.live(t) {
                            assert(m.tube(t) == self@.tube(t));
                        }
                    }
                }
            }
            i = i + 1;
        }
        assert(ns.take(n as int) =~= ns);
    }

    /// The last free slot holds no tube.
    proof fn lemma_free_slots(&self)
        requires
            self.wf(),
        ensures
            self@.free.len() > 0 ==> self@.free.last() < self@.tubes.len()
                && self@.tubes[self@.free.last() as int] is None,
    {
        if self@.free.len() > 0 {
            let f = self.free_tube_ids@;
            assert(f.contains(f.last())) by {
                assert(f[f.len() - 1] == f.last());
            }
            assert(!live(self.tubes@, f.last()));
        }
    }

    /// Adds the jobs that records stand for.
    fn recover_jobs(&mut self, now: Nanos, jobs: &Vec<RecoveredJob>)
        requires
            old(self).wf(),
            old(self)@.conns.dom() == Set::<ConnId>::empty(),
            old(self)@.jobs.dom() == Set::<JobId>::empty(),
            forall|i: int|
                0 <= i < jobs@.len() ==> (#[trigger] jobs@[i]).record.id < old(self)@.next_job_id,
            named_for(old(self)@, recovered_view(jobs@)),
        ensures
            final(self).host() == old(self).host(),
            final(self).wf(),
            final(self)@ == old(self)@.recovering_jobs(now, recovered_view(jobs@)),
            final(self)@.conns == old(self)@.conns,
            named_for(final(self)@, recovered_view(jobs@)),
            distinct_ids(recovered_view(jobs@)) ==> stands(final(self)@, recovered_view(jobs@)),
    {
        let ghost js = recovered_view(jobs@);
        let ghost m0 = self@;
        let n: usize = jobs.len();
        let mut i: usize = 0;
        assert(js.take(0) =~= Seq::<RecoveredView>::empty());
        while i < n
            invariant
                self.host() == old(self).host(),
                i <= n,
                n == jobs@.len(),
                js == recovered_view(jobs@),
                self.wf(),
                self@ == m0.recovering_jobs(now, js.take(i as int)),
                m0.conns.dom() == Set::<ConnId>::empty(),
                self@.conns == m0.conns,
                self@.next_job_id == m0.next_job_id,
                forall|i: int|
                    0 <= i < jobs@.len() ==> (#[trigger] jobs@[i]).record.id < m0.next_job_id,
                named_for(self@, js),
                forall|id: JobId| #[trigger]
                    self@.jobs.contains_key(id) ==> exists|k: int|
                        0 <= k < i && (#[trigger] js[k]).record.id == id,
                distinct_ids(js) ==> stands(self@, js.take(i as int)),
            decreases n - i,
        {
            let rj = &jobs[i];
            let ghost m = self@;
            let ghost r = js[i as int];
            proof {
                assert(r == rj@);
                assert(js.take(i + 1).drop_last() =~= js.take(i as int));
                assert(js.take(i + 1).last() == r);
                assert(self.jv().dom() =~= self.jobs@.dom());
            }
            if !self.has_job(rj.record.id) {
                proof {
                    self.lemma_free_slots();
                    lemma_made(m, r.tube);
                }
                let tid: TubeId = self.find_or_make_tube(&rj.tube);
                let ghost m1 = self@;
                let j = job_of(now, rj, tid);
                self.put_job(j);
                proof {
                    let v = recovered_job(now, r, tid);
                    assert(self@ == m.recovering(now, r));
                    assert forall|t: TubeId| #[trigger] self@.live(t) implies m1.live(t)
                        && self@.tube(t).name == m1.tube(t).name by {}
                    assert forall|t: TubeId| #[trigger] m1.live(t) implies self@.live(t)
                        && self@.tube(t).name == m1.tube(t).name by {}
                    assert(named_for(self@, js)) by {
                        assert forall|t: TubeId| #[trigger] self@.live(t) && t != 0 implies
                            holds_some(js, self@.tube(t).name) by {
                            assert(m1.live(t));
                            if m.live(t) {
                                assert(m.tube(t) == m1.tube(t));
                            } else {
                                assert(m1.tube(t).name == r.tube);
                                assert(js[i as int].tube == r.tube);
                            }
                        }
                    }
                    assert(self@.jobs == m.jobs.insert(r.record.id, v));
                    assert forall|id: JobId| #[trigger] self@.jobs.contains_key(id) implies exists|
                        k: int,
                    |
                        0 <= k < i + 1 && (#[trigger] js[k]).record.id == id by {
                        if id == r.record.id {
                            assert(js[i as int].record.id == id);
                        } else {
                            assert(m.jobs.contains_key(id));
                        }
                    }
                    if distinct_ids(js) {
                        let was = js.take(i as int);
                        let done = js.take(i + 1);
                        assert forall|k: int| 0 <= k < done.len() implies self@.jobs.contains_key(
                            (#[trigger] done[k]).record.id,
                        ) && self@.live(self@.jobs[done[k].record.id].tube) && self@.tube(
                            self@.jobs[done[k].record.id].tube,
                        ).name == done[k].tube by {
                            if k < i {
                                assert(was[k] == done[k]);
                                assert(js[k].record.id != js[i as int].record.id);
                                let u = m.jobs[was[k].record.id].tube;
                                assert(m.live(u));
                                assert(m1.live(u));
                            } else {
                                assert(done[k] == r);
                                assert(m1.live(tid));
                            }
                        }
                    }
                }
            } else {
                proof {
                    if distinct_ids(js) {
                        let k = choose|k: int|
                            0 <= k < i && (#[trigger] js[k]).record.id == r.record.id;
                        assert(js[k].record.id != js[i as int].record.id);
                    }
                }
            }
            i = i + 1;
        }
        assert(js.take(n as int) =~= js);
    }

    /// Whether job `id` exists.
    fn has_job(&self, id: JobId) -> (r: bool)
        ensures
            r == self@.jobs.contains_key(id),
    {
        broadcast use {crate::ordset::group_ordered, vstd::std_specs::btree::group_btree_axioms};

        self.jobs.contains_key(&id)
    }

    /// Where no connection exists and every tube holds a job, what holds between
    /// events does.
    proof fn lemma_recovered(&self, js: Seq<RecoveredView>)
        requires
            self.wf(),
            self@.conns.dom() == Set::<ConnId>::empty(),
            named_for(self@, js),
            stands(self@, js),
        ensures
            settled(self@),
    {
        assert(watching(self@)) by {
            assert forall|c: ConnId| #[trigger] self@.conns.contains_key(c) implies
                self@.conns[c].watch.items.len() > 0 by {
                assert(self@.conns.dom().contains(c));
            }
        }
        assert(quiet(self@)) by {
            assert forall|id: JobId| !self@.awaited(id) by {
                if self@.awaited(id) {
                    let t = self@.jobs[id].tube;
                    assert(live(self.tubes@, t));
                    let x = at(self.tubes@, t);
                    assert(tube_ok(x, t, self.jv(), self.cv()));
                    let w = x.waiting_conns@.items;
                    assert(self@.tubes[t as int] == Some(x@));
                    assert(w.contains(w[0]));
                    assert(self.cv().dom().contains(w[0]));
                }
            }
        }
        assert(anchored(self@)) by {
            assert forall|u: TubeId| #[trigger] self@.live(u) && u != 0 implies self@.referenced(
                u,
            ) by {
                let name = self@.tube(u).name;
                let k = choose|k: int| 0 <= k < js.len() && (#[trigger] js[k]).tube == name;
                let id = js[k].record.id;
                let t = self@.jobs[id].tube;
                assert(self@.jobs.contains_key(id) && self@.live(t) && self@.tube(t).name == name);
                assert(live(self.tubes@, u) && live(self.tubes@, t));
                self.lemma_names_differ(u, t);
                assert(self.jobs@.dom().finite());
                assert(self@.jobs.dom() =~= self.jobs@.dom());
                lemma_jobs_none(self@.jobs, JobSel::InTube(u));
                assert(JobSel::InTube(u).picks(self@.jobs[id]));
            }
        }
    }

    /// Makes an engine of what the log holds at start-up: the tubes in the order
    /// that the log gives, as far as they hold jobs, and the jobs in the order
    /// of their first records. A buried job counts one more burying. A delayed
    /// job whose deadline has passed becomes ready and keeps its delay. Every
    /// count of past events starts at 0, and nothing is journaled.
    pub fn recover(now: Nanos, cfg: EngineConfig, sys: Box<dyn SysInfo>, recovery: Recovery) -> (r:
        Self)
        requires
            forall|i: int|
                0 <= i < recovery.jobs@.len() ==> (#[trigger] recovery.jobs@[i]).record.id
                    < u64::MAX,
        ensures
            r.wf(),
            r.host() == (|s: SysSnapshot| sys.says(s)),
            r@ == Model::recovered(
                now,
                cfg,
                recovered_view(recovery.jobs@),
                recovery.next_id,
                names_view(recovery.tube_order@),
            ),
            distinct_ids(recovered_view(recovery.jobs@)) ==> r.valid(),
    {
        let next: JobId = next_id(&recovery.jobs, recovery.next_id);
        let held = Held { it: sys };
        let mut e = Engine::fresh(now, cfg, held);
        e.set_next_id(next);
        let ghost js = recovered_view(recovery.jobs@);
        proof {
            assert(e@.conns.dom() =~= Set::<ConnId>::empty());
            assert(e@.jobs.dom() =~= Set::<JobId>::empty());
            assert(named_for(e@, js)) by {
                assert forall|t: TubeId| #[trigger] e@.live(t) && t != 0 implies holds_some(
                    js,
                    e@.tube(t).name,
                ) by {
                    assert(e@.tubes.len() == 1);
                }
            }
        }
        e.recover_tubes(&recovery.tube_order, &recovery.jobs);
        e.recover_jobs(now, &recovery.jobs);
        proof {
            if distinct_ids(js) {
                e.lemma_recovered(js);
            }
        }
        e
    }

    /// Sets the number that the next job will have, where there are no jobs and
    /// no connections.
    fn set_next_id(&mut self, next: JobId)
        requires
            old(self).wf(),
            old(self)@.jobs == Map::<JobId, JobView>::empty(),
            old(self)@.conns == Map::<ConnId, ConnView>::empty(),
            next >= 1,
        ensures
            final(self).host() == old(self).host(),
            final(self).wf(),
            final(self)@ == (Model { next_job_id: next, ..old(self)@ }),
    {
        proof {
            assert(self.jv() == Map::<JobId, JobView>::empty());
            assert(self.cv() == Map::<ConnId, ConnView>::empty());
            assert(self.cv().dom() =~= self.conns@.dom());
        }
        self.next_job_id = next;
        proof {
            assert forall|c: ConnId| #[trigger] self.conns@.contains_key(c) implies false by {
                assert(self.cv().dom().contains(c));
            }
        }
    }
}

} // verus!
