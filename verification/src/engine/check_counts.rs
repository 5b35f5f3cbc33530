//! Checking that the counts and the indexes in data from outside are what
//! counting and collecting would give.

use super::check_queues::{lists_sound, marks_sound, queued};
use super::faults::{ConnsFault, SumFault, TubeFault};
use super::jobs::first_pair;
use super::{Engine, Tallies};
use crate::api::{ConnId, Nanos};
use crate::inv::{at, dispatchable_of, heads_of, live, pauses_of, ticks_of};
use crate::model::{ConnView, JobState, JobView, TubeId, TubeState};
use crate::ordset::{keys_of, same_set};
use crate::proto::{JobId, URGENT_THRESHOLD};
use crate::rules::{count_conns, count_jobs, ConnSel, JobSel};
use std::collections::BTreeSet;
use vstd::prelude::*;

verus! {

/// How many of the jobs named by `keys` are picked.
spec fn tally_jobs(keys: Seq<JobId>, jobs: Map<JobId, JobView>, sel: JobSel) -> nat
    decreases keys.len(),
{
    if keys.len() == 0 {
        0
    } else {
        tally_jobs(keys.drop_last(), jobs, sel) + (if sel.picks(jobs[keys.last()]) {
            1nat
        } else {
            0
        })
    }
}

/// How many of the connections named by `keys` are picked.
spec fn tally_conns(keys: Seq<ConnId>, conns: Map<ConnId, ConnView>, sel: ConnSel) -> nat
    decreases keys.len(),
{
    if keys.len() == 0 {
        0
    } else {
        tally_conns(keys.drop_last(), conns, sel) + (if sel.picks(conns[keys.last()]) {
            1nat
        } else {
            0
        })
    }
}

/// Counting key by key counts a set of keys.
proof fn lemma_tally_jobs(keys: Seq<JobId>, jobs: Map<JobId, JobView>, sel: JobSel)
    requires
        keys.no_duplicates(),
    ensures
        tally_jobs(keys, jobs, sel) == keys.to_set().filter(|id: JobId| sel.picks(jobs[id])).len(),
        tally_jobs(keys, jobs, sel) <= keys.len(),
    decreases keys.len(),
{
    let f = |id: JobId| sel.picks(jobs[id]);
    let s = keys.to_set().filter(f);
    vstd::seq_lib::seq_to_set_is_finite(keys);
    if keys.len() == 0 {
        assert(s =~= Set::<JobId>::empty());
    } else {
        let front = keys.drop_last();
        let last = keys.last();
        vstd::seq_lib::seq_to_set_is_finite(front);
        lemma_tally_jobs(front, jobs, sel);
        assert forall|k: JobId| keys.contains(k) == (front.contains(k) || k == last) by {
            if front.contains(k) {
                assert(keys[front.index_of(k)] == k);
            }
            assert(keys[keys.len() - 1] == last);
            if keys.contains(k) && k != last {
                assert(front[keys.index_of(k)] == k);
            }
        }
        assert(!front.contains(last));
        if f(last) {
            assert(s =~= front.to_set().filter(f).insert(last));
        } else {
            assert(s =~= front.to_set().filter(f));
        }
    }
}

/// Counting key by key counts a set of keys.
proof fn lemma_tally_conns(keys: Seq<ConnId>, conns: Map<ConnId, ConnView>, sel: ConnSel)
    requires
        keys.no_duplicates(),
    ensures
        tally_conns(keys, conns, sel) == keys.to_set().filter(
            |id: ConnId| sel.picks(conns[id]),
        ).len(),
        tally_conns(keys, conns, sel) <= keys.len(),
    decreases keys.len(),
{
    let f = |id: ConnId| sel.picks(conns[id]);
    let s = keys.to_set().filter(f);
    vstd::seq_lib::seq_to_set_is_finite(keys);
    if keys.len() == 0 {
        assert(s =~= Set::<ConnId>::empty());
    } else {
        let front = keys.drop_last();
        let last = keys.last();
        vstd::seq_lib::seq_to_set_is_finite(front);
        lemma_tally_conns(front, conns, sel);
        assert forall|k: ConnId| keys.contains(k) == (front.contains(k) || k == last) by {
            if front.contains(k) {
                assert(keys[front.index_of(k)] == k);
            }
            assert(keys[keys.len() - 1] == last);
            if keys.contains(k) && k != last {
                assert(front[keys.index_of(k)] == k);
            }
        }
        assert(!front.contains(last));
        if f(last) {
            assert(s =~= front.to_set().filter(f).insert(last));
        } else {
            assert(s =~= front.to_set().filter(f));
        }
    }
}

/// One more key counts one more job, if that is picked.
proof fn lemma_tally_next_job(keys: Seq<JobId>, i: int, jobs: Map<JobId, JobView>, sel: JobSel)
    requires
        0 <= i < keys.len(),
    ensures
        tally_jobs(keys.take(i + 1), jobs, sel) == tally_jobs(keys.take(i), jobs, sel) + (
        if sel.picks(jobs[keys[i]]) {
            1nat
        } else {
            0
        }),
{
    assert(keys.take(i + 1).drop_last() =~= keys.take(i));
}

/// One more key counts one more connection, if that is picked.
proof fn lemma_tally_next_conn(
    keys: Seq<ConnId>,
    i: int,
    conns: Map<ConnId, ConnView>,
    sel: ConnSel,
)
    requires
        0 <= i < keys.len(),
    ensures
        tally_conns(keys.take(i + 1), conns, sel) == tally_conns(keys.take(i), conns, sel) + (
        if sel.picks(conns[keys[i]]) {
            1nat
        } else {
            0
        }),
{
    assert(keys.take(i + 1).drop_last() =~= keys.take(i));
}

/// What a recount gives for one tube.
#[derive(Clone, Copy)]
pub(super) struct TubeCount {
    pub(super) jobs: u64,
    pub(super) urgent: u64,
    pub(super) reserved: u64,
    pub(super) using: u64,
    pub(super) watching: u64,
}

/// What a recount gives for all jobs.
struct JobCount {
    ready: u64,
    urgent: u64,
    reserved: u64,
    buried: u64,
    delayed: u64,
}

/// What a recount gives for all connections.
struct ConnCount {
    waiting: u64,
    producers: u64,
    workers: u64,
}

/// Whether the counters of tube `t` that recounting the jobs gives are those
/// of the jobs named by `keys`.
spec fn tube_jobs_counted(
    n: TubeCount,
    t: TubeId,
    keys: Seq<JobId>,
    jobs: Map<JobId, JobView>,
) -> bool {
    &&& n.jobs == tally_jobs(keys, jobs, JobSel::InTube(t))
    &&& n.urgent == tally_jobs(keys, jobs, JobSel::UrgentIn(t))
    &&& n.reserved == tally_jobs(keys, jobs, JobSel::ReservedIn(t))
    &&& n.jobs <= keys.len()
    &&& n.urgent <= keys.len()
    &&& n.reserved <= keys.len()
}

/// Whether the totals are those of the jobs named by `keys`.
spec fn jobs_counted(n: JobCount, keys: Seq<JobId>, jobs: Map<JobId, JobView>) -> bool {
    &&& n.ready == tally_jobs(keys, jobs, JobSel::Ready)
    &&& n.urgent == tally_jobs(keys, jobs, JobSel::Urgent)
    &&& n.reserved == tally_jobs(keys, jobs, JobSel::Reserved)
    &&& n.buried == tally_jobs(keys, jobs, JobSel::Buried)
    &&& n.delayed == tally_jobs(keys, jobs, JobSel::Delayed)
    &&& n.ready <= keys.len()
    &&& n.urgent <= keys.len()
    &&& n.reserved <= keys.len()
    &&& n.buried <= keys.len()
    &&& n.delayed <= keys.len()
}

/// Whether the totals are those of the connections named by `keys`.
spec fn conns_counted(n: ConnCount, keys: Seq<ConnId>, conns: Map<ConnId, ConnView>) -> bool {
    &&& n.waiting == tally_conns(keys, conns, ConnSel::Waiting)
    &&& n.producers == tally_conns(keys, conns, ConnSel::Producer)
    &&& n.workers == tally_conns(keys, conns, ConnSel::Worker)
    &&& n.waiting <= keys.len()
    &&& n.producers <= keys.len()
    &&& n.workers <= keys.len()
}

/// Whether the uses of tube `t` are those by the connections named by `keys`.
spec fn uses_counted(
    n: TubeCount,
    t: TubeId,
    keys: Seq<ConnId>,
    conns: Map<ConnId, ConnView>,
) -> bool {
    &&& n.using == tally_conns(keys, conns, ConnSel::Uses(t))
    &&& n.watching == tally_conns(keys, conns, ConnSel::Watches(t))
    &&& n.using <= keys.len()
    &&& n.watching <= keys.len()
}

/// Whether the stored counters of tube `t` are what counting would give.
pub(super) open spec fn counts_sound(
    x: TubeState,
    t: TubeId,
    jobs: Map<JobId, JobView>,
    conns: Map<ConnId, ConnView>,
) -> bool {
    &&& x.job_ref_ct == count_jobs(jobs, JobSel::InTube(t))
    &&& x.stat.urgent_ct == count_jobs(jobs, JobSel::UrgentIn(t))
    &&& x.stat.reserved_ct == count_jobs(jobs, JobSel::ReservedIn(t))
    &&& x.using_ct == count_conns(conns, ConnSel::Uses(t))
    &&& x.watching_ct == count_conns(conns, ConnSel::Watches(t))
}

/// The tallies of connections are what a count would give.
pub(super) open spec fn conn_tallies_ok(x: Tallies, conns: Map<ConnId, ConnView>) -> bool {
    &&& x.waiting_ct == count_conns(conns, ConnSel::Waiting)
    &&& x.cur_conns == conns.dom().len()
    &&& x.cur_producers == count_conns(conns, ConnSel::Producer)
    &&& x.cur_workers == count_conns(conns, ConnSel::Worker)
}

/// The tallies of jobs are what a count would give.
pub(super) open spec fn job_tallies_ok(x: Tallies, jobs: Map<JobId, JobView>) -> bool {
    &&& x.ready_ct == count_jobs(jobs, JobSel::Ready)
    &&& x.urgent_ct == count_jobs(jobs, JobSel::Urgent)
    &&& x.reserved_ct == count_jobs(jobs, JobSel::Reserved)
    &&& x.buried_ct == count_jobs(jobs, JobSel::Buried)
    &&& x.delayed_ct == count_jobs(jobs, JobSel::Delayed)
}

/// As many empty counts as there are slots.
fn no_counts(n: usize) -> (r: Vec<TubeCount>)
    ensures
        r@.len() == n,
        forall|t: int|
            0 <= t < n ==> (#[trigger] r@[t]).jobs == 0 && r@[t].urgent == 0 && r@[t].reserved == 0
                && r@[t].using == 0 && r@[t].watching == 0,
{
    let mut r: Vec<TubeCount> = Vec::new();
    let mut i: usize = 0;
    while i < n
        invariant
            i <= n,
            r@.len() == i,
            forall|t: int|
                0 <= t < i ==> (#[trigger] r@[t]).jobs == 0 && r@[t].urgent == 0
                    && r@[t].reserved == 0 && r@[t].using == 0 && r@[t].watching == 0,
        decreases n - i,
    {
        r.push(TubeCount { jobs: 0, urgent: 0, reserved: 0, using: 0, watching: 0 });
        i = i + 1;
    }
    r
}

/// One more if `b`.
fn and_one(n: u64, b: bool) -> (r: u64)
    requires
        n < u64::MAX,
    ensures
        r == n + (if b {
            1int
        } else {
            0
        }),
{
    if b {
        n + 1
    } else {
        n
    }
}

impl Engine {
    /// Recounts the jobs, by tube and in all.
    fn recount_jobs(&self, by_tube: &mut Vec<TubeCount>) -> (r: JobCount)
        requires
            old(by_tube)@.len() == self.tubes@.len(),
            forall|t: int|
                0 <= t < old(by_tube)@.len() ==> (#[trigger] old(by_tube)@[t]).jobs == 0 && old(
                    by_tube,
                )@[t].urgent == 0 && old(by_tube)@[t].reserved == 0,
            forall|id: JobId| #[trigger]
                self.jv().contains_key(id) ==> live(self.tubes@, self.jv()[id].tube),
        ensures
            final(by_tube)@.len() == old(by_tube)@.len(),
            forall|t: TubeId|
                t < old(by_tube)@.len() ==> (#[trigger] final(by_tube)@[t as int]).jobs
                    == count_jobs(self.jv(), JobSel::InTube(t)) && final(by_tube)@[t as int].urgent
                    == count_jobs(self.jv(), JobSel::UrgentIn(t))
                    && final(by_tube)@[t as int].reserved == count_jobs(
                    self.jv(),
                    JobSel::ReservedIn(t),
                ) && final(by_tube)@[t as int].using == old(by_tube)@[t as int].using
                    && final(by_tube)@[t as int].watching == old(by_tube)@[t as int].watching,
            r.ready == count_jobs(self.jv(), JobSel::Ready),
            r.urgent == count_jobs(self.jv(), JobSel::Urgent),
            r.reserved == count_jobs(self.jv(), JobSel::Reserved),
            r.buried == count_jobs(self.jv(), JobSel::Buried),
            r.delayed == count_jobs(self.jv(), JobSel::Delayed),
    {
        broadcast use {crate::ordset::group_ordered, vstd::std_specs::btree::group_btree_axioms};

        let keys: Vec<JobId> = keys_of(&self.jobs);
        let n: usize = keys.len();
        let ghost jv = self.jv();
        let ghost old_counts = by_tube@;
        let mut all = JobCount { ready: 0, urgent: 0, reserved: 0, buried: 0, delayed: 0 };
        let mut i: usize = 0;
        assert(keys@.take(0) =~= Seq::<JobId>::empty());
        while i < n
            invariant
                i <= n,
                n == keys@.len(),
                keys@.to_set() == self.jobs@.dom(),
                jv == self.jv(),
                by_tube@.len() == self.tubes@.len(),
                old_counts.len() == by_tube@.len(),
                forall|id: JobId| #[trigger]
                    jv.contains_key(id) ==> live(self.tubes@, jv[id].tube),
                forall|t: TubeId|
                    t < by_tube@.len() ==> tube_jobs_counted(
                        #[trigger] by_tube@[t as int],
                        t,
                        keys@.take(i as int),
                        jv,
                    ) && by_tube@[t as int].using == old_counts[t as int].using
                        && by_tube@[t as int].watching == old_counts[t as int].watching,
                jobs_counted(all, keys@.take(i as int), jv),
            decreases n - i,
        {
            let id: JobId = keys[i];
            proof {
                assert(keys@.to_set().contains(keys@[i as int]));
                assert(jv.contains_key(id));
                assert(keys@[i as int] == id);
            }
            match self.jobs.get(&id) {
                Some(j) => {
                    let ghost was = by_tube@;
                    let ready = j.state == JobState::Ready;
                    let urgent = ready && j.pri < URGENT_THRESHOLD;
                    let reserved = j.state == JobState::Reserved;
                    assert(live(self.tubes@, j.tube));
                    let c: TubeCount = by_tube[j.tube];
                    assert(tube_jobs_counted(c, j.tube, keys@.take(i as int), jv));
                    by_tube.set(
                        j.tube,
                        TubeCount {
                            jobs: c.jobs + 1,
                            urgent: and_one(c.urgent, urgent),
                            reserved: and_one(c.reserved, reserved),
                            using: c.using,
                            watching: c.watching,
                        },
                    );
                    all = JobCount {
                        ready: and_one(all.ready, ready),
                        urgent: and_one(all.urgent, urgent),
                        reserved: and_one(all.reserved, reserved),
                        buried: and_one(all.buried, j.state == JobState::Buried),
                        delayed: and_one(all.delayed, j.state == JobState::Delayed),
                    };
                    proof {
                        lemma_tally_next_job(keys@, i as int, jv, JobSel::Ready);
                        lemma_tally_next_job(keys@, i as int, jv, JobSel::Urgent);
                        lemma_tally_next_job(keys@, i as int, jv, JobSel::Reserved);
                        lemma_tally_next_job(keys@, i as int, jv, JobSel::Buried);
                        lemma_tally_next_job(keys@, i as int, jv, JobSel::Delayed);
                        assert forall|t: TubeId| t < by_tube@.len() implies tube_jobs_counted(
                            #[trigger] by_tube@[t as int],
                            t,
                            keys@.take(i + 1),
                            jv,
                        ) && by_tube@[t as int].using == old_counts[t as int].using
                            && by_tube@[t as int].watching == old_counts[t as int].watching by {
                            assert(tube_jobs_counted(was[t as int], t, keys@.take(i as int), jv));
                            lemma_tally_next_job(keys@, i as int, jv, JobSel::InTube(t));
                            lemma_tally_next_job(keys@, i as int, jv, JobSel::UrgentIn(t));
                            lemma_tally_next_job(keys@, i as int, jv, JobSel::ReservedIn(t));
                        }
                    }
                },
                None => {
                    assert(false);
                },
            }
            i = i + 1;
        }
        proof {
            assert(keys@.take(n as int) =~= keys@);
            assert(keys@.no_duplicates());
            assert forall|sel: JobSel| #[trigger]
                tally_jobs(keys@, jv, sel) == count_jobs(jv, sel) by {
                lemma_tally_jobs(keys@, jv, sel);
                assert(keys@.to_set() =~= jv.dom());
            }
            assert forall|t: TubeId| t < by_tube@.len() implies (#[trigger] by_tube@[t as int]).jobs
                == count_jobs(jv, JobSel::InTube(t)) && by_tube@[t as int].urgent == count_jobs(
                jv,
                JobSel::UrgentIn(t),
            ) && by_tube@[t as int].reserved == count_jobs(jv, JobSel::ReservedIn(t)) by {
                assert(tube_jobs_counted(by_tube@[t as int], t, keys@, jv));
            }
        }
        all
    }

    /// Recounts the connections, by tube and in all.
    fn recount_conns(&self, by_tube: &mut Vec<TubeCount>) -> (r: ConnCount)
        requires
            old(by_tube)@.len() == self.tubes@.len(),
            forall|t: int|
                0 <= t < old(by_tube)@.len() ==> (#[trigger] old(by_tube)@[t]).using == 0 && old(
                    by_tube,
                )@[t].watching == 0,
            forall|c: ConnId| #[trigger]
                self.conns@.contains_key(c) ==> live(self.tubes@, self.conns@[c].use_tube)
                    && self.conns@[c].watch@.items.no_duplicates(),
            forall|c: ConnId, i: int|
                self.conns@.contains_key(c) && 0 <= i < self.conns@[c].watch@.items.len() ==> live(
                    self.tubes@,
                    #[trigger] self.conns@[c].watch@.items[i],
                ),
        ensures
            final(by_tube)@.len() == old(by_tube)@.len(),
            forall|t: TubeId|
                t < old(by_tube)@.len() ==> (#[trigger] final(by_tube)@[t as int]).using
                    == count_conns(self.cv(), ConnSel::Uses(t)) && final(by_tube)@[t as int].watching
                    == count_conns(self.cv(), ConnSel::Watches(t)) && final(by_tube)@[t as int].jobs
                    == old(by_tube)@[t as int].jobs && final(by_tube)@[t as int].urgent == old(
                    by_tube,
                )@[t as int].urgent && final(by_tube)@[t as int].reserved == old(
                    by_tube,
                )@[t as int].reserved,
            r.waiting == count_conns(self.cv(), ConnSel::Waiting),
            r.producers == count_conns(self.cv(), ConnSel::Producer),
            r.workers == count_conns(self.cv(), ConnSel::Worker),
    {
        broadcast use {crate::ordset::group_ordered, vstd::std_specs::btree::group_btree_axioms};

        let keys: Vec<ConnId> = keys_of(&self.conns);
        let n: usize = keys.len();
        let ghost cv = self.cv();
        let ghost old_counts = by_tube@;
        let mut all = ConnCount { waiting: 0, producers: 0, workers: 0 };
        let mut i: usize = 0;
        assert(keys@.take(0) =~= Seq::<ConnId>::empty());
        while i < n
            invariant
                i <= n,
                n == keys@.len(),
                keys@.to_set() == self.conns@.dom(),
                cv == self.cv(),
                by_tube@.len() == self.tubes@.len(),
                old_counts.len() == by_tube@.len(),
                forall|c: ConnId| #[trigger]
                    self.conns@.contains_key(c) ==> live(self.tubes@, self.conns@[c].use_tube)
                        && self.conns@[c].watch@.items.no_duplicates(),
                forall|c: ConnId, i: int|
                    self.conns@.contains_key(c) && 0 <= i < self.conns@[c].watch@.items.len()
                        ==> live(self.tubes@, #[trigger] self.conns@[c].watch@.items[i]),
                forall|t: TubeId|
                    t < by_tube@.len() ==> uses_counted(
                        #[trigger] by_tube@[t as int],
                        t,
                        keys@.take(i as int),
                        cv,
                    ) && by_tube@[t as int].jobs == old_counts[t as int].jobs
                        && by_tube@[t as int].urgent == old_counts[t as int].urgent
                        && by_tube@[t as int].reserved == old_counts[t as int].reserved,
                conns_counted(all, keys@.take(i as int), cv),
            decreases n - i,
        {
            let c: ConnId = keys[i];
            proof {
                assert(keys@.to_set().contains(keys@[i as int]));
                assert(self.conns@.contains_key(c));
                assert(keys@[i as int] == c);
                assert(cv[c] == self.conns@[c]@);
            }
            match self.conns.get(&c) {
                Some(x) => {
                    let ghost was = by_tube@;
                    let ghost f = x.watch@.items;
                    let u: TubeId = x.use_tube;
                    assert(live(self.tubes@, u));
                    let k: TubeCount = by_tube[u];
                    assert(uses_counted(k, u, keys@.take(i as int), cv));
                    by_tube.set(u, TubeCount { using: k.using + 1, ..k });
                    let m: usize = x.watch.items.len();
                    let mut b: usize = 0;
                    proof {
                        assert forall|t: TubeId|
                            t < by_tube@.len() && f.take(0).contains(t) implies false by {}
                    }
                    while b < m
                        invariant
                            b <= m,
                            i < n,
                            n == keys@.len(),
                            f == x.watch@.items,
                            m == f.len(),
                            f.no_duplicates(),
                            was.len() == by_tube@.len(),
                            by_tube@.len() == self.tubes@.len(),
                            forall|a: int| 0 <= a < m ==> live(self.tubes@, #[trigger] f[a]),
                            forall|t: TubeId| t < was.len() ==> (#[trigger] was[t as int]).watching <= i,
                            forall|t: TubeId|
                                t < by_tube@.len() ==> (#[trigger] by_tube@[t as int]).watching
                                    == was[t as int].watching + (if f.take(b as int).contains(t) {
                                    1int
                                } else {
                                    0
                                }) && by_tube@[t as int].using == was[t as int].using + (if t
                                    == x.use_tube {
                                    1int
                                } else {
                                    0
                                }) && by_tube@[t as int].jobs == was[t as int].jobs
                                    && by_tube@[t as int].urgent == was[t as int].urgent
                                    && by_tube@[t as int].reserved == was[t as int].reserved,
                        decreases m - b,
                    {
                        let t: TubeId = x.watch.items[b];
                        proof {
                            assert(f[b as int] == t);
                            assert(live(self.tubes@, f[b as int]));
                            let now = f.take(b + 1);
                            let prev = f.take(b as int);
                            assert forall|q: TubeId| #[trigger] now.contains(q) == (prev.contains(q)
                                || q == t) by {
                                if prev.contains(q) {
                                    assert(now[prev.index_of(q)] == q);
                                }
                                assert(now[b as int] == t);
                                if now.contains(q) && q != t {
                                    assert(prev[now.index_of(q)] == q);
                                }
                            }
                            assert(!prev.contains(t));
                        }
                        let k: TubeCount = by_tube[t];
                        assert(was[t as int].watching <= i);
                        by_tube.set(t, TubeCount { watching: k.watching + 1, ..k });
                        b = b + 1;
                    }
                    all = ConnCount {
                        waiting: and_one(all.waiting, x.waiting),
                        producers: and_one(all.producers, x.is_producer),
                        workers: and_one(all.workers, x.is_worker),
                    };
                    proof {
                        assert(f.take(m as int) =~= f);
                        lemma_tally_next_conn(keys@, i as int, cv, ConnSel::Waiting);
                        lemma_tally_next_conn(keys@, i as int, cv, ConnSel::Producer);
                        lemma_tally_next_conn(keys@, i as int, cv, ConnSel::Worker);
                        assert forall|t: TubeId| t < by_tube@.len() implies uses_counted(
                            #[trigger] by_tube@[t as int],
                            t,
                            keys@.take(i + 1),
                            cv,
                        ) && by_tube@[t as int].jobs == old_counts[t as int].jobs
                            && by_tube@[t as int].urgent == old_counts[t as int].urgent
                            && by_tube@[t as int].reserved == old_counts[t as int].reserved by {
                            assert(uses_counted(was[t as int], t, keys@.take(i as int), cv));
                            lemma_tally_next_conn(keys@, i as int, cv, ConnSel::Uses(t));
                            lemma_tally_next_conn(keys@, i as int, cv, ConnSel::Watches(t));
                        }
                    }
                },
                None => {
                    assert(false);
                },
            }
            i = i + 1;
        }
        proof {
            assert(keys@.take(n as int) =~= keys@);
            assert(keys@.no_duplicates());
            assert forall|sel: ConnSel| #[trigger]
                tally_conns(keys@, cv, sel) == count_conns(cv, sel) by {
                lemma_tally_conns(keys@, cv, sel);
                assert(keys@.to_set() =~= cv.dom());
            }
            assert forall|t: TubeId| t < by_tube@.len() implies (
            #[trigger] by_tube@[t as int]).using == count_conns(cv, ConnSel::Uses(t))
                && by_tube@[t as int].watching == count_conns(cv, ConnSel::Watches(t)) by {
                assert(uses_counted(by_tube@[t as int], t, keys@, cv));
            }
        }
        all
    }

    /// Whether the counters and the marks of tube `t` are right, something refers
    /// to it, and no job is left lying there.
    pub(super) open spec fn tube_counted(&self, t: TubeId) -> bool {
        let x = at(self.tubes@, t);
        &&& counts_sound(x, t, self.jv(), self.cv())
        &&& t != 0 ==> self@.referenced(t)
        &&& marks_sound(x)
        &&& x.dispatchable ==> x.pause > 0
    }

    /// How many jobs are reserved.
    pub(super) fn count_reserved(&self) -> (r: u64)
        requires
            forall|id: JobId| #[trigger]
                self.jv().contains_key(id) ==> live(self.tubes@, self.jv()[id].tube),
        ensures
            r == count_jobs(self.jv(), JobSel::Reserved),
    {
        let mut by_tube: Vec<TubeCount> = no_counts(self.tubes.len());
        let jobs = self.recount_jobs(&mut by_tube);
        jobs.reserved
    }

    /// How many jobs are buried.
    pub(super) fn count_buried(&self) -> (r: u64)
        requires
            forall|id: JobId| #[trigger]
                self.jv().contains_key(id) ==> live(self.tubes@, self.jv()[id].tube),
        ensures
            r == count_jobs(self.jv(), JobSel::Buried),
    {
        let mut by_tube: Vec<TubeCount> = no_counts(self.tubes.len());
        let jobs = self.recount_jobs(&mut by_tube);
        jobs.buried
    }

    /// The counts of every tube.
    pub(super) fn tube_counts(&self) -> (r: Vec<TubeCount>)
        requires
            forall|id: JobId| #[trigger]
                self.jv().contains_key(id) ==> live(self.tubes@, self.jv()[id].tube),
            forall|c: ConnId| #[trigger]
                self.conns@.contains_key(c) ==> live(self.tubes@, self.conns@[c].use_tube)
                    && self.conns@[c].watch@.items.no_duplicates(),
            forall|c: ConnId, i: int|
                self.conns@.contains_key(c) && 0 <= i < self.conns@[c].watch@.items.len() ==> live(
                    self.tubes@,
                    #[trigger] self.conns@[c].watch@.items[i],
                ),
        ensures
            r@.len() == self.tubes@.len(),
            forall|t: TubeId| t < r@.len() ==> self.is_count_of(#[trigger] r@[t as int], t),
    {
        let mut by_tube: Vec<TubeCount> = no_counts(self.tubes.len());
        let _ = self.recount_jobs(&mut by_tube);
        let _ = self.recount_conns(&mut by_tube);
        by_tube
    }

    /// Whether `n` is what is counted of tube `t`.
    pub(super) open spec fn is_count_of(&self, n: TubeCount, t: TubeId) -> bool {
        &&& n.jobs == count_jobs(self.jv(), JobSel::InTube(t))
        &&& n.urgent == count_jobs(self.jv(), JobSel::UrgentIn(t))
        &&& n.reserved == count_jobs(self.jv(), JobSel::ReservedIn(t))
        &&& n.using == count_conns(self.cv(), ConnSel::Uses(t))
        &&& n.watching == count_conns(self.cv(), ConnSel::Watches(t))
    }

    /// Checks the stored counters of tube `t`, that something refers to it unless
    /// it is "default", what it records of its own lists, and that it is paused if
    /// it has both waiting connections and ready jobs.
    pub(super) fn check_tube_counts(&self, x: &TubeState, t: TubeId, c: &TubeCount) -> (r: Result<
        (),
        TubeFault,
    >)
        requires
            live(self.tubes@, t),
            at(self.tubes@, t) == *x,
            self.is_count_of(*c, t),
            TubeFault::clear_below(self.parts(), t, 5),
        ensures
            r is Ok ==> self.tube_counted(t),
            r is Ok ==> forall|g: TubeFault| !(#[trigger] g.upsets(self.parts(), t)),
            r is Err ==> (r->Err_0).first_in(self.parts(), t),
    {
        broadcast use {crate::ordset::group_ordered, vstd::std_specs::btree::group_btree_axioms};

        if x.stat.urgent_ct != c.urgent {
            return Err(TubeFault::Urgent { count: x.stat.urgent_ct, found: c.urgent });
        }
        if x.stat.buried_ct != x.buried.len() as u64 {
            return Err(TubeFault::Buried);
        }
        if x.stat.reserved_ct != c.reserved {
            return Err(TubeFault::Reserved);
        }
        if x.stat.waiting_ct != x.waiting_conns.items.len() as u64 {
            return Err(TubeFault::Waiting);
        }
        if x.using_ct as u64 != c.using {
            return Err(TubeFault::Using);
        }
        if x.watching_ct as u64 != c.watching {
            return Err(TubeFault::Watching);
        }
        if x.job_ref_ct != c.jobs {
            return Err(TubeFault::Jobs);
        }
        if t != 0 && c.jobs == 0 && c.using == 0 && c.watching == 0 {
            return Err(TubeFault::Unreferenced);
        }
        assert(TubeFault::clear_below(self.parts(), t, 13));
        let head = match (first_pair(&x.delayed), x.delay_head) {
            (Some(p), Some(d)) => p.0 == d,
            (None, None) => true,
            _ => false,
        };
        if !head {
            return Err(TubeFault::DelayHead);
        }
        let flag = x.waiting_conns.items.len() > 0 && !x.ready.is_empty();
        if x.dispatchable != flag {
            return Err(TubeFault::Flag);
        }
        if flag && x.pause == 0 {
            return Err(TubeFault::NotPaused);
        }
        Ok(())
    }

    /// Checks what is recorded of all connections.
    pub(super) fn check_conns(&self) -> (r: Result<(), ConnsFault>)
        requires
            forall|c: ConnId| #[trigger]
                self.conns@.contains_key(c) ==> live(self.tubes@, self.conns@[c].use_tube)
                    && self.conns@[c].watch@.items.no_duplicates(),
            forall|c: ConnId, i: int|
                self.conns@.contains_key(c) && 0 <= i < self.conns@[c].watch@.items.len() ==> live(
                    self.tubes@,
                    #[trigger] self.conns@[c].watch@.items[i],
                ),
        ensures
            r is Ok ==> conn_tallies_ok(self.tallies, self.cv()) && self.tot_conns
                >= self.tallies.cur_conns && self.conn_ticks@ == ticks_of(self.conns@),
            r is Ok ==> forall|g: ConnsFault| !(#[trigger] g.upsets(self.parts())),
            r is Err ==> (r->Err_0).first_in(self.parts()),
    {
        broadcast use {crate::ordset::group_ordered, vstd::std_specs::btree::group_btree_axioms};

        if !self.ticks_right() {
            return Err(ConnsFault::Ticks);
        }
        let mut by_tube: Vec<TubeCount> = no_counts(self.tubes.len());
        let conns = self.recount_conns(&mut by_tube);
        let k = &self.tallies;
        proof {
            assert(self.cv().dom() =~= self.conns@.dom());
        }
        if k.cur_conns as u64 != self.conns.len() as u64 {
            return Err(
                ConnsFault::Current { count: k.cur_conns as u64, conns: self.conns.len() },
            );
        }
        if self.tot_conns < k.cur_conns {
            return Err(ConnsFault::Total);
        }
        if k.cur_producers as u64 != conns.producers {
            return Err(
                ConnsFault::Producers { count: k.cur_producers as u64, found: conns.producers },
            );
        }
        if k.cur_workers as u64 != conns.workers {
            return Err(ConnsFault::Workers { count: k.cur_workers as u64, found: conns.workers });
        }
        if k.waiting_ct != conns.waiting {
            return Err(ConnsFault::Waiting { count: k.waiting_ct, found: conns.waiting });
        }
        Ok(())
    }

    /// Checks what is recorded of all jobs and tubes.
    pub(super) fn check_sum(&self) -> (r: Result<(), SumFault>)
        requires
            forall|id: JobId| #[trigger]
                self.jv().contains_key(id) ==> live(self.tubes@, self.jv()[id].tube),
            forall|t: TubeId| #[trigger]
                live(self.tubes@, t) ==> lists_sound(at(self.tubes@, t), t, self.jv()),
            self.tallies.reserved_ct == count_jobs(self.jv(), JobSel::Reserved),
        ensures
            r is Ok ==> forall|id: JobId| #[trigger]
                self.jv().contains_key(id) && self.jv()[id].state == JobState::Buried ==> queued(
                    self.jv(),
                    self.tubes@,
                    id,
                ),
            r is Ok ==> job_tallies_ok(self.tallies, self.jv()),
            r is Ok ==> self.delay_heads@ == heads_of(self.tubes@) && self.pauses@ == pauses_of(
                self.tubes@,
            ) && self.dispatchable@ == dispatchable_of(self.tubes@),
            r is Err ==> (r->Err_0).first_in(self.parts()),
    {
        match self.check_buried() {
            Ok(()) => {},
            Err(f) => {
                return Err(f);
            },
        }
        let mut by_tube: Vec<TubeCount> = no_counts(self.tubes.len());
        let jobs = self.recount_jobs(&mut by_tube);
        let k = &self.tallies;
        if k.ready_ct != jobs.ready {
            return Err(SumFault::Ready { count: k.ready_ct, found: jobs.ready });
        }
        if k.urgent_ct != jobs.urgent {
            return Err(SumFault::Urgent { count: k.urgent_ct, found: jobs.urgent });
        }
        if k.delayed_ct != jobs.delayed {
            return Err(SumFault::Delayed { count: k.delayed_ct, found: jobs.delayed });
        }
        if k.buried_ct != jobs.buried {
            return Err(SumFault::Buried { count: k.buried_ct, found: jobs.buried });
        }
        assert(SumFault::clear_below(self.parts(), 5));
        self.check_indexes()
    }

    /// Whether the index of ticks is right.
    fn ticks_right(&self) -> (r: bool)
        ensures
            r == (self.conn_ticks@ == ticks_of(self.conns@)),
    {
        broadcast use {crate::ordset::group_ordered, vstd::std_specs::btree::group_btree_axioms};

        let keys: Vec<ConnId> = keys_of(&self.conns);
        let n: usize = keys.len();
        let mut ticks: BTreeSet<(Nanos, ConnId)> = BTreeSet::new();
        let mut i: usize = 0;
        while i < n
            invariant
                i <= n,
                n == keys@.len(),
                keys@.to_set() == self.conns@.dom(),
                forall|p: (Nanos, ConnId)| #[trigger]
                    ticks@.contains(p) <==> ticks_of(self.conns@).contains(p) && exists|a: int|
                        0 <= a < i && #[trigger] keys@[a] == p.1,
            decreases n - i,
        {
            let c: ConnId = keys[i];
            let ghost before = ticks@;
            proof {
                assert(keys@.to_set().contains(keys@[i as int]));
                assert(self.conns@.contains_key(c));
                assert(keys@[i as int] == c);
            }
            match self.conns.get(&c) {
                Some(x) => match x.tick_key {
                    Some(k) => {
                        let _ = ticks.insert((k, c));
                    },
                    None => {},
                },
                None => {},
            }
            proof {
                assert forall|p: (Nanos, ConnId)| #[trigger]
                    ticks@.contains(p) <==> ticks_of(self.conns@).contains(p) && exists|a: int|
                        0 <= a < i + 1 && #[trigger] keys@[a] == p.1 by {
                    if p.1 == c {
                        assert(keys@[i as int] == p.1);
                    }
                    if before.contains(p) {
                        let a = choose|a: int| 0 <= a < i && #[trigger] keys@[a] == p.1;
                        assert(0 <= a < i + 1);
                    }
                }
            }
            i = i + 1;
        }
        assert(ticks@ =~= ticks_of(self.conns@)) by {
            assert forall|p: (Nanos, ConnId)| ticks_of(self.conns@).contains(p) implies exists|
                a: int,
            |
                0 <= a < i && #[trigger] keys@[a] == p.1 by {
                assert(keys@.to_set().contains(p.1));
                assert(keys@[keys@.index_of(p.1)] == p.1);
            }
        }
        same_set(&self.conn_ticks, &ticks)
    }

    /// Checks the indexes of delayed jobs, of pauses and of dispatchable tubes.
    fn check_indexes(&self) -> (r: Result<(), SumFault>)
        requires
            SumFault::clear_below(self.parts(), 5),
        ensures
            r is Ok ==> self.delay_heads@ == heads_of(self.tubes@) && self.pauses@ == pauses_of(
                self.tubes@,
            ) && self.dispatchable@ == dispatchable_of(self.tubes@),
            r is Err ==> (r->Err_0).first_in(self.parts()),
    {
        broadcast use {crate::ordset::group_ordered, vstd::std_specs::btree::group_btree_axioms};

        let n: usize = self.tubes.len();
        let mut heads: BTreeSet<(Nanos, TubeId)> = BTreeSet::new();
        let mut pauses: BTreeSet<(Nanos, TubeId)> = BTreeSet::new();
        let mut flagged: BTreeSet<TubeId> = BTreeSet::new();
        let mut i: usize = 0;
        while i < n
            invariant
                i <= n,
                n == self.tubes@.len(),
                forall|p: (Nanos, TubeId)| #[trigger]
                    heads@.contains(p) <==> p.1 < i && heads_of(self.tubes@).contains(p),
                forall|p: (Nanos, TubeId)| #[trigger]
                    pauses@.contains(p) <==> p.1 < i && pauses_of(self.tubes@).contains(p),
                forall|t: TubeId| #[trigger]
                    flagged@.contains(t) <==> t < i && dispatchable_of(self.tubes@).contains(t),
            decreases n - i,
        {
            match &self.tubes[i] {
                Some(x) => {
                    assert(live(self.tubes@, i));
                    match x.delay_head {
                        Some(d) => {
                            let _ = heads.insert((d, i));
                        },
                        None => {},
                    }
                    if x.pause > 0 {
                        let _ = pauses.insert((x.unpause_at, i));
                    }
                    if x.dispatchable {
                        let _ = flagged.insert(i);
                    }
                },
                None => {
                    assert(!live(self.tubes@, i));
                },
            }
            i = i + 1;
        }
        assert(heads@ =~= heads_of(self.tubes@));
        assert(pauses@ =~= pauses_of(self.tubes@));
        assert(flagged@ =~= dispatchable_of(self.tubes@));
        if !same_set(&self.delay_heads, &heads) {
            return Err(SumFault::DelayHeads);
        }
        if !same_set(&self.pauses, &pauses) {
            return Err(SumFault::Pauses);
        }
        if !same_set(&self.dispatchable, &flagged) {
            return Err(SumFault::Dispatchable);
        }
        Ok(())
    }
}

} // verus!
