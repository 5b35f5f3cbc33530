//! What the engine reports: stats, lists of tubes, and snapshots.

use super::dispatch::bump_u64;
use super::Engine;
use crate::api::{send, sent, ConnId, Nanos, Outbox, Snapshot, SysSnapshot, NANOS_PER_SEC};
use crate::inv::{at, conn_ok, live, tube_ok};
use crate::model::{JobState, JobView, TubeId};
use crate::proto::{JobId, Response, TubeName};
use crate::rules::{
    bump, count_conns, count_jobs, delayed_set, picked_jobs, ready_set, ConnSel, JobSel, Model,
    OpCounts,
};
use crate::settle::{lemma_same_core, settled};
use crate::stats::{names_view, yaml_list, StatsJob, StatsServer, StatsTube, StatsTubeView};
use vstd::prelude::*;

verus! {

/// As many entries stand in the set of ready jobs as there are ready jobs.
proof fn lemma_ready_len(jobs: Map<JobId, JobView>, t: TubeId)
    requires
        jobs.dom().finite(),
    ensures
        ready_set(jobs, t).len() == count_jobs(jobs, JobSel::ReadyIn(t)),
{
    let ids = picked_jobs(jobs, JobSel::ReadyIn(t));
    let f = |id: JobId| (jobs[id].pri, id);
    assert(ids.finite());
    assert forall|p: (u32, JobId)| #[trigger] ready_set(jobs, t).contains(p) implies ids.map(
        f,
    ).contains(p) by {
        assert(ids.contains(p.1));
        assert(f(p.1) == p);
    }
    assert(ready_set(jobs, t) =~= ids.map(f));
    vstd::set_lib::lemma_map_size(ids, ready_set(jobs, t), f);
}

/// As many entries stand in the set of delayed jobs as there are delayed jobs.
proof fn lemma_delayed_len(jobs: Map<JobId, JobView>, t: TubeId)
    requires
        jobs.dom().finite(),
    ensures
        delayed_set(jobs, t).len() == count_jobs(jobs, JobSel::DelayedIn(t)),
{
    let ids = picked_jobs(jobs, JobSel::DelayedIn(t));
    let f = |id: JobId| (jobs[id].deadline_at, id);
    assert(ids.finite());
    assert forall|p: (Nanos, JobId)| #[trigger] delayed_set(jobs, t).contains(p) implies ids.map(
        f,
    ).contains(p) by {
        assert(ids.contains(p.1));
        assert(f(p.1) == p);
    }
    assert(delayed_set(jobs, t) =~= ids.map(f));
    vstd::set_lib::lemma_map_size(ids, delayed_set(jobs, t), f);
}

/// The jobs of a finite set, counted state by state.
proof fn lemma_by_state(ids: Set<JobId>, jobs: Map<JobId, JobView>)
    requires
        ids.finite(),
    ensures
        ids.filter(|id: JobId| jobs[id].state == JobState::Ready).len() + ids.filter(
            |id: JobId| jobs[id].state == JobState::Reserved,
        ).len() + ids.filter(|id: JobId| jobs[id].state == JobState::Delayed).len() + ids.filter(
            |id: JobId| jobs[id].state == JobState::Buried,
        ).len() == ids.len(),
{
    let a = ids.filter(|id: JobId| jobs[id].state == JobState::Ready);
    let b = ids.filter(|id: JobId| jobs[id].state == JobState::Reserved);
    let c = ids.filter(|id: JobId| jobs[id].state == JobState::Delayed);
    let d = ids.filter(|id: JobId| jobs[id].state == JobState::Buried);
    vstd::set_lib::lemma_set_disjoint_lens(a, b);
    vstd::set_lib::lemma_set_disjoint_lens(a + b, c);
    vstd::set_lib::lemma_set_disjoint_lens(a + b + c, d);
    assert(a + b + c + d =~= ids);
}

/// Whole seconds from `a` to `b`; 0 if `b` comes first.
fn seconds_between(a: Nanos, b: Nanos) -> (r: u64)
    ensures
        r == Model::seconds_between(a, b),
{
    b.saturating_sub(a) / NANOS_PER_SEC
}

/// The reports as plain values.
pub open spec fn reports_view(tubes: Seq<StatsTube>) -> Seq<StatsTubeView> {
    tubes.map_values(|t: StatsTube| t@)
}

impl Model {
    /// Whether `r` is what the monitoring endpoints report at `now`, of at most
    /// `max_tubes` tubes, on a host that says `sys` of itself.
    pub open spec fn shown_by(
        self,
        now: Nanos,
        max_tubes: usize,
        sys: SysSnapshot,
        r: Snapshot,
    ) -> bool {
        let all = self.order.items.map_values(|t: TubeId| self.tube_stats(t, now));
        &&& r.server == self.server_stats(now, sys)
        &&& reports_view(r.tubes@) == all.take(
            if max_tubes < all.len() {
                max_tubes as int
            } else {
                all.len() as int
            },
        )
    }
}

impl Engine {
    /// The name of tube `tid`.
    fn tube_name(&self, tid: TubeId) -> (r: TubeName)
        requires
            self.wf(),
            live(self.tubes@, tid),
        ensures
            r@ == self@.tube(tid).name,
    {
        match &self.tubes[tid] {
            Some(t) => t.name.clone(),
            None => TubeName::default_tube(),
        }
    }

    /// The names of the tubes `tids`.
    fn names(&self, tids: &Vec<TubeId>) -> (r: Vec<TubeName>)
        requires
            self.wf(),
            forall|i: int| 0 <= i < tids@.len() ==> live(self.tubes@, #[trigger] tids@[i]),
        ensures
            names_view(r@) == self@.names_of(tids@),
    {
        let n: usize = tids.len();
        let mut r: Vec<TubeName> = Vec::new();
        let mut i: usize = 0;
        while i < n
            invariant
                i <= n,
                n == tids@.len(),
                self.wf(),
                forall|k: int| 0 <= k < tids@.len() ==> live(self.tubes@, #[trigger] tids@[k]),
                names_view(r@) == self@.names_of(tids@.take(i as int)),
            decreases n - i,
        {
            assert(live(self.tubes@, tids@[i as int]));
            let ghost before = r@;
            r.push(self.tube_name(tids[i]));
            proof {
                let now = tids@.take(i + 1);
                assert(now =~= tids@.take(i as int).push(tids@[i as int]));
                assert(names_view(r@) =~= names_view(before).push(r@.last()@));
                assert(self@.names_of(now) =~= self@.names_of(tids@.take(i as int)).push(
                    self@.tube(tids@[i as int]).name,
                ));
            }
            i = i + 1;
        }
        assert(tids@.take(n as int) =~= tids@);
        r
    }

    /// The names of all tubes, in the order of list-tubes.
    pub fn tube_names(&self) -> (r: Vec<TubeName>)
        requires
            self.wf(),
        ensures
            names_view(r@) == self@.names_of(self@.order.items),
    {
        self.names(&self.tube_order.items)
    }

    /// The names of the tubes that connection `cid` watches.
    pub fn watched_tube_names(&self, cid: ConnId) -> (r: Vec<TubeName>)
        requires
            self.wf(),
        ensures
            names_view(r@) == (if self@.conns.contains_key(cid) {
                self@.names_of(self@.conns[cid].watch.items)
            } else {
                Seq::empty()
            }),
    {
        broadcast use {crate::ordset::group_ordered, vstd::std_specs::btree::group_btree_axioms};

        match self.conns.get(&cid) {
            Some(c) => {
                assert(conn_ok(self.conns@[cid], cid, self.next_job_id, self.tubes@, self.jv()));
                self.names(&c.watch.items)
            },
            None => {
                let r: Vec<TubeName> = Vec::new();
                assert(names_view(r@) =~= Seq::empty());
                r
            },
        }
    }

    /// What stats-job reports of job `id`.
    pub fn build_stats_job(&self, id: JobId, now: Nanos) -> (r: Option<StatsJob>)
        requires
            self.wf(),
        ensures
            match r {
                Some(s) => self@.jobs.contains_key(id) && s@ == self@.job_stats(id, now),
                None => !self@.jobs.contains_key(id),
            },
    {
        broadcast use {crate::ordset::group_ordered, vstd::std_specs::btree::group_btree_axioms};

        match self.jobs.get(&id) {
            None => None,
            Some(j) => {
                proof {
                    assert(self.jv().contains_key(id));
                    assert(live(self.tubes@, j.tube));
                }
                let time_left: u64 = match j.state {
                    JobState::Reserved => seconds_between(now, j.deadline_at),
                    JobState::Delayed => seconds_between(now, j.deadline_at),
                    JobState::Ready => 0,
                    JobState::Buried => 0,
                };
                Some(
                    StatsJob {
                        id: j.id,
                        tube: self.tube_name(j.tube),
                        state: j.state_name(),
                        pri: j.pri,
                        age: seconds_between(j.created_at, now),
                        delay: j.delay as u64,
                        ttr: j.ttr as u64,
                        time_left,
                        file: j.file,
                        reserves: j.reserve_ct as u64,
                        timeouts: j.timeout_ct as u64,
                        releases: j.release_ct as u64,
                        buries: j.bury_ct as u64,
                        kicks: j.kick_ct as u64,
                    },
                )
            },
        }
    }

    /// What stats-tube reports of the tube in slot `tid`.
    fn stats_tube_of(&self, tid: TubeId, now: Nanos) -> (r: Option<StatsTube>)
        requires
            self.wf(),
        ensures
            match r {
                Some(s) => self@.live(tid) && s@ == self@.tube_stats(tid, now),
                None => !self@.live(tid),
            },
    {
        broadcast use {crate::ordset::group_ordered, vstd::std_specs::btree::group_btree_axioms};

        if tid >= self.tubes.len() {
            return None;
        }
        match &self.tubes[tid] {
            None => None,
            Some(t) => {
                proof {
                    assert(live(self.tubes@, tid));
                    assert(tube_ok(at(self.tubes@, tid), tid, self.jv(), self.cv()));
                    assert(self.jobs@.dom().finite());
                    assert(self@.jobs.dom() =~= self.jobs@.dom());
                    lemma_ready_len(self@.jobs, tid);
                    lemma_delayed_len(self@.jobs, tid);
                }
                let pause_time_left: u64 = if t.pause > 0 {
                    seconds_between(now, t.unpause_at)
                } else {
                    0
                };
                Some(
                    StatsTube {
                        name: t.name.clone(),
                        current_jobs_urgent: t.stat.urgent_ct,
                        current_jobs_ready: t.ready.len() as u64,
                        current_jobs_reserved: t.stat.reserved_ct,
                        current_jobs_delayed: t.delayed.len() as u64,
                        current_jobs_buried: t.stat.buried_ct,
                        total_jobs: t.stat.total_jobs_ct,
                        current_using: t.using_ct as u64,
                        current_watching: t.watching_ct as u64,
                        current_waiting: t.stat.waiting_ct,
                        cmd_delete: t.stat.total_delete_ct,
                        cmd_pause_tube: t.stat.pause_ct,
                        pause: t.pause / NANOS_PER_SEC,
                        pause_time_left,
                    },
                )
            },
        }
    }

    /// What stats-tube reports of the tube called `name`.
    pub fn build_stats_tube(&self, name: &TubeName, now: Nanos) -> (r: Option<StatsTube>)
        requires
            self.wf(),
        ensures
            match r {
                Some(s) => self@.tube_named(name@) is Some && s@ == self@.tube_stats(
                    self@.tube_named(name@)->0,
                    now,
                ),
                None => self@.tube_named(name@) is None,
            },
    {
        match self.find_tube(name) {
            Some(tid) => self.stats_tube_of(tid, now),
            None => None,
        }
    }

    /// What stats reports, given what the host says of itself.
    pub fn stats_server_with(&self, now: Nanos, sys: SysSnapshot) -> (r: StatsServer)
        requires
            self.wf(),
        ensures
            r == self@.server_stats(now, sys),
    {
        StatsServer {
            current_jobs_urgent: self.tallies.urgent_ct,
            current_jobs_ready: self.tallies.ready_ct,
            current_jobs_reserved: self.tallies.reserved_ct,
            current_jobs_delayed: self.tallies.delayed_ct,
            current_jobs_buried: self.tallies.buried_ct,
            cmd_put: self.ops.cmd_put,
            cmd_peek: self.ops.cmd_peek,
            cmd_peek_ready: self.ops.cmd_peek_ready,
            cmd_peek_delayed: self.ops.cmd_peek_delayed,
            cmd_peek_buried: self.ops.cmd_peek_buried,
            cmd_reserve: self.ops.cmd_reserve,
            cmd_reserve_with_timeout: self.ops.cmd_reserve_with_timeout,
            cmd_delete: self.ops.cmd_delete,
            cmd_release: self.ops.cmd_release,
            cmd_use: self.ops.cmd_use,
            cmd_watch: self.ops.cmd_watch,
            cmd_ignore: self.ops.cmd_ignore,
            cmd_bury: self.ops.cmd_bury,
            cmd_kick: self.ops.cmd_kick,
            cmd_touch: self.ops.cmd_touch,
            cmd_stats: self.ops.cmd_stats,
            cmd_stats_job: self.ops.cmd_stats_job,
            cmd_stats_tube: self.ops.cmd_stats_tube,
            cmd_list_tubes: self.ops.cmd_list_tubes,
            cmd_list_tube_used: self.ops.cmd_list_tube_used,
            cmd_list_tubes_watched: self.ops.cmd_list_tubes_watched,
            cmd_pause_tube: self.ops.cmd_pause_tube,
            job_timeouts: self.timeout_ct,
            total_jobs: self.total_jobs_ct,
            max_job_size: self.cfg.max_job_size as u64,
            current_tubes: self.tube_order.len() as u64,
            current_connections: self.tallies.cur_conns as u64,
            current_producers: self.tallies.cur_producers as u64,
            current_workers: self.tallies.cur_workers as u64,
            current_waiting: self.tallies.waiting_ct,
            total_connections: self.tot_conns as u64,
            pid: sys.pid,
            version: sys.version,
            rusage_utime: sys.rusage_utime,
            rusage_stime: sys.rusage_stime,
            uptime: seconds_between(self.start, now),
            binlog_oldest_index: self.binlog.oldest_index,
            binlog_current_index: self.binlog.current_index,
            binlog_records_migrated: self.binlog.records_migrated,
            binlog_records_written: self.binlog.records_written,
            binlog_max_size: self.cfg.binlog_max_size,
            draining: self.draining,
            id: sys.id,
            hostname: sys.hostname,
            os: sys.os,
            platform: sys.platform,
        }
    }

    /// What stats reports.
    pub fn build_stats_server(&self, now: Nanos) -> (r: StatsServer)
        requires
            self.wf(),
        ensures
            exists|sys: SysSnapshot|
                self.host()(sys) && r == #[trigger] self@.server_stats(now, sys),
    {
        let sys = self.sys.it.snapshot();
        self.stats_server_with(now, sys)
    }

    /// What the monitoring endpoints report: `server` is what stats would
    /// report at `now`, before that command's own count, and `tubes` is what
    /// stats-tube would report of every tube, in the order of list-tubes.
    /// Nothing changes.
    pub fn snapshot(&self, now: Nanos) -> (r: Snapshot)
        requires
            self.wf(),
        ensures
            exists|sys: SysSnapshot|
                self.host()(sys) && #[trigger] self@.shown_by(now, usize::MAX, sys, r),
            reports_view(r.tubes@) == self@.order.items.map_values(
                |t: TubeId| self@.tube_stats(t, now),
            ),
    {
        let r = self.snapshot_limited(now, usize::MAX);
        proof {
            let all = self@.order.items.map_values(|t: TubeId| self@.tube_stats(t, now));
            assert(self.tube_order.items.len() == self.tube_order.items@.len());
            assert(all.take(all.len() as int) =~= all);
        }
        r
    }

    /// Like `snapshot`, but `tubes` holds only the first `max_tubes` tubes, so
    /// the work done is bounded by `max_tubes` rather than by the number of
    /// tubes. `server` is complete.
    pub fn snapshot_limited(&self, now: Nanos, max_tubes: usize) -> (r: Snapshot)
        requires
            self.wf(),
        ensures
            exists|sys: SysSnapshot|
                self.host()(sys) && #[trigger] self@.shown_by(now, max_tubes, sys, r),
    {
        let sys = self.sys.it.snapshot();
        self.snapshot_with(now, max_tubes, sys)
    }

    /// As `snapshot_limited`, given what the host says of itself.
    pub fn snapshot_with(&self, now: Nanos, max_tubes: usize, sys: SysSnapshot) -> (r: Snapshot)
        requires
            self.wf(),
        ensures
            self@.shown_by(now, max_tubes, sys, r),
    {
        let server = self.stats_server_with(now, sys);
        let all: usize = self.tube_order.items.len();
        let n: usize = if max_tubes < all {
            max_tubes
        } else {
            all
        };
        let ghost f = |t: TubeId| self@.tube_stats(t, now);
        let ghost o = self@.order.items;
        let mut tubes: Vec<StatsTube> = Vec::new();
        let mut i: usize = 0;
        while i < n
            invariant
                i <= n,
                n <= o.len(),
                o == self.tube_order.items@,
                o == self@.order.items,
                self.wf(),
                f == (|t: TubeId| self@.tube_stats(t, now)),
                reports_view(tubes@) == o.take(i as int).map_values(f),
            decreases n - i,
        {
            let tid: TubeId = self.tube_order.items[i];
            let ghost before = tubes@;
            assert(live(self.tubes@, o[i as int]));
            let report = self.stats_tube_of(tid, now);
            if let Some(s) = report {
                tubes.push(s);
                proof {
                    assert(o.take(i + 1) =~= o.take(i as int).push(tid));
                    assert(reports_view(tubes@) =~= reports_view(before).push(s@));
                    assert(o.take(i + 1).map_values(f) =~= o.take(i as int).map_values(f).push(
                        f(tid),
                    ));
                }
            }
            i = i + 1;
        }
        proof {
            assert(o.take(n as int).map_values(f) =~= o.map_values(f).take(n as int));
        }
        Snapshot { server, tubes }
    }

    /// For one answer of the host, a limited snapshot holds the server's figures
    /// of the full one and its first tubes; one with room for all of them is the
    /// full one.
    pub proof fn limited_snapshot_is_a_prefix(
        self,
        now: Nanos,
        max_tubes: usize,
        sys: SysSnapshot,
        full: Snapshot,
        limited: Snapshot,
    )
        requires
            self@.shown_by(now, usize::MAX, sys, full),
            self@.shown_by(now, max_tubes, sys, limited),
        ensures
            limited.server == full.server,
            limited.tubes@.len() <= max_tubes,
            reports_view(limited.tubes@) == reports_view(full.tubes@).take(
                limited.tubes@.len() as int,
            ),
            full.tubes@.len() <= max_tubes ==> reports_view(limited.tubes@) == reports_view(
                full.tubes@,
            ),
    {
        let all = self@.order.items.map_values(|t: TubeId| self@.tube_stats(t, now));
        let a = reports_view(full.tubes@);
        let b = reports_view(limited.tubes@);
        assert(a.len() == full.tubes@.len() && b.len() == limited.tubes@.len());
        assert(all.take(all.len() as int) =~= all);
        assert(b =~= a.take(b.len() as int));
    }

    /// A snapshot tells of the tubes in the order of list-tubes, each under its name:
    /// of all of them, or of as many as it is to tell of.
    pub proof fn a_snapshot_lists_the_tubes(
        self,
        now: Nanos,
        max_tubes: usize,
        sys: SysSnapshot,
        r: Snapshot,
    )
        requires
            self@.shown_by(now, max_tubes, sys, r),
        ensures
            r.tubes@.len() == (if max_tubes < self@.order.items.len() {
                max_tubes as nat
            } else {
                self@.order.items.len()
            }),
            forall|i: int|
                0 <= i < r.tubes@.len() ==> (#[trigger] r.tubes@[i])@.name == self@.tube(
                    self@.order.items[i],
                ).name,
    {
        let a = reports_view(r.tubes@);
        assert(a.len() == r.tubes@.len());
        assert forall|i: int| 0 <= i < r.tubes@.len() implies (#[trigger] r.tubes@[i])@.name
            == self@.tube(self@.order.items[i]).name by {
            assert(a[i] == r.tubes@[i]@);
        }
    }

    /// The figures of stats are true of the jobs, the tubes and the time. Every job
    /// is counted in exactly one of the four states, so that the four counts add
    /// up to the number of jobs; the urgent jobs are the ready ones with a
    /// priority below 1024; as many tubes are counted as list-tubes names; and
    /// the uptime is the whole seconds since the start, 0 before it.
    pub proof fn server_figures_are_true(self, now: Nanos, sys: SysSnapshot)
        requires
            self.wf(),
        ensures
            ({
                let r = self@.server_stats(now, sys);
                let jobs = self@.jobs;
                &&& r.current_jobs_ready + r.current_jobs_reserved + r.current_jobs_delayed
                    + r.current_jobs_buried == jobs.dom().len()
                &&& r.current_jobs_urgent == jobs.dom().filter(
                    |id: JobId| jobs[id].state == JobState::Ready && jobs[id].pri < 1024,
                ).len()
                &&& r.current_jobs_urgent <= r.current_jobs_ready
                &&& r.current_tubes == self@.names_of(self@.order.items).len()
                &&& r.uptime == (if now >= self@.start {
                    (now - self@.start) / 1_000_000_000
                } else {
                    0
                })
            }),
    {
        broadcast use {crate::ordset::group_ordered, vstd::std_specs::btree::group_btree_axioms};

        let jobs = self@.jobs;
        assert(self.jobs@.dom().finite());
        assert(jobs.dom() =~= self.jobs@.dom());
        lemma_by_state(jobs.dom(), jobs);
        assert(picked_jobs(jobs, JobSel::Ready) =~= jobs.dom().filter(
            |id: JobId| jobs[id].state == JobState::Ready,
        ));
        assert(picked_jobs(jobs, JobSel::Reserved) =~= jobs.dom().filter(
            |id: JobId| jobs[id].state == JobState::Reserved,
        ));
        assert(picked_jobs(jobs, JobSel::Delayed) =~= jobs.dom().filter(
            |id: JobId| jobs[id].state == JobState::Delayed,
        ));
        assert(picked_jobs(jobs, JobSel::Buried) =~= jobs.dom().filter(
            |id: JobId| jobs[id].state == JobState::Buried,
        ));
        assert(picked_jobs(jobs, JobSel::Urgent) =~= jobs.dom().filter(
            |id: JobId| jobs[id].state == JobState::Ready && jobs[id].pri < 1024,
        ));
        vstd::set_lib::lemma_len_subset(
            picked_jobs(jobs, JobSel::Urgent),
            picked_jobs(jobs, JobSel::Ready),
        );
        assert(self.tube_order.items.len() == self.tube_order.items@.len());
    }

    /// What is counted of all jobs, tubes and connections fits in 64 bits.
    pub proof fn server_counts_fit(self)
        requires
            self.wf(),
        ensures
            count_jobs(self@.jobs, JobSel::Urgent) <= u64::MAX,
            count_jobs(self@.jobs, JobSel::Ready) <= u64::MAX,
            count_jobs(self@.jobs, JobSel::Reserved) <= u64::MAX,
            count_jobs(self@.jobs, JobSel::Delayed) <= u64::MAX,
            count_jobs(self@.jobs, JobSel::Buried) <= u64::MAX,
            count_conns(self@.conns, ConnSel::Producer) <= u64::MAX,
            count_conns(self@.conns, ConnSel::Worker) <= u64::MAX,
            count_conns(self@.conns, ConnSel::Waiting) <= u64::MAX,
            self@.conns.dom().len() <= u64::MAX,
            self@.order.items.len() <= u64::MAX,
    {
        assert(self.tube_order.items.len() == self.tube_order.items@.len());
    }

    /// What is counted of a tube fits in 64 bits.
    pub proof fn tube_counts_fit(self, t: TubeId)
        requires
            self.wf(),
            self@.live(t),
        ensures
            count_jobs(self@.jobs, JobSel::UrgentIn(t)) <= u64::MAX,
            count_jobs(self@.jobs, JobSel::ReadyIn(t)) <= u64::MAX,
            count_jobs(self@.jobs, JobSel::ReservedIn(t)) <= u64::MAX,
            count_jobs(self@.jobs, JobSel::DelayedIn(t)) <= u64::MAX,
            count_conns(self@.conns, ConnSel::Uses(t)) <= u64::MAX,
            count_conns(self@.conns, ConnSel::Watches(t)) <= u64::MAX,
            self@.tube(t).buried.len() <= u64::MAX,
            self@.tube(t).waiting.items.len() <= u64::MAX,
    {
        broadcast use {crate::ordset::group_ordered, vstd::std_specs::btree::group_btree_axioms};

        let jobs = self@.jobs;
        assert(self.jobs@.dom().finite());
        assert(jobs.dom() =~= self.jobs@.dom());
        assert(live(self.tubes@, t));
        let x = at(self.tubes@, t);
        assert(tube_ok(x, t, self.jv(), self.cv()));
        let all = picked_jobs(jobs, JobSel::InTube(t));
        vstd::set_lib::lemma_len_subset(picked_jobs(jobs, JobSel::ReadyIn(t)), all);
        vstd::set_lib::lemma_len_subset(picked_jobs(jobs, JobSel::DelayedIn(t)), all);
    }

    /// The figures of stats-tube are true of the tube's jobs: every job in the
    /// tube is counted in exactly one of the four states.
    pub proof fn tube_figures_are_true(self, t: TubeId, now: Nanos)
        requires
            self.wf(),
            self@.live(t),
        ensures
            ({
                let r = self@.tube_stats(t, now);
                r.current_jobs_ready + r.current_jobs_reserved + r.current_jobs_delayed
                    + r.current_jobs_buried == count_jobs(self@.jobs, JobSel::InTube(t))
            }),
    {
        broadcast use {crate::ordset::group_ordered, vstd::std_specs::btree::group_btree_axioms};

        let jobs = self@.jobs;
        assert(self.jobs@.dom().finite());
        assert(jobs.dom() =~= self.jobs@.dom());
        assert(live(self.tubes@, t));
        let x = at(self.tubes@, t);
        assert(tube_ok(x, t, self.jv(), self.cv()));
        let ids = picked_jobs(jobs, JobSel::InTube(t));
        lemma_by_state(ids, jobs);
        assert(picked_jobs(jobs, JobSel::ReadyIn(t)) =~= ids.filter(
            |id: JobId| jobs[id].state == JobState::Ready,
        ));
        assert(picked_jobs(jobs, JobSel::ReservedIn(t)) =~= ids.filter(
            |id: JobId| jobs[id].state == JobState::Reserved,
        ));
        assert(picked_jobs(jobs, JobSel::DelayedIn(t)) =~= ids.filter(
            |id: JobId| jobs[id].state == JobState::Delayed,
        ));
        assert(x.buried@.to_set() =~= ids.filter(
            |id: JobId| jobs[id].state == JobState::Buried,
        ));
        x.buried@.unique_seq_to_set();
    }

    /// stats-job
    pub(super) fn cmd_stats_job(&mut self, now: Nanos, cid: ConnId, id: JobId, out: &mut Outbox)
        requires
            old(self).wf(),
            settled(old(self)@),
            old(self)@.conns.contains_key(cid),
        ensures
            final(self).host() == old(self).host(),
            final(self).wf(),
            settled(final(self)@),
            (final(self)@, sent(final(out)@)) == old(self)@.cmd_stats_job(now, cid, id, sent(old(out)@)),
    {
        broadcast use {crate::ordset::group_ordered, vstd::std_specs::btree::group_btree_axioms};

        self.ops.cmd_stats_job = bump_u64(self.ops.cmd_stats_job);
        proof {
            assert(self.wf());
            assert(self@ =~= (Model {
                ops: OpCounts { cmd_stats_job: bump(old(self)@.ops.cmd_stats_job), ..old(self)@.ops },
                ..old(self)@
            }));
            lemma_same_core(old(self)@, self@);
        }
        match self.build_stats_job(id, now) {
            Some(s) => send(out, cid, Response::OkBody(s.to_yaml())),
            None => send(out, cid, Response::NotFound),
        }
    }

    /// stats-tube
    pub(super) fn cmd_stats_tube(&mut self, now: Nanos, cid: ConnId, tube: TubeName, out: &mut Outbox)
        requires
            old(self).wf(),
            settled(old(self)@),
            old(self)@.conns.contains_key(cid),
        ensures
            final(self).host() == old(self).host(),
            final(self).wf(),
            settled(final(self)@),
            (final(self)@, sent(final(out)@)) == old(self)@.cmd_stats_tube(now, cid, tube@, sent(old(out)@)),
    {
        broadcast use {crate::ordset::group_ordered, vstd::std_specs::btree::group_btree_axioms};

        self.ops.cmd_stats_tube = bump_u64(self.ops.cmd_stats_tube);
        proof {
            assert(self.wf());
            assert(self@ =~= (Model {
                ops: OpCounts { cmd_stats_tube: bump(old(self)@.ops.cmd_stats_tube), ..old(self)@.ops },
                ..old(self)@
            }));
            lemma_same_core(old(self)@, self@);
        }
        match self.build_stats_tube(&tube, now) {
            Some(s) => send(out, cid, Response::OkBody(s.to_yaml())),
            None => send(out, cid, Response::NotFound),
        }
    }

    /// stats
    pub(super) fn cmd_stats(&mut self, now: Nanos, cid: ConnId, out: &mut Outbox)
        requires
            old(self).wf(),
            settled(old(self)@),
            old(self)@.conns.contains_key(cid),
        ensures
            final(self).host() == old(self).host(),
            final(self).wf(),
            settled(final(self)@),
            exists|sys: SysSnapshot|
                old(self).host()(sys) && (final(self)@, sent(final(out)@))
                    == #[trigger] old(self)@.cmd_stats(now, cid, sys, sent(old(out)@)),
    {
        broadcast use {crate::ordset::group_ordered, vstd::std_specs::btree::group_btree_axioms};

        self.ops.cmd_stats = bump_u64(self.ops.cmd_stats);
        proof {
            assert(self.wf());
            assert(self@ =~= (Model {
                ops: OpCounts { cmd_stats: bump(old(self)@.ops.cmd_stats), ..old(self)@.ops },
                ..old(self)@
            }));
            lemma_same_core(old(self)@, self@);
        }
        let sys = self.sys.it.snapshot();
        let s = self.stats_server_with(now, sys);
        send(out, cid, Response::OkBody(s.to_yaml()));
        assert((self@, sent(out@)) == old(self)@.cmd_stats(now, cid, sys, sent(old(out)@)));
    }

    /// list-tubes
    pub(super) fn cmd_list_tubes(&mut self, cid: ConnId, out: &mut Outbox)
        requires
            old(self).wf(),
            settled(old(self)@),
            old(self)@.conns.contains_key(cid),
        ensures
            final(self).host() == old(self).host(),
            final(self).wf(),
            settled(final(self)@),
            (final(self)@, sent(final(out)@)) == old(self)@.cmd_list_tubes(cid, sent(old(out)@)),
    {
        broadcast use {crate::ordset::group_ordered, vstd::std_specs::btree::group_btree_axioms};

        self.ops.cmd_list_tubes = bump_u64(self.ops.cmd_list_tubes);
        proof {
            assert(self.wf());
            assert(self@ =~= (Model {
                ops: OpCounts { cmd_list_tubes: bump(old(self)@.ops.cmd_list_tubes), ..old(self)@.ops },
                ..old(self)@
            }));
            lemma_same_core(old(self)@, self@);
        }
        let names = self.tube_names();
        send(out, cid, Response::OkBody(yaml_list(names.as_slice())));
    }

    /// list-tube-used
    pub(super) fn cmd_list_tube_used(&mut self, cid: ConnId, out: &mut Outbox)
        requires
            old(self).wf(),
            settled(old(self)@),
            old(self)@.conns.contains_key(cid),
        ensures
            final(self).host() == old(self).host(),
            final(self).wf(),
            settled(final(self)@),
            (final(self)@, sent(final(out)@)) == old(self)@.cmd_list_tube_used(cid, sent(old(out)@)),
    {
        broadcast use {crate::ordset::group_ordered, vstd::std_specs::btree::group_btree_axioms};

        self.ops.cmd_list_tube_used = bump_u64(self.ops.cmd_list_tube_used);
        proof {
            assert(self.wf());
            assert(self@ =~= (Model {
                ops: OpCounts { cmd_list_tube_used: bump(old(self)@.ops.cmd_list_tube_used), ..old(self)@.ops },
                ..old(self)@
            }));
            lemma_same_core(old(self)@, self@);
        }
        let tid: TubeId = self.use_tube_of(cid);
        let name = self.tube_name(tid);
        send(out, cid, Response::Using(name));
    }

    /// list-tubes-watched
    pub(super) fn cmd_list_tubes_watched(&mut self, cid: ConnId, out: &mut Outbox)
        requires
            old(self).wf(),
            settled(old(self)@),
            old(self)@.conns.contains_key(cid),
        ensures
            final(self).host() == old(self).host(),
            final(self).wf(),
            settled(final(self)@),
            (final(self)@, sent(final(out)@)) == old(self)@.cmd_list_tubes_watched(cid, sent(old(out)@)),
    {
        broadcast use {crate::ordset::group_ordered, vstd::std_specs::btree::group_btree_axioms};

        self.ops.cmd_list_tubes_watched = bump_u64(self.ops.cmd_list_tubes_watched);
        proof {
            assert(self.wf());
            assert(self@ =~= (Model {
                ops: OpCounts { cmd_list_tubes_watched: bump(old(self)@.ops.cmd_list_tubes_watched), ..old(self)@.ops },
                ..old(self)@
            }));
            lemma_same_core(old(self)@, self@);
        }
        let names = self.watched_tube_names(cid);
        send(out, cid, Response::OkBody(yaml_list(names.as_slice())));
    }
}

} // verus!
