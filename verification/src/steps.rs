//! The steps of the queue: what each command, and each other event, does to a
//! `Model`, and the replies that it sends.

use crate::api::{
    BinlogStats, ConnId, EngineConfig, EngineInput, EntryView, Nanos, RecordState, RecoveredView,
    SysSnapshot, NANOS_PER_SEC,
};
use crate::model::{state_text, ConnView, JobState, JobView, PendingPut, TubeId, TubeView};
use crate::ms::{swap_remove, MsView};
use crate::proto::{default_name, CommandView, JobId, PutRejection, ResponseView};
use crate::rules::{
    bump, bump32, count_conns, count_jobs, delayed_set, later, least, ConnSel, JobSel, Model,
    OpCounts, Out, DEFAULT_TUBE,
};
use crate::stats::{
    job_yaml, list_yaml, server_yaml, tube_yaml, StatsJobView, StatsServer, StatsTubeView,
};
use vstd::prelude::*;

verus! {

impl Model {
    /// A connection is made.
    pub open spec fn connect(self, c: ConnId) -> Model {
        Model {
            conns: self.conns.insert(c, ConnView::fresh()),
            tot_conns: (self.tot_conns + 1) as u32,
            ..self
        }
    }

    /// Each of `ids`, from the `i`-th on, is made ready, with jobs handed out
    /// after each.
    pub open spec fn give_back(self, ids: Seq<JobId>, i: nat, now: Nanos, out: Out) -> (Model, Out)
        decreases ids.len() - i,
    {
        if i >= ids.len() {
            (self, out)
        } else {
            let (m, o) = self.readying(ids[i as int]).process_queue(now, out);
            m.give_back(ids, i + 1, now, o)
        }
    }

    /// Connection `c` watches the first tube of its list no longer, over and
    /// over until none is left; each tube is destroyed if nothing else refers
    /// to it.
    pub open spec fn unwatch_all(self, c: ConnId) -> Model
        decreases self.conns[c].watch.items.len(),
    {
        let w = self.conns[c].watch;
        if w.items.len() == 0 {
            self
        } else {
            let m = self.with_conn(
                c,
                ConnView {
                    watch: MsView { items: swap_remove(w.items, 0), ..w },
                    ..self.conns[c]
                },
            ).collecting(w.items[0]);
            if m.conns[c].watch.items.len() < w.items.len() {
                m.unwatch_all(c)
            } else {
                m
            }
        }
    }

    /// Connection `c` closes: its jobs become ready again, the oldest
    /// reservation first, and the tubes that it alone referred to go.
    pub open spec fn disconnect(self, c: ConnId, now: Nanos, out: Out) -> (Model, Out) {
        if !self.conns.contains_key(c) {
            (self, out)
        } else {
            let m1 = self.stop_waiting(c);
            let (m2, o2) = m1.give_back(m1.conns[c].reserved, 0, now, out);
            let m3 = m2.unwatch_all(c);
            (
                (Model { conns: m3.conns.remove(c), ..m3 }).collecting(m3.conns[c].use_tube),
                o2,
            )
        }
    }

    /// Connection `c` will send nothing more: a wait of its is over.
    pub open spec fn half_close(self, c: ConnId, out: Out) -> (Model, Out) {
        if self.conns.contains_key(c) && self.conns[c].waiting {
            (self.stop_waiting(c), out.push((c, ResponseView::TimedOut)))
        } else {
            (self, out)
        }
    }

    /// The command line of a put has arrived: it is counted and, unless its
    /// body is too big, the connection becomes a producer and a job id is
    /// handed out.
    pub open spec fn put_started(self, c: ConnId, now: Nanos, too_big: bool) -> Model {
        if !self.conns.contains_key(c) {
            self
        } else if too_big {
            let m = self.count_put();
            m.with_conn(
                c,
                ConnView {
                    pending_put: Some(PendingPut { id: None, created_at: now }),
                    ..m.conns[c]
                },
            )
        } else {
            let m = self.count_put().producer(c).id_taken();
            m.with_conn(
                c,
                ConnView {
                    pending_put: Some(PendingPut { id: Some(self.next_job_id), created_at: now }),
                    ..m.conns[c]
                },
            )
        }
    }

    /// A put was rejected. What `put_started` has already done for it is not
    /// done again.
    pub open spec fn put_rejected(self, c: ConnId, why: PutRejection, out: Out) -> (Model, Out) {
        if !self.conns.contains_key(c) {
            (self, out)
        } else {
            let m = self.with_conn(c, ConnView { pending_put: None, ..self.conns[c] });
            let n = if self.conns[c].pending_put is Some {
                m
            } else if why == PutRejection::ExpectedCrlf || why == PutRejection::OutOfMemory {
                m.count_put().producer(c).id_taken()
            } else {
                m.count_put()
            };
            (n, out.push((c, why.reply())))
        }
    }

    /// A put's command line takes effect, unless `put_started` has seen to that.
    pub open spec fn put_accepted(self, c: ConnId) -> Model {
        let p = self.conns[c].pending_put;
        let m = self.with_conn(c, ConnView { pending_put: None, ..self.conns[c] });
        if p is Some && p->0.id is Some {
            m
        } else {
            m.count_put().producer(c).id_taken()
        }
    }

    /// put
    pub open spec fn cmd_put(
        self,
        now: Nanos,
        c: ConnId,
        pri: u32,
        delay: u32,
        ttr: u32,
        body: Seq<u8>,
        out: Out,
    ) -> (Model, Out) {
        let p = self.conns[c].pending_put;
        let (id, created_at) = if p is Some && p->0.id is Some {
            (p->0.id->0, p->0.created_at)
        } else {
            (self.next_job_id, now)
        };
        let m = self.put_accepted(c);
        if self.draining {
            (m, out.push((c, ResponseView::Draining)))
        } else {
            let t = self.conns[c].use_tube;
            let j = JobView {
                id,
                tube: t,
                pri,
                delay,
                ttr: if ttr == 0 {
                    1
                } else {
                    ttr
                },
                body,
                created_at,
                deadline_at: if delay > 0 {
                    later(now, delay)
                } else {
                    0
                },
                state: if delay > 0 {
                    JobState::Delayed
                } else {
                    JobState::Ready
                },
                reserver: None,
                reserve_ct: 0,
                timeout_ct: 0,
                release_ct: 0,
                bury_ct: 0,
                kick_ct: 0,
                file: if self.cfg.journal {
                    self.binlog.current_index
                } else {
                    0
                },
            };
            let (n, o) = m.with_job(j).journaling_put(id).process_queue(now, out);
            (
                (Model { total_jobs_ct: bump(n.total_jobs_ct), ..n }).with_tube(
                    t,
                    TubeView { total_jobs_ct: bump(n.tube(t).total_jobs_ct), ..n.tube(t) },
                ),
                o.push((c, ResponseView::Inserted(id))),
            )
        }
    }

    /// use
    pub open spec fn cmd_use(self, c: ConnId, name: Seq<u8>, out: Out) -> (Model, Out) {
        let m = Model { ops: OpCounts { cmd_use: bump(self.ops.cmd_use), ..self.ops }, ..self };
        let n = m.making_tube(name);
        let from = n.conns[c].use_tube;
        let to = m.tube_for(name);
        let r = if from == to {
            n
        } else {
            n.with_conn(c, ConnView { use_tube: to, ..n.conns[c] }).collecting(from)
        };
        (r, out.push((c, ResponseView::Using(name))))
    }

    /// watch
    pub open spec fn cmd_watch(self, c: ConnId, name: Seq<u8>, out: Out) -> (Model, Out) {
        let m = Model { ops: OpCounts { cmd_watch: bump(self.ops.cmd_watch), ..self.ops }, ..self };
        let n = m.making_tube(name);
        let t = m.tube_for(name);
        let v = n.conns[c];
        let r = if v.watch.items.contains(t) {
            n
        } else {
            n.with_conn(c, ConnView { watch: v.watch.append(t), ..v })
        };
        (r, out.push((c, ResponseView::Watching(r.conns[c].watch.items.len() as u64))))
    }

    /// ignore
    pub open spec fn cmd_ignore(self, c: ConnId, name: Seq<u8>, out: Out) -> (Model, Out) {
        let m = Model {
            ops: OpCounts { cmd_ignore: bump(self.ops.cmd_ignore), ..self.ops },
            ..self
        };
        let v = m.conns[c];
        let count = ResponseView::Watching(v.watch.items.len() as u64);
        match m.tube_named(name) {
            None => (m, out.push((c, count))),
            Some(t) => if !v.watch.items.contains(t) {
                (m, out.push((c, count)))
            } else if v.watch.items.len() < 2 {
                (m, out.push((c, ResponseView::NotIgnored)))
            } else {
                (
                    m.with_conn(c, ConnView { watch: v.watch.remove(t), ..v }).collecting(t),
                    out.push((c, ResponseView::Watching((v.watch.items.len() - 1) as u64))),
                )
            },
        }
    }

    /// Whether some tube that connection `c` watches has a ready job.
    pub open spec fn ready_for(self, c: ConnId) -> bool {
        exists|id: JobId|
            {
                &&& #[trigger] self.jobs.contains_key(id)
                &&& self.jobs[id].state == JobState::Ready
                &&& self.conns[c].watch.items.contains(self.jobs[id].tube)
            }
    }

    /// reserve and reserve-with-timeout
    pub open spec fn cmd_reserve(
        self,
        now: Nanos,
        c: ConnId,
        timeout: Option<u32>,
        out: Out,
    ) -> (Model, Out) {
        let ops = match timeout {
            None => OpCounts { cmd_reserve: bump(self.ops.cmd_reserve), ..self.ops },
            Some(_) => OpCounts {
                cmd_reserve_with_timeout: bump(self.ops.cmd_reserve_with_timeout),
                ..self.ops
            },
        };
        let m = (Model { ops, ..self }).worker(c);
        if m.deadline_soon(c, now) && !m.ready_for(c) {
            (m, out.push((c, ResponseView::DeadlineSoon)))
        } else {
            let until: Option<Nanos> = match timeout {
                None => None,
                Some(s) => Some(later(now, s)),
            };
            let (n, o) = m.start_waiting(c, until).process_queue(now, out);
            if timeout == Some(0u32) && n.conns[c].waiting {
                (
                    n.stop_waiting(c),
                    o.push(
                        (
                            c,
                            if n.deadline_soon(c, now) {
                                ResponseView::DeadlineSoon
                            } else {
                                ResponseView::TimedOut
                            },
                        ),
                    ),
                )
            } else {
                (n, o)
            }
        }
    }

    /// reserve-job
    pub open spec fn cmd_reserve_job(self, now: Nanos, c: ConnId, id: JobId, out: Out) -> (
        Model,
        Out,
    ) {
        if !self.jobs.contains_key(id) || self.jobs[id].state == JobState::Reserved {
            (self, out.push((c, ResponseView::NotFound)))
        } else {
            (
                self.worker(c).reserving(id, c, now),
                out.push((c, ResponseView::Reserved { id, body: self.jobs[id].body })),
            )
        }
    }

    /// delete
    pub open spec fn cmd_delete(self, c: ConnId, id: JobId, out: Out) -> (Model, Out) {
        let m = Model {
            ops: OpCounts { cmd_delete: bump(self.ops.cmd_delete), ..self.ops },
            ..self
        };
        if !m.jobs.contains_key(id) || (m.jobs[id].state == JobState::Reserved
            && m.jobs[id].reserver != Some(c)) {
            (m, out.push((c, ResponseView::NotFound)))
        } else {
            let t = m.jobs[id].tube;
            let n = m.without_job(id);
            let v = n.tube(t);
            (
                n.with_tube(
                    t,
                    TubeView { total_delete_ct: bump(v.total_delete_ct), ..v },
                ).journaling(EntryView::Delete(id)).collecting(t),
                out.push((c, ResponseView::Deleted)),
            )
        }
    }

    /// Whether connection `c` holds job `id`.
    pub open spec fn holds(self, c: ConnId, id: JobId) -> bool {
        self.jobs.contains_key(id) && self.jobs[id].state == JobState::Reserved
            && self.jobs[id].reserver == Some(c)
    }

    /// release
    pub open spec fn cmd_release(
        self,
        now: Nanos,
        c: ConnId,
        id: JobId,
        pri: u32,
        delay: u32,
        out: Out,
    ) -> (Model, Out) {
        let m = Model {
            ops: OpCounts { cmd_release: bump(self.ops.cmd_release), ..self.ops },
            ..self
        };
        if !m.holds(c, id) {
            (m, out.push((c, ResponseView::NotFound)))
        } else {
            let j = JobView {
                pri,
                delay,
                reserver: None,
                release_ct: bump32(m.jobs[id].release_ct),
                ..m.jobs[id]
            };
            let n = if delay > 0 {
                m.without_job(id).with_job(
                    JobView { state: JobState::Delayed, deadline_at: later(now, delay), ..j },
                ).journaling_update(id)
            } else {
                m.without_job(id).with_job(JobView { state: JobState::Ready, ..j })
            };
            let (r, o) = n.process_queue(now, out);
            (r, o.push((c, ResponseView::Released)))
        }
    }

    /// bury
    pub open spec fn cmd_bury(self, c: ConnId, id: JobId, pri: u32, out: Out) -> (Model, Out) {
        let m = Model { ops: OpCounts { cmd_bury: bump(self.ops.cmd_bury), ..self.ops }, ..self };
        if !m.holds(c, id) {
            (m, out.push((c, ResponseView::NotFound)))
        } else {
            let j = JobView {
                pri,
                state: JobState::Buried,
                reserver: None,
                bury_ct: bump32(m.jobs[id].bury_ct),
                ..m.jobs[id]
            };
            (
                m.without_job(id).with_job(j).journaling_update(id),
                out.push((c, ResponseView::Buried)),
            )
        }
    }

    /// touch
    pub open spec fn cmd_touch(self, now: Nanos, c: ConnId, id: JobId, out: Out) -> (Model, Out) {
        let m = Model { ops: OpCounts { cmd_touch: bump(self.ops.cmd_touch), ..self.ops }, ..self };
        if !m.holds(c, id) {
            (m, out.push((c, ResponseView::NotFound)))
        } else {
            let j = JobView { deadline_at: later(now, m.jobs[id].ttr), ..m.jobs[id] };
            (
                Model { jobs: m.jobs.insert(id, j), ..m },
                out.push((c, ResponseView::Touched)),
            )
        }
    }

    /// The reply that shows job `id`.
    pub open spec fn found(self, id: JobId) -> ResponseView {
        ResponseView::Found { id, body: self.jobs[id].body }
    }

    /// peek
    pub open spec fn cmd_peek(self, c: ConnId, id: JobId, out: Out) -> (Model, Out) {
        let m = Model { ops: OpCounts { cmd_peek: bump(self.ops.cmd_peek), ..self.ops }, ..self };
        if m.jobs.contains_key(id) {
            (m, out.push((c, m.found(id))))
        } else {
            (m, out.push((c, ResponseView::NotFound)))
        }
    }

    /// The ready jobs of tube `t`, each with its priority.
    pub open spec fn ready_in(self, t: TubeId) -> Set<(u64, JobId)> {
        Set::new(
            |p: (u64, JobId)|
                self.jobs.contains_key(p.1) && self.jobs[p.1].state == JobState::Ready
                    && self.jobs[p.1].tube == t && self.jobs[p.1].pri == p.0,
        )
    }

    /// The reply that shows the job that `top` picks, if it picks one.
    pub open spec fn shown(self, top: Option<(u64, JobId)>) -> ResponseView {
        match top {
            Some(p) => self.found(p.1),
            None => ResponseView::NotFound,
        }
    }

    /// peek-ready
    pub open spec fn cmd_peek_ready(self, c: ConnId, out: Out) -> (Model, Out) {
        let m = Model {
            ops: OpCounts { cmd_peek_ready: bump(self.ops.cmd_peek_ready), ..self.ops },
            ..self
        };
        (m, out.push((c, m.shown(least(m.ready_in(m.conns[c].use_tube))))))
    }

    /// peek-delayed
    pub open spec fn cmd_peek_delayed(self, c: ConnId, out: Out) -> (Model, Out) {
        let m = Model {
            ops: OpCounts { cmd_peek_delayed: bump(self.ops.cmd_peek_delayed), ..self.ops },
            ..self
        };
        (m, out.push((c, m.shown(least(delayed_set(m.jobs, m.conns[c].use_tube))))))
    }

    /// peek-buried
    pub open spec fn cmd_peek_buried(self, c: ConnId, out: Out) -> (Model, Out) {
        let m = Model {
            ops: OpCounts { cmd_peek_buried: bump(self.ops.cmd_peek_buried), ..self.ops },
            ..self
        };
        let b = m.tube(m.conns[c].use_tube).buried;
        (
            m,
            out.push(
                (
                    c,
                    if b.len() > 0 {
                        m.found(b[0])
                    } else {
                        ResponseView::NotFound
                    },
                ),
            ),
        )
    }

    /// With job `id` kicked: counted, made ready, journaled; then jobs are
    /// handed out.
    pub open spec fn kicking(self, id: JobId, now: Nanos, out: Out) -> (Model, Out) {
        let j = self.jobs[id];
        self.without_job(id).with_job(
            JobView {
                state: JobState::Ready,
                reserver: None,
                kick_ct: bump32(j.kick_ct),
                ..j
            },
        ).journaling_update(id).process_queue(now, out)
    }

    /// Kicks up to `n` buried jobs of tube `t`, the one buried longest ago
    /// first. The last component is how many.
    pub open spec fn kick_buried(self, t: TubeId, n: nat, now: Nanos, out: Out) -> (
        Model,
        Out,
        nat,
    )
        decreases n,
    {
        if n == 0 || self.tube(t).buried.len() == 0 {
            (self, out, 0)
        } else {
            let (m, o) = self.kicking(self.tube(t).buried[0], now, out);
            let r = m.kick_buried(t, (n - 1) as nat, now, o);
            (r.0, r.1, r.2 + 1)
        }
    }

    /// Kicks up to `n` delayed jobs of tube `t`, the soonest first. The last
    /// component is how many.
    pub open spec fn kick_delayed(self, t: TubeId, n: nat, now: Nanos, out: Out) -> (
        Model,
        Out,
        nat,
    )
        decreases n,
    {
        match least(delayed_set(self.jobs, t)) {
            Some(p) => if n == 0 {
                (self, out, 0)
            } else {
                let (m, o) = self.kicking(p.1, now, out);
                let r = m.kick_delayed(t, (n - 1) as nat, now, o);
                (r.0, r.1, r.2 + 1)
            },
            None => (self, out, 0),
        }
    }

    /// kick
    pub open spec fn cmd_kick(self, now: Nanos, c: ConnId, n: u32, out: Out) -> (Model, Out) {
        let m = Model { ops: OpCounts { cmd_kick: bump(self.ops.cmd_kick), ..self.ops }, ..self };
        let t = m.conns[c].use_tube;
        let r = if m.tube(t).buried.len() > 0 {
            m.kick_buried(t, n as nat, now, out)
        } else {
            m.kick_delayed(t, n as nat, now, out)
        };
        (r.0, r.1.push((c, ResponseView::Kicked(r.2 as u64))))
    }

    /// kick-job
    pub open spec fn cmd_kick_job(self, now: Nanos, c: ConnId, id: JobId, out: Out) -> (
        Model,
        Out,
    ) {
        if self.jobs.contains_key(id) && (self.jobs[id].state == JobState::Buried
            || self.jobs[id].state == JobState::Delayed) {
            let (m, o) = self.kicking(id, now, out);
            (m, o.push((c, ResponseView::KickedJob)))
        } else {
            (self, out.push((c, ResponseView::NotFound)))
        }
    }

    /// Whole seconds from `a` to `b`; 0 if `b` comes first.
    pub open spec fn seconds_between(a: Nanos, b: Nanos) -> u64 {
        if b > a {
            ((b - a) / NANOS_PER_SEC as int) as u64
        } else {
            0
        }
    }

    /// What stats-job reports of job `id`.
    pub open spec fn job_stats(self, id: JobId, now: Nanos) -> StatsJobView {
        let j = self.jobs[id];
        StatsJobView {
            id,
            tube: self.tube(j.tube).name,
            state: state_text(j.state),
            pri: j.pri,
            age: Self::seconds_between(j.created_at, now),
            delay: j.delay as u64,
            ttr: j.ttr as u64,
            time_left: if j.state == JobState::Reserved || j.state == JobState::Delayed {
                Self::seconds_between(now, j.deadline_at)
            } else {
                0
            },
            file: j.file,
            reserves: j.reserve_ct as u64,
            timeouts: j.timeout_ct as u64,
            releases: j.release_ct as u64,
            buries: j.bury_ct as u64,
            kicks: j.kick_ct as u64,
        }
    }

    /// What stats-tube reports of tube `t`.
    pub open spec fn tube_stats(self, t: TubeId, now: Nanos) -> StatsTubeView {
        let v = self.tube(t);
        StatsTubeView {
            name: v.name,
            current_jobs_urgent: count_jobs(self.jobs, JobSel::UrgentIn(t)) as u64,
            current_jobs_ready: count_jobs(self.jobs, JobSel::ReadyIn(t)) as u64,
            current_jobs_reserved: count_jobs(self.jobs, JobSel::ReservedIn(t)) as u64,
            current_jobs_delayed: count_jobs(self.jobs, JobSel::DelayedIn(t)) as u64,
            current_jobs_buried: v.buried.len() as u64,
            total_jobs: v.total_jobs_ct,
            current_using: count_conns(self.conns, ConnSel::Uses(t)) as u64,
            current_watching: count_conns(self.conns, ConnSel::Watches(t)) as u64,
            current_waiting: v.waiting.items.len() as u64,
            cmd_delete: v.total_delete_ct,
            cmd_pause_tube: v.pause_ct,
            pause: v.pause / NANOS_PER_SEC,
            pause_time_left: if v.pause > 0 {
                Self::seconds_between(now, v.unpause_at)
            } else {
                0
            },
        }
    }

    /// What stats reports, on a host that says `sys` of itself.
    pub open spec fn server_stats(self, now: Nanos, sys: SysSnapshot) -> StatsServer {
        StatsServer {
            current_jobs_urgent: count_jobs(self.jobs, JobSel::Urgent) as u64,
            current_jobs_ready: count_jobs(self.jobs, JobSel::Ready) as u64,
            current_jobs_reserved: count_jobs(self.jobs, JobSel::Reserved) as u64,
            current_jobs_delayed: count_jobs(self.jobs, JobSel::Delayed) as u64,
            current_jobs_buried: count_jobs(self.jobs, JobSel::Buried) as u64,
            cmd_put: self.ops.cmd_put,
            cmd_peek: self.ops.cmd_peek,
            cmd_peek_ready: self.ops.cmd_peek_ready,
            cmd_peek_delayed: self.ops.cmd_peek_delayed,
            cmd_peek_buried: self.ops.cmd_peek_buried,
            cmd_reserve: self.ops.cmd_reserve,
            cmd_reserve_with_timeout: self.ops.cmd_reserve_with_timeout,
            cmd_delete: self.ops.cmd_delete,
            cmd_release: self.ops.cmd_release,
            cmd_use: self.ops.cmd_use,
            cmd_watch: self.ops.cmd_watch,
            cmd_ignore: self.ops.cmd_ignore,
            cmd_bury: self.ops.cmd_bury,
            cmd_kick: self.ops.cmd_kick,
            cmd_touch: self.ops.cmd_touch,
            cmd_stats: self.ops.cmd_stats,
            cmd_stats_job: self.ops.cmd_stats_job,
            cmd_stats_tube: self.ops.cmd_stats_tube,
            cmd_list_tubes: self.ops.cmd_list_tubes,
            cmd_list_tube_used: self.ops.cmd_list_tube_used,
            cmd_list_tubes_watched: self.ops.cmd_list_tubes_watched,
            cmd_pause_tube: self.ops.cmd_pause_tube,
            job_timeouts: self.timeout_ct,
            total_jobs: self.total_jobs_ct,
            max_job_size: self.cfg.max_job_size as u64,
            current_tubes: self.order.items.len() as u64,
            current_connections: self.conns.dom().len() as u64,
            current_producers: count_conns(self.conns, ConnSel::Producer) as u64,
            current_workers: count_conns(self.conns, ConnSel::Worker) as u64,
            current_waiting: count_conns(self.conns, ConnSel::Waiting) as u64,
            total_connections: self.tot_conns as u64,
            pid: sys.pid,
            version: sys.version,
            rusage_utime: sys.rusage_utime,
            rusage_stime: sys.rusage_stime,
            uptime: Self::seconds_between(self.start, now),
            binlog_oldest_index: self.binlog.oldest_index,
            binlog_current_index: self.binlog.current_index,
            binlog_records_migrated: self.binlog.records_migrated,
            binlog_records_written: self.binlog.records_written,
            binlog_max_size: self.cfg.binlog_max_size,
            draining: self.draining,
            id: sys.id,
            hostname: sys.hostname,
            os: sys.os,
            platform: sys.platform,
        }
    }

    /// stats-job
    pub open spec fn cmd_stats_job(self, now: Nanos, c: ConnId, id: JobId, out: Out) -> (
        Model,
        Out,
    ) {
        let m = Model {
            ops: OpCounts { cmd_stats_job: bump(self.ops.cmd_stats_job), ..self.ops },
            ..self
        };
        if m.jobs.contains_key(id) {
            (m, out.push((c, ResponseView::OkBody(job_yaml(m.job_stats(id, now))))))
        } else {
            (m, out.push((c, ResponseView::NotFound)))
        }
    }

    /// stats-tube
    pub open spec fn cmd_stats_tube(self, now: Nanos, c: ConnId, name: Seq<u8>, out: Out) -> (
        Model,
        Out,
    ) {
        let m = Model {
            ops: OpCounts { cmd_stats_tube: bump(self.ops.cmd_stats_tube), ..self.ops },
            ..self
        };
        match m.tube_named(name) {
            Some(t) => (m, out.push((c, ResponseView::OkBody(tube_yaml(m.tube_stats(t, now)))))),
            None => (m, out.push((c, ResponseView::NotFound))),
        }
    }

    /// stats, on a host that says `sys` of itself
    pub open spec fn cmd_stats(self, now: Nanos, c: ConnId, sys: SysSnapshot, out: Out) -> (
        Model,
        Out,
    ) {
        let m = Model { ops: OpCounts { cmd_stats: bump(self.ops.cmd_stats), ..self.ops }, ..self };
        (m, out.push((c, ResponseView::OkBody(server_yaml(m.server_stats(now, sys))))))
    }

    /// The names of the tubes `ts`.
    pub open spec fn names_of(self, ts: Seq<TubeId>) -> Seq<Seq<u8>> {
        ts.map_values(|t: TubeId| self.tube(t).name)
    }

    /// list-tubes
    pub open spec fn cmd_list_tubes(self, c: ConnId, out: Out) -> (Model, Out) {
        let m = Model {
            ops: OpCounts { cmd_list_tubes: bump(self.ops.cmd_list_tubes), ..self.ops },
            ..self
        };
        (m, out.push((c, ResponseView::OkBody(list_yaml(m.names_of(m.order.items))))))
    }

    /// list-tube-used
    pub open spec fn cmd_list_tube_used(self, c: ConnId, out: Out) -> (Model, Out) {
        let m = Model {
            ops: OpCounts { cmd_list_tube_used: bump(self.ops.cmd_list_tube_used), ..self.ops },
            ..self
        };
        (m, out.push((c, ResponseView::Using(m.tube(m.conns[c].use_tube).name))))
    }

    /// list-tubes-watched
    pub open spec fn cmd_list_tubes_watched(self, c: ConnId, out: Out) -> (Model, Out) {
        let m = Model {
            ops: OpCounts {
                cmd_list_tubes_watched: bump(self.ops.cmd_list_tubes_watched),
                ..self.ops
            },
            ..self
        };
        (m, out.push((c, ResponseView::OkBody(list_yaml(m.names_of(m.conns[c].watch.items))))))
    }

    /// How long a pause of `delay` seconds is: one of 0 seconds lasts 1 ns.
    pub open spec fn pause_length(delay: u32) -> Nanos {
        if delay == 0 {
            1
        } else {
            (delay * NANOS_PER_SEC) as u64
        }
    }

    /// pause-tube
    pub open spec fn cmd_pause_tube(
        self,
        now: Nanos,
        c: ConnId,
        name: Seq<u8>,
        delay: u32,
        out: Out,
    ) -> (Model, Out) {
        let m = Model {
            ops: OpCounts { cmd_pause_tube: bump(self.ops.cmd_pause_tube), ..self.ops },
            ..self
        };
        match m.tube_named(name) {
            Some(t) => (
                m.with_tube(
                    t,
                    TubeView {
                        pause: Self::pause_length(delay),
                        unpause_at: (now + Self::pause_length(delay)) as u64,
                        pause_ct: bump(m.tube(t).pause_ct),
                        ..m.tube(t)
                    },
                ),
                out.push((c, ResponseView::Paused)),
            ),
            None => (m, out.push((c, ResponseView::NotFound))),
        }
    }

    /// Connection `c` gives the command `cmd` at `now`, on a host that says
    /// `sys` of itself (which matters to `stats` alone).
    pub open spec fn handle(
        self,
        now: Nanos,
        c: ConnId,
        cmd: CommandView,
        sys: SysSnapshot,
        out: Out,
    ) -> (Model, Out) {
        if !self.conns.contains_key(c) {
            (self, out)
        } else {
            match cmd {
                CommandView::Put { pri, delay, ttr, body } => self.cmd_put(
                    now,
                    c,
                    pri,
                    delay,
                    ttr,
                    body,
                    out,
                ),
                CommandView::Use(name) => self.cmd_use(c, name, out),
                CommandView::Reserve => self.cmd_reserve(now, c, None, out),
                CommandView::ReserveWithTimeout(s) => self.cmd_reserve(now, c, Some(s), out),
                CommandView::ReserveJob(id) => self.cmd_reserve_job(now, c, id, out),
                CommandView::Delete(id) => self.cmd_delete(c, id, out),
                CommandView::Release { id, pri, delay } => self.cmd_release(
                    now,
                    c,
                    id,
                    pri,
                    delay,
                    out,
                ),
                CommandView::Bury { id, pri } => self.cmd_bury(c, id, pri, out),
                CommandView::Touch(id) => self.cmd_touch(now, c, id, out),
                CommandView::Watch(name) => self.cmd_watch(c, name, out),
                CommandView::Ignore(name) => self.cmd_ignore(c, name, out),
                CommandView::Peek(id) => self.cmd_peek(c, id, out),
                CommandView::PeekReady => self.cmd_peek_ready(c, out),
                CommandView::PeekDelayed => self.cmd_peek_delayed(c, out),
                CommandView::PeekBuried => self.cmd_peek_buried(c, out),
                CommandView::Kick(n) => self.cmd_kick(now, c, n, out),
                CommandView::KickJob(id) => self.cmd_kick_job(now, c, id, out),
                CommandView::StatsJob(id) => self.cmd_stats_job(now, c, id, out),
                CommandView::StatsTube(name) => self.cmd_stats_tube(now, c, name, out),
                CommandView::Stats => self.cmd_stats(now, c, sys, out),
                CommandView::ListTubes => self.cmd_list_tubes(c, out),
                CommandView::ListTubeUsed => self.cmd_list_tube_used(c, out),
                CommandView::ListTubesWatched => self.cmd_list_tubes_watched(c, out),
                CommandView::Quit => (self, out),
                CommandView::PauseTube { tube, delay } => self.cmd_pause_tube(
                    now,
                    c,
                    tube,
                    delay,
                    out,
                ),
                CommandView::PauseTubeBadName => (
                    Model {
                        ops: OpCounts { cmd_pause_tube: bump(self.ops.cmd_pause_tube), ..self.ops },
                        ..self
                    },
                    out.push((c, ResponseView::BadFormat)),
                ),
            }
        }
    }

    /// The state at the start.
    pub open spec fn initial(now: Nanos, cfg: EngineConfig) -> Model {
        Model {
            cfg,
            start: now,
            draining: false,
            next_job_id: 1,
            jobs: Map::empty(),
            tubes: seq![Some(TubeView::fresh(default_name()))],
            free: Seq::empty(),
            order: MsView { items: seq![DEFAULT_TUBE], last: 0 },
            conns: Map::empty(),
            total_jobs_ct: 0,
            timeout_ct: 0,
            tot_conns: 0,
            ops: OpCounts {
                cmd_put: 0,
                cmd_peek: 0,
                cmd_peek_ready: 0,
                cmd_peek_delayed: 0,
                cmd_peek_buried: 0,
                cmd_reserve: 0,
                cmd_reserve_with_timeout: 0,
                cmd_delete: 0,
                cmd_release: 0,
                cmd_use: 0,
                cmd_watch: 0,
                cmd_ignore: 0,
                cmd_bury: 0,
                cmd_kick: 0,
                cmd_touch: 0,
                cmd_stats: 0,
                cmd_stats_job: 0,
                cmd_stats_tube: 0,
                cmd_list_tubes: 0,
                cmd_list_tube_used: 0,
                cmd_list_tubes_watched: 0,
                cmd_pause_tube: 0,
            },
            journal: Seq::empty(),
            binlog: BinlogStats {
                oldest_index: 0,
                current_index: 0,
                records_written: 0,
                records_migrated: 0,
            },
        }
    }

    /// Whether connection `c` may give the command `cmd`: while it waits, it
    /// neither reserves nor changes what it watches; and a job that is put
    /// needs a number.
    pub open spec fn may_give(self, c: ConnId, cmd: CommandView) -> bool {
        self.conns.contains_key(c) ==> match cmd {
            CommandView::Watch(_) => !self.conns[c].waiting,
            CommandView::Ignore(_) => !self.conns[c].waiting,
            CommandView::Reserve => !self.conns[c].waiting,
            CommandView::ReserveWithTimeout(_) => !self.conns[c].waiting,
            CommandView::Put { .. } => self.next_job_id < u64::MAX || (
            self.conns[c].pending_put is Some && self.conns[c].pending_put->0.id is Some),
            _ => true,
        }
    }

    /// Whether the put that connection `c` starts can be given a number.
    pub open spec fn may_start(self, c: ConnId, too_big: bool) -> bool {
        self.conns.contains_key(c) && !too_big ==> self.next_job_id < u64::MAX
    }

    /// Whether the put that is rejected can be given a number, if it takes one.
    pub open spec fn may_reject(self, c: ConnId, why: PutRejection) -> bool {
        self.conns.contains_key(c) && self.conns[c].pending_put is None && (why
            == PutRejection::ExpectedCrlf || why == PutRejection::OutOfMemory) ==> self.next_job_id
            < u64::MAX
    }

    /// Whether `input` makes the engine ask about its host.
    pub open spec fn asks_the_host(self, input: EngineInput) -> bool {
        input matches EngineInput::Command { conn, cmd } && cmd@ is Stats
            && self.conns.contains_key(conn)
    }

    /// Whether `input` can happen: connection numbers are never used twice, and
    /// neither they nor job numbers run out.
    pub open spec fn may_happen(self, input: EngineInput) -> bool {
        match input {
            EngineInput::Connect(c) => !self.conns.contains_key(c) && self.tot_conns < u32::MAX,
            EngineInput::PutStarted { conn, too_big } => self.may_start(conn, too_big),
            EngineInput::PutRejected { conn, why } => self.may_reject(conn, why),
            EngineInput::Command { conn, cmd } => self.may_give(conn, cmd@),
            _ => true,
        }
    }

    /// What `input` alone does, on a host that says `sys` of itself.
    pub open spec fn take_in(
        self,
        now: Nanos,
        input: EngineInput,
        sys: SysSnapshot,
        out: Out,
    ) -> (Model, Out) {
        match input {
            EngineInput::Connect(c) => (self.connect(c), out),
            EngineInput::Disconnect(c) => self.disconnect(c, now, out),
            EngineInput::HalfClose(c) => self.half_close(c, out),
            EngineInput::PutStarted { conn, too_big } => (
                self.put_started(conn, now, too_big),
                out,
            ),
            EngineInput::PutRejected { conn, why } => self.put_rejected(conn, why, out),
            EngineInput::Command { conn, cmd } => self.handle(now, conn, cmd@, sys, out),
            EngineInput::Tick => (self, out),
            EngineInput::SetDraining(on) => (Model { draining: on, ..self }, out),
        }
    }

    /// What `input` does, followed by everything that is then due.
    pub open spec fn apply_input(
        self,
        now: Nanos,
        input: EngineInput,
        sys: SysSnapshot,
        out: Out,
    ) -> (Model, Out) {
        let (m, o) = self.take_in(now, input, sys, out);
        m.tick(now, o)
    }
}

/// The job that a record stands for. A buried job counts one more burying, and
/// a delayed one whose deadline has passed is ready.
pub open spec fn recovered_job(now: Nanos, r: RecoveredView, tube: TubeId) -> JobView {
    let late = r.record.state == RecordState::Delayed && r.record.deadline_at > now;
    JobView {
        id: r.record.id,
        tube,
        pri: r.record.pri,
        delay: r.record.delay,
        ttr: if r.record.ttr < 1 {
            1
        } else {
            r.record.ttr
        },
        body: r.body,
        created_at: r.record.created_at,
        deadline_at: if late {
            r.record.deadline_at
        } else {
            0
        },
        state: if late {
            JobState::Delayed
        } else if r.record.state == RecordState::Buried {
            JobState::Buried
        } else {
            JobState::Ready
        },
        reserver: None,
        reserve_ct: r.record.reserve_ct,
        timeout_ct: r.record.timeout_ct,
        release_ct: r.record.release_ct,
        bury_ct: if r.record.state == RecordState::Buried {
            bump32(r.record.bury_ct)
        } else {
            r.record.bury_ct
        },
        kick_ct: r.record.kick_ct,
        file: 0,
    }
}

/// The larger of the two.
pub open spec fn larger(a: int, b: int) -> int {
    if a >= b {
        a
    } else {
        b
    }
}

/// The smallest number that is at least `next`, at least 1, and past that of
/// every job.
pub open spec fn next_after(jobs: Seq<RecoveredView>, next: JobId) -> int
    decreases jobs.len(),
{
    if jobs.len() == 0 {
        larger(next as int, 1)
    } else {
        larger(next_after(jobs.drop_last(), next), jobs.last().record.id + 1)
    }
}

/// Whether some job is in a tube called `name`.
pub open spec fn holds_some(jobs: Seq<RecoveredView>, name: Seq<u8>) -> bool {
    exists|i: int| 0 <= i < jobs.len() && (#[trigger] jobs[i]).tube == name
}

/// Whether no two jobs have the same number.
pub open spec fn distinct_ids(jobs: Seq<RecoveredView>) -> bool {
    forall|i: int, j: int|
        #![trigger jobs[i], jobs[j]]
        0 <= i < j < jobs.len() ==> jobs[i].record.id != jobs[j].record.id
}

impl Model {
    /// With the tubes called `names` that are to hold one of `jobs`, made in
    /// that order.
    pub open spec fn recovering_tubes(
        self,
        names: Seq<Seq<u8>>,
        jobs: Seq<RecoveredView>,
    ) -> Model
        decreases names.len(),
    {
        if names.len() == 0 {
            self
        } else {
            let m = self.recovering_tubes(names.drop_last(), jobs);
            if holds_some(jobs, names.last()) {
                m.making_tube(names.last())
            } else {
                m
            }
        }
    }

    /// With the job that a record stands for, unless its number is taken.
    pub open spec fn recovering(self, now: Nanos, r: RecoveredView) -> Model {
        if self.jobs.contains_key(r.record.id) {
            self
        } else {
            self.making_tube(r.tube).with_job(recovered_job(now, r, self.tube_for(r.tube)))
        }
    }

    /// With the jobs that records stand for, in that order.
    pub open spec fn recovering_jobs(self, now: Nanos, jobs: Seq<RecoveredView>) -> Model
        decreases jobs.len(),
    {
        if jobs.len() == 0 {
            self
        } else {
            self.recovering_jobs(now, jobs.drop_last()).recovering(now, jobs.last())
        }
    }

    /// After a restart: the tubes in the given order, then the jobs in theirs.
    /// Every count of past events starts at 0.
    pub open spec fn recovered(
        now: Nanos,
        cfg: EngineConfig,
        jobs: Seq<RecoveredView>,
        next: JobId,
        names: Seq<Seq<u8>>,
    ) -> Model {
        (Model {
            next_job_id: next_after(jobs, next) as u64,
            ..Model::initial(now, cfg)
        }).recovering_tubes(names, jobs).recovering_jobs(now, jobs)
    }
}

} // verus!
