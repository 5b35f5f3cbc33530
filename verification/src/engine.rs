//! The deterministic state machine behind the server.
//!
//! Every time-driven event is kept in an ordered index, so `tick` and
//! `next_deadline` need not scan every tube and connection:
//!
//! * `conn_ticks`: when each connection next needs attention (the earliest of
//!   its reserve timeout, the safety margin of its soonest reserved job, and
//!   that reservation's end).
//! * `delay_heads`: the deadline of the soonest delayed job of each tube.
//! * `pauses`: the time at which each paused tube is unpaused.
//!
//! `dispatchable` holds the tubes that have both waiting connections and ready
//! jobs, the only ones `process_queue` can act on. What all of this amounts to
//! is stated without any index, by the steps of `Model`.

use crate::api::{
    entries, BinlogStats, ConnId, EngineConfig, JournalEntry, Nanos, SysInfo, SysSnapshot,
};
use crate::inv::{
    at, conn_ok, default_ok, dispatchable_of, free_ok, heads_of, job_ok, live, names_ok, order_ok,
    pauses_of, pending_ok, ticks_of, tube_ok,
};
use crate::model::{
    conns_view, jobs_view, tubes_view, ConnState, ConnView, JobRec, JobView, TubeId, TubeState,
};
use crate::ms::Ms;
use crate::proto::{JobId, TubeName};
use crate::rules::{count_conns, count_jobs, ConnSel, JobSel, Model, OpCounts};
use crate::settle::settled;
use std::collections::{BTreeMap, BTreeSet};
use vstd::prelude::*;

mod check;
mod check_conns;
mod check_counts;
mod check_queues;
mod clock;
mod commands;
mod conns;
mod dispatch;
mod events;
mod faultless;
pub mod faults;
mod holders;
mod jobs;
mod kicks;
mod order;
mod recovery;
mod reports;
pub mod state;
mod tubes;
mod waiting;
mod workers;

verus! {

/// Counters that can be recomputed from the jobs and the connections.
#[derive(Debug, Clone, Copy, PartialEq, Eq)]
pub struct Tallies {
    pub ready_ct: u64,
    pub urgent_ct: u64,
    pub reserved_ct: u64,
    pub buried_ct: u64,
    pub delayed_ct: u64,
    pub waiting_ct: u64,
    pub cur_conns: u32,
    pub cur_producers: u32,
    pub cur_workers: u32,
}

/// Something held as it was given.
struct Held<T> {
    it: T,
}

/// The engine.
pub struct Engine {
    cfg: EngineConfig,
    sys: Held<Box<dyn SysInfo>>,
    start: Nanos,
    draining: bool,
    next_job_id: JobId,
    jobs: BTreeMap<JobId, JobRec>,
    /// Tube slab, indexed by `TubeId`; `None` marks a free slot.
    tubes: Vec<Option<TubeState>>,
    free_tube_ids: Vec<TubeId>,
    /// The tubes by name, ascending.
    tube_ids: Vec<(TubeName, TubeId)>,
    /// The tubes in the order of their making, with swap-removal. Decides the
    /// output of list-tubes and the tie-break between equal deadlines.
    tube_order: Ms<TubeId>,
    conns: BTreeMap<ConnId, ConnState>,
    /// The time and the connection, for every connection that has one.
    conn_ticks: BTreeSet<(Nanos, ConnId)>,
    /// The soonest deadline and the tube, for every tube with delayed jobs.
    delay_heads: BTreeSet<(Nanos, TubeId)>,
    /// The end of the pause and the tube, for every paused tube.
    pauses: BTreeSet<(Nanos, TubeId)>,
    /// Tubes with both waiting connections and ready jobs.
    dispatchable: BTreeSet<TubeId>,
    tallies: Tallies,
    total_jobs_ct: u64,
    timeout_ct: u64,
    tot_conns: u32,
    ops: OpCounts,
    /// Changes that the log has not been given yet (none without a journal).
    journal: Vec<JournalEntry>,
    /// The log's figures in `stats`, set by the server.
    binlog: BinlogStats,
}

/// The tallies are what a count would give.
pub open spec fn tallies_ok(
    x: Tallies,
    jobs: Map<JobId, JobView>,
    conns: Map<ConnId, ConnView>,
) -> bool {
    &&& x.ready_ct == count_jobs(jobs, JobSel::Ready)
    &&& x.urgent_ct == count_jobs(jobs, JobSel::Urgent)
    &&& x.reserved_ct == count_jobs(jobs, JobSel::Reserved)
    &&& x.buried_ct == count_jobs(jobs, JobSel::Buried)
    &&& x.delayed_ct == count_jobs(jobs, JobSel::Delayed)
    &&& x.waiting_ct == count_conns(conns, ConnSel::Waiting)
    &&& x.cur_conns == conns.dom().len()
    &&& x.cur_producers == count_conns(conns, ConnSel::Producer)
    &&& x.cur_workers == count_conns(conns, ConnSel::Worker)
}

impl View for Engine {
    type V = Model;

    closed spec fn view(&self) -> Model {
        Model {
            cfg: self.cfg,
            start: self.start,
            draining: self.draining,
            next_job_id: self.next_job_id,
            jobs: jobs_view(self.jobs@),
            tubes: tubes_view(self.tubes@),
            free: self.free_tube_ids@,
            order: self.tube_order@,
            conns: conns_view(self.conns@),
            total_jobs_ct: self.total_jobs_ct,
            timeout_ct: self.timeout_ct,
            tot_conns: self.tot_conns,
            ops: self.ops,
            journal: entries(self.journal@),
            binlog: self.binlog,
        }
    }
}

impl Engine {
    /// The jobs as plain values.
    spec fn jv(&self) -> Map<JobId, JobView> {
        jobs_view(self.jobs@)
    }

    /// The connections as plain values.
    spec fn cv(&self) -> Map<ConnId, ConnView> {
        conns_view(self.conns@)
    }

    /// What the host that the engine asks may say of itself.
    pub closed spec fn host(&self) -> spec_fn(SysSnapshot) -> bool {
        |s: SysSnapshot| self.sys.it.says(s)
    }

    /// What holds between any two steps.
    pub closed spec fn wf(&self) -> bool {
        &&& default_ok(self.tubes@)
        &&& order_ok(self.tubes@, self.tube_order@.items)
        &&& free_ok(self.tubes@, self.free_tube_ids@)
        &&& names_ok(self.tubes@, self.tube_ids@)
        &&& self.next_job_id >= 1
        &&& self.tot_conns >= self.tallies.cur_conns
        &&& forall|id: JobId| #[trigger]
            self.jv().contains_key(id) ==> job_ok(
                self.jv()[id],
                id,
                self.next_job_id,
                self.tubes@,
                self.cv(),
            )
        &&& forall|t: TubeId| #[trigger]
            live(self.tubes@, t) ==> tube_ok(at(self.tubes@, t), t, self.jv(), self.cv())
        &&& forall|c: ConnId| #[trigger]
            self.conns@.contains_key(c) ==> conn_ok(
                self.conns@[c],
                c,
                self.next_job_id,
                self.tubes@,
                self.jv(),
            )
        &&& pending_ok(self.cv())
        &&& tallies_ok(self.tallies, self.jv(), self.cv())
        &&& self.conn_ticks@ == ticks_of(self.conns@)
        &&& self.delay_heads@ == heads_of(self.tubes@)
        &&& self.pauses@ == pauses_of(self.tubes@)
        &&& self.dispatchable@ == dispatchable_of(self.tubes@)
    }

    /// What holds between events: the data is consistent, no job that could be
    /// handed out is left lying, every connection watches some tube, and no
    /// tube other than "default" exists that nothing refers to.
    pub open spec fn valid(&self) -> bool {
        self.wf() && settled(self@)
    }
}

} // verus!
