//! The rules of the queue, as functions from one state to the next.
//!
//! `Model` holds what the protocol can tell apart and nothing that follows from
//! it: no index, and no count of anything that is there to be counted. What
//! the engine does is stated as a step from one `Model` to another, together
//! with the replies that it sends.

use crate::api::{
    BinlogStats, ConnId, EngineConfig, EntryView, JobRecord, Nanos, RecordState, NANOS_PER_SEC,
};
use crate::model::{ConnView, JobState, JobView, TubeId, TubeView};
use crate::ms::{position, MsView};
use crate::proto::{JobId, ResponseView, URGENT_THRESHOLD};
use vstd::prelude::*;

verus! {

/// How long before a reservation runs out its holder is warned: 1 second.
pub const SAFETY_MARGIN: Nanos = 1_000_000_000;

/// "default" is made first and never destroyed, so it always has number 0.
pub const DEFAULT_TUBE: TubeId = 0;

/// How often each command that `stats` reports was given.
#[derive(Debug, Clone, Copy, PartialEq, Eq)]
pub struct OpCounts {
    pub cmd_put: u64,
    pub cmd_peek: u64,
    pub cmd_peek_ready: u64,
    pub cmd_peek_delayed: u64,
    pub cmd_peek_buried: u64,
    pub cmd_reserve: u64,
    pub cmd_reserve_with_timeout: u64,
    pub cmd_delete: u64,
    pub cmd_release: u64,
    pub cmd_use: u64,
    pub cmd_watch: u64,
    pub cmd_ignore: u64,
    pub cmd_bury: u64,
    pub cmd_kick: u64,
    pub cmd_touch: u64,
    pub cmd_stats: u64,
    pub cmd_stats_job: u64,
    pub cmd_stats_tube: u64,
    pub cmd_list_tubes: u64,
    pub cmd_list_tube_used: u64,
    pub cmd_list_tubes_watched: u64,
    pub cmd_pause_tube: u64,
}

/// Replies, each with the connection that it goes to, in order.
pub type Out = Seq<(ConnId, ResponseView)>;

/// The state of the queue.
#[verifier::ext_equal]
pub struct Model {
    pub cfg: EngineConfig,
    pub start: Nanos,
    pub draining: bool,
    pub next_job_id: JobId,
    pub jobs: Map<JobId, JobView>,
    /// Tube slab, indexed by `TubeId`; `None` marks a free slot.
    pub tubes: Seq<Option<TubeView>>,
    /// The free slots; the last is taken first.
    pub free: Seq<TubeId>,
    /// The tubes in the order in which list-tubes gives them.
    pub order: MsView<TubeId>,
    pub conns: Map<ConnId, ConnView>,
    pub total_jobs_ct: u64,
    pub timeout_ct: u64,
    pub tot_conns: u32,
    pub ops: OpCounts,
    /// Changes that the log has not been given yet, oldest first.
    pub journal: Seq<EntryView>,
    pub binlog: BinlogStats,
}

/// One more; a counter that is full starts again at 0.
pub open spec fn bump(n: u64) -> u64 {
    if n == u64::MAX {
        0
    } else {
        (n + 1) as u64
    }
}

/// One more; a counter that is full starts again at 0.
pub open spec fn bump32(n: u32) -> u32 {
    if n == u32::MAX {
        0
    } else {
        (n + 1) as u32
    }
}

/// `s` seconds after `now`.
pub open spec fn later(now: Nanos, s: u32) -> Nanos {
    (now + s * NANOS_PER_SEC) as u64
}

/// `s` without the first `x`, the others in the same order.
pub open spec fn remove_first<T>(s: Seq<T>, x: T) -> Seq<T> {
    if s.contains(x) {
        s.remove(position(s, x))
    } else {
        s
    }
}

/// Whether `a` comes no later than `b`: by the first number, then the second.
pub open spec fn pair_le(a: (u64, u64), b: (u64, u64)) -> bool {
    a.0 < b.0 || (a.0 == b.0 && a.1 <= b.1)
}

/// Whether `p` is the least of `s`.
pub open spec fn is_least(s: Set<(u64, u64)>, p: (u64, u64)) -> bool {
    s.contains(p) && forall|q: (u64, u64)| #[trigger] s.contains(q) ==> pair_le(p, q)
}

/// The least of `s`, if there is one.
pub open spec fn least(s: Set<(u64, u64)>) -> Option<(u64, u64)> {
    if exists|p: (u64, u64)| is_least(s, p) {
        Some(choose|p: (u64, u64)| is_least(s, p))
    } else {
        None
    }
}

/// What may be counted among the jobs.
pub enum JobSel {
    Ready,
    Urgent,
    Reserved,
    Delayed,
    Buried,
    InTube(TubeId),
    ReadyIn(TubeId),
    DelayedIn(TubeId),
    UrgentIn(TubeId),
    ReservedIn(TubeId),
    /// Reservations that have run out by the given time.
    Overdue(Nanos),
}

impl JobSel {
    /// Whether `j` is counted.
    pub open spec fn picks(self, j: JobView) -> bool {
        match self {
            JobSel::Ready => j.state == JobState::Ready,
            JobSel::Urgent => j.state == JobState::Ready && j.pri < URGENT_THRESHOLD,
            JobSel::Reserved => j.state == JobState::Reserved,
            JobSel::Delayed => j.state == JobState::Delayed,
            JobSel::Buried => j.state == JobState::Buried,
            JobSel::InTube(t) => j.tube == t,
            JobSel::ReadyIn(t) => j.state == JobState::Ready && j.tube == t,
            JobSel::DelayedIn(t) => j.state == JobState::Delayed && j.tube == t,
            JobSel::UrgentIn(t) => j.state == JobState::Ready && j.pri < URGENT_THRESHOLD && j.tube
                == t,
            JobSel::ReservedIn(t) => j.state == JobState::Reserved && j.tube == t,
            JobSel::Overdue(now) => j.state == JobState::Reserved && j.deadline_at < now,
        }
    }
}

/// The jobs that `sel` picks.
pub open spec fn picked_jobs(jobs: Map<JobId, JobView>, sel: JobSel) -> Set<JobId> {
    jobs.dom().filter(|id: JobId| sel.picks(jobs[id]))
}

/// How many jobs `sel` picks.
pub open spec fn count_jobs(jobs: Map<JobId, JobView>, sel: JobSel) -> nat {
    picked_jobs(jobs, sel).len()
}

/// What may be counted among the connections.
pub enum ConnSel {
    Waiting,
    Producer,
    Worker,
    Uses(TubeId),
    Watches(TubeId),
}

impl ConnSel {
    /// Whether `c` is counted.
    pub open spec fn picks(self, c: ConnView) -> bool {
        match self {
            ConnSel::Waiting => c.waiting,
            ConnSel::Producer => c.is_producer,
            ConnSel::Worker => c.is_worker,
            ConnSel::Uses(t) => c.use_tube == t,
            ConnSel::Watches(t) => c.watch.items.contains(t),
        }
    }
}

/// The connections that `sel` picks.
pub open spec fn picked_conns(conns: Map<ConnId, ConnView>, sel: ConnSel) -> Set<ConnId> {
    conns.dom().filter(|id: ConnId| sel.picks(conns[id]))
}

/// How many connections `sel` picks.
pub open spec fn count_conns(conns: Map<ConnId, ConnView>, sel: ConnSel) -> nat {
    picked_conns(conns, sel).len()
}

/// The ready jobs of tube `t`, each with its priority.
pub open spec fn ready_set(jobs: Map<JobId, JobView>, t: TubeId) -> Set<(u32, JobId)> {
    Set::new(
        |p: (u32, JobId)|
            jobs.contains_key(p.1) && jobs[p.1].state == JobState::Ready && jobs[p.1].tube == t
                && jobs[p.1].pri == p.0,
    )
}

/// The delayed jobs of tube `t`, each with its deadline.
pub open spec fn delayed_set(jobs: Map<JobId, JobView>, t: TubeId) -> Set<(Nanos, JobId)> {
    Set::new(
        |p: (Nanos, JobId)|
            jobs.contains_key(p.1) && jobs[p.1].state == JobState::Delayed && jobs[p.1].tube == t
                && jobs[p.1].deadline_at == p.0,
    )
}

/// The jobs that connection `c` has reserved, each with its deadline.
pub open spec fn reserved_set(jobs: Map<JobId, JobView>, c: ConnId) -> Set<(Nanos, JobId)> {
    Set::new(
        |p: (Nanos, JobId)|
            jobs.contains_key(p.1) && jobs[p.1].state == JobState::Reserved && jobs[p.1].reserver
                == Some(c) && jobs[p.1].deadline_at == p.0,
    )
}

/// When a connection next needs attention, given the least of its reserved
/// jobs' deadlines: at its reserve timeout, or when its soonest reservation
/// runs out (while it waits: a second before that), whichever comes first.
pub open spec fn tick_time(
    waiting: bool,
    wait_deadline: Option<Nanos>,
    soonest: Option<(Nanos, JobId)>,
) -> Option<Nanos> {
    let margin: int = if waiting {
        SAFETY_MARGIN as int
    } else {
        0
    };
    let by_job: Option<Nanos> = match soonest {
        Some(p) => Some(
            if p.0 >= margin {
                (p.0 - margin) as u64
            } else {
                0
            },
        ),
        None => None,
    };
    match (by_job, if waiting {
        wait_deadline
    } else {
        None
    }) {
        (Some(a), Some(b)) => Some(
            if a <= b {
                a
            } else {
                b
            },
        ),
        (Some(a), None) => Some(a),
        (None, b) => b,
    }
}

/// The record that the journal keeps of `j`. A reservation is never journaled:
/// a reserved job counts as ready.
pub open spec fn record_of(j: JobView) -> JobRecord {
    JobRecord {
        id: j.id,
        pri: j.pri,
        delay: j.delay,
        ttr: j.ttr,
        created_at: j.created_at,
        deadline_at: if j.state == JobState::Delayed {
            j.deadline_at
        } else {
            0
        },
        state: match j.state {
            JobState::Delayed => RecordState::Delayed,
            JobState::Buried => RecordState::Buried,
            JobState::Ready => RecordState::Ready,
            JobState::Reserved => RecordState::Ready,
        },
        reserve_ct: j.reserve_ct,
        timeout_ct: j.timeout_ct,
        release_ct: j.release_ct,
        bury_ct: j.bury_ct,
        kick_ct: j.kick_ct,
    }
}

impl Model {
    /// Whether slot `t` holds a tube.
    pub open spec fn live(self, t: TubeId) -> bool {
        t < self.tubes.len() && self.tubes[t as int] is Some
    }

    /// The tube in slot `t`.
    pub open spec fn tube(self, t: TubeId) -> TubeView {
        self.tubes[t as int]->0
    }

    /// With `v` for tube `t`.
    pub open spec fn with_tube(self, t: TubeId, v: TubeView) -> Model {
        Model { tubes: self.tubes.update(t as int, Some(v)), ..self }
    }

    /// With `v` for connection `c`.
    pub open spec fn with_conn(self, c: ConnId, v: ConnView) -> Model {
        Model { conns: self.conns.insert(c, v), ..self }
    }

    /// The tube of that name, if there is one.
    pub open spec fn tube_named(self, name: Seq<u8>) -> Option<TubeId> {
        if exists|t: TubeId| self.live(t) && self.tube(t).name == name {
            Some(choose|t: TubeId| self.live(t) && self.tube(t).name == name)
        } else {
            None
        }
    }

    /// Without job `id`, which leaves the list that it stands in.
    pub open spec fn without_job(self, id: JobId) -> Model {
        let j = self.jobs[id];
        let m = Model { jobs: self.jobs.remove(id), ..self };
        match j.state {
            JobState::Buried => m.with_tube(
                j.tube,
                TubeView { buried: remove_first(self.tube(j.tube).buried, id), ..self.tube(j.tube) },
            ),
            JobState::Reserved => {
                let c = self.conns[j.reserver->0];
                m.with_conn(
                    j.reserver->0,
                    ConnView { reserved: remove_first(c.reserved, id), ..c },
                )
            },
            _ => m,
        }
    }

    /// With job `j`, which joins the end of the list that its state calls for.
    pub open spec fn with_job(self, j: JobView) -> Model {
        let m = Model { jobs: self.jobs.insert(j.id, j), ..self };
        match j.state {
            JobState::Buried => m.with_tube(
                j.tube,
                TubeView { buried: self.tube(j.tube).buried.push(j.id), ..self.tube(j.tube) },
            ),
            JobState::Reserved => {
                let c = self.conns[j.reserver->0];
                m.with_conn(j.reserver->0, ConnView { reserved: c.reserved.push(j.id), ..c })
            },
            _ => m,
        }
    }

    /// Whether anything keeps tube `t` alive.
    pub open spec fn referenced(self, t: TubeId) -> bool {
        count_conns(self.conns, ConnSel::Uses(t)) + count_conns(self.conns, ConnSel::Watches(t))
            + count_jobs(self.jobs, JobSel::InTube(t)) > 0
    }

    /// With a tube called `name`, which is made if there is none.
    pub open spec fn making_tube(self, name: Seq<u8>) -> Model {
        if self.tube_named(name) is Some {
            self
        } else if self.free.len() > 0 {
            Model {
                tubes: self.tubes.update(self.free.last() as int, Some(TubeView::fresh(name))),
                free: self.free.drop_last(),
                order: self.order.append(self.free.last()),
                ..self
            }
        } else {
            Model {
                tubes: self.tubes.push(Some(TubeView::fresh(name))),
                order: self.order.append(self.tubes.len() as usize),
                ..self
            }
        }
    }

    /// The number of the tube that `making_tube` finds or makes.
    pub open spec fn tube_for(self, name: Seq<u8>) -> TubeId {
        match self.tube_named(name) {
            Some(t) => t,
            None => if self.free.len() > 0 {
                self.free.last()
            } else {
                self.tubes.len() as usize
            },
        }
    }

    /// Without tube `t` if nothing keeps it alive. The last tube of the list
    /// takes its place there. "default" stays.
    pub open spec fn collecting(self, t: TubeId) -> Model {
        if t != DEFAULT_TUBE && self.live(t) && !self.referenced(t) {
            Model {
                tubes: self.tubes.update(t as int, None),
                free: self.free.push(t),
                order: self.order.remove(t),
                ..self
            }
        } else {
            self
        }
    }

    /// With connection `c` waiting on every tube that it watches.
    pub open spec fn start_waiting(self, c: ConnId, until: Option<Nanos>) -> Model {
        let v = self.conns[c];
        Model {
            conns: self.conns.insert(c, ConnView { waiting: true, wait_deadline: until, ..v }),
            tubes: Seq::new(
                self.tubes.len(),
                |t: int|
                    match self.tubes[t] {
                        Some(x) => Some(
                            if v.watch.items.contains(t as usize) {
                                TubeView { waiting: x.waiting.append(c), ..x }
                            } else {
                                x
                            },
                        ),
                        None => None,
                    },
            ),
            ..self
        }
    }

    /// With connection `c` waiting no longer.
    pub open spec fn stop_waiting(self, c: ConnId) -> Model {
        let v = self.conns[c];
        if !self.conns.contains_key(c) || !v.waiting {
            self
        } else {
            Model {
                conns: self.conns.insert(c, ConnView { waiting: false, wait_deadline: None, ..v }),
                tubes: Seq::new(
                    self.tubes.len(),
                    |t: int|
                        match self.tubes[t] {
                            Some(x) => Some(
                                if v.watch.items.contains(t as usize) {
                                    TubeView { waiting: x.waiting.remove(c), ..x }
                                } else {
                                    x
                                },
                            ),
                            None => None,
                        },
                ),
                ..self
            }
        }
    }

    /// With every pause lifted that has expired by `now`.
    pub open spec fn unpaused(self, now: Nanos) -> Model {
        Model {
            tubes: Seq::new(
                self.tubes.len(),
                |t: int|
                    match self.tubes[t] {
                        Some(x) => Some(
                            if x.pause > 0 && x.unpause_at <= now {
                                TubeView { pause: 0, ..x }
                            } else {
                                x
                            },
                        ),
                        None => None,
                    },
            ),
            ..self
        }
    }

    /// Whether job `id` could be handed out at once: it is ready, its tube is
    /// not paused, and a connection waits on the tube.
    pub open spec fn awaited(self, id: JobId) -> bool {
        &&& self.jobs.contains_key(id)
        &&& self.jobs[id].state == JobState::Ready
        &&& self.live(self.jobs[id].tube)
        &&& self.tube(self.jobs[id].tube).pause == 0
        &&& self.tube(self.jobs[id].tube).waiting.items.len() > 0
    }

    /// Whether job `a` is handed out before job `b`: the smaller priority
    /// first, and of equal ones the smaller number.
    pub open spec fn before(self, a: JobId, b: JobId) -> bool {
        pair_le((self.jobs[a].pri as u64, a), (self.jobs[b].pri as u64, b))
    }

    /// Whether `id` is the job to hand out next.
    pub open spec fn is_next_awaited(self, id: JobId) -> bool {
        self.awaited(id) && forall|o: JobId| #[trigger] self.awaited(o) ==> self.before(id, o)
    }

    /// The job to hand out next, if there is one.
    pub open spec fn next_awaited(self) -> Option<JobId> {
        if exists|id: JobId| self.is_next_awaited(id) {
            Some(choose|id: JobId| self.is_next_awaited(id))
        } else {
            None
        }
    }

    /// The connection whose turn it is on tube `t`.
    pub open spec fn next_waiter(self, t: TubeId) -> ConnId {
        self.tube(t).waiting.items[self.tube(t).waiting.cursor()]
    }

    /// With job `id` reserved by connection `c` at `now`, from whatever state
    /// it was in.
    pub open spec fn reserving(self, id: JobId, c: ConnId, now: Nanos) -> Model {
        let j = self.jobs[id];
        self.without_job(id).with_job(
            JobView {
                state: JobState::Reserved,
                reserver: Some(c),
                deadline_at: later(now, j.ttr),
                reserve_ct: bump32(j.reserve_ct),
                ..j
            },
        )
    }

    /// With job `id` handed to the connection whose turn it is on its tube.
    pub open spec fn handing_over(self, id: JobId, now: Nanos) -> Model {
        let t = self.jobs[id].tube;
        let c = self.next_waiter(t);
        self.with_tube(
            t,
            TubeView { waiting: self.tube(t).waiting.after_take(), ..self.tube(t) },
        ).stop_waiting(c).reserving(id, c, now)
    }

    /// Hands out jobs, each time the next awaited one, until none is awaited.
    pub open spec fn dispatch(self, now: Nanos, out: Out) -> (Model, Out)
        decreases count_jobs(self.jobs, JobSel::Ready),
    {
        match self.next_awaited() {
            None => (self, out),
            Some(id) => {
                let m = self.handing_over(id, now);
                let c = self.next_waiter(self.jobs[id].tube);
                let o = out.push((c, ResponseView::Reserved { id, body: self.jobs[id].body }));
                if count_jobs(m.jobs, JobSel::Ready) < count_jobs(self.jobs, JobSel::Ready) {
                    m.dispatch(now, o)
                } else {
                    (m, o)
                }
            },
        }
    }

    /// Lifts the pauses that have expired, then hands out jobs.
    pub open spec fn process_queue(self, now: Nanos, out: Out) -> (Model, Out) {
        self.unpaused(now).dispatch(now, out)
    }

    /// With job `id` made ready. Nothing else of it changes.
    pub open spec fn readying(self, id: JobId) -> Model {
        let j = self.jobs[id];
        self.without_job(id).with_job(JobView { state: JobState::Ready, reserver: None, ..j })
    }

    /// The position of tube `t` in the list of tubes.
    pub open spec fn place(self, t: TubeId) -> int {
        position(self.order.items, t)
    }

    /// Whether delayed job `a` becomes ready before delayed job `b`: the sooner
    /// deadline first; of equal ones, the tube earlier in the list; within a
    /// tube, the smaller number.
    pub open spec fn sooner(self, a: JobId, b: JobId) -> bool {
        let x = self.jobs[a];
        let y = self.jobs[b];
        x.deadline_at < y.deadline_at || (x.deadline_at == y.deadline_at && (self.place(x.tube)
            < self.place(y.tube) || (self.place(x.tube) == self.place(y.tube) && a <= b)))
    }

    /// Whether job `id` is delayed.
    pub open spec fn is_delayed(self, id: JobId) -> bool {
        self.jobs.contains_key(id) && self.jobs[id].state == JobState::Delayed
    }

    /// Whether `id` is the delayed job that becomes ready next.
    pub open spec fn is_soonest_delayed(self, id: JobId) -> bool {
        self.is_delayed(id) && forall|o: JobId| #[trigger]
            self.is_delayed(o) ==> self.sooner(id, o)
    }

    /// The delayed job that becomes ready next, if there is one.
    pub open spec fn soonest_delayed(self) -> Option<JobId> {
        if exists|id: JobId| self.is_soonest_delayed(id) {
            Some(choose|id: JobId| self.is_soonest_delayed(id))
        } else {
            None
        }
    }

    /// Makes every delayed job ready whose deadline has passed, soonest first,
    /// handing out jobs after each.
    pub open spec fn release_due(self, now: Nanos, out: Out) -> (Model, Out)
        decreases count_jobs(self.jobs, JobSel::Delayed),
    {
        match self.soonest_delayed() {
            Some(id) => if self.jobs[id].deadline_at <= now {
                let r = self.readying(id).process_queue(now, out);
                if count_jobs(r.0.jobs, JobSel::Delayed) < count_jobs(
                    self.jobs,
                    JobSel::Delayed,
                ) {
                    r.0.release_due(now, r.1)
                } else {
                    r
                }
            } else {
                (self, out)
            },
            None => (self, out),
        }
    }

    /// The reservation of connection `c` that runs out first.
    pub open spec fn soonest_reserved(self, c: ConnId) -> Option<(Nanos, JobId)> {
        least(reserved_set(self.jobs, c))
    }

    /// When connection `c` next needs attention.
    pub open spec fn tick_at(self, c: ConnId) -> Option<Nanos> {
        let v = self.conns[c];
        tick_time(v.waiting, v.wait_deadline, self.soonest_reserved(c))
    }

    /// Takes every job from connection `c` whose reservation has run out before
    /// `now`, soonest first, makes it ready, and hands out jobs after each.
    pub open spec fn expire(self, c: ConnId, now: Nanos, out: Out) -> (Model, Out)
        decreases count_jobs(self.jobs, JobSel::Overdue(now)),
    {
        match self.soonest_reserved(c) {
            Some((d, id)) => if d < now {
                let j = self.jobs[id];
                let m = Model { timeout_ct: bump(self.timeout_ct), ..self };
                let n = m.without_job(id).with_job(
                    JobView {
                        state: JobState::Ready,
                        reserver: None,
                        timeout_ct: bump32(j.timeout_ct),
                        ..j
                    },
                );
                let r = n.process_queue(now, out);
                if count_jobs(r.0.jobs, JobSel::Overdue(now)) < count_jobs(
                    self.jobs,
                    JobSel::Overdue(now),
                ) {
                    r.0.expire(c, now, r.1)
                } else {
                    r
                }
            } else {
                (self, out)
            },
            None => (self, out),
        }
    }

    /// Whether a reservation of connection `c` is about to run out, or has.
    pub open spec fn deadline_soon(self, c: ConnId, now: Nanos) -> bool {
        match self.soonest_reserved(c) {
            Some(p) => now >= p.0 - SAFETY_MARGIN,
            None => false,
        }
    }

    /// What happens when connection `c` needs attention: expired reservations
    /// are taken from it; then, if it is waiting, it is told that a deadline is
    /// near, or that its wait is over.
    pub open spec fn attend(self, c: ConnId, now: Nanos, out: Out) -> (Model, Out) {
        let (m, o) = self.expire(c, now, out);
        if !m.conns.contains_key(c) || !m.conns[c].waiting {
            (m, o)
        } else if m.deadline_soon(c, now) {
            (m.stop_waiting(c), o.push((c, ResponseView::DeadlineSoon)))
        } else if m.conns[c].wait_deadline is Some && m.conns[c].wait_deadline->0 <= now {
            (m.stop_waiting(c), o.push((c, ResponseView::TimedOut)))
        } else {
            (m, o)
        }
    }

    /// The connections outside `done` that need attention by `now`, each with
    /// the time at which it does.
    pub open spec fn due_conns(self, done: Set<ConnId>, now: Nanos) -> Set<(Nanos, ConnId)> {
        Set::new(
            |p: (Nanos, ConnId)|
                self.conns.contains_key(p.1) && !done.contains(p.1) && self.tick_at(p.1) == Some(
                    p.0,
                ) && p.0 <= now,
        )
    }

    /// Attends to every connection that needs it, the one that needed it
    /// longest ago first, and to each at most once.
    pub open spec fn attend_all(self, done: Set<ConnId>, now: Nanos, out: Out) -> (Model, Out)
        decreases self.conns.dom().difference(done).len(),
    {
        match least(self.due_conns(done, now)) {
            None => (self, out),
            Some(p) => {
                let r = self.attend(p.1, now, out);
                if r.0.conns.dom().difference(done.insert(p.1)).len()
                    < self.conns.dom().difference(done).len() {
                    r.0.attend_all(done.insert(p.1), now, r.1)
                } else {
                    r
                }
            },
        }
    }

    /// Whether some pause has expired by `now`.
    pub open spec fn pause_expired(self, now: Nanos) -> bool {
        exists|t: TubeId| #[trigger]
            self.live(t) && self.tube(t).pause > 0 && self.tube(t).unpause_at <= now
    }

    /// Everything that is due by `now`: delayed jobs, then pauses, then
    /// connections.
    pub open spec fn tick(self, now: Nanos, out: Out) -> (Model, Out) {
        let (m1, o1) = self.release_due(now, out);
        let (m2, o2) = if m1.pause_expired(now) {
            m1.process_queue(now, o1)
        } else {
            (m1, o1)
        };
        m2.attend_all(Set::empty(), now, o2)
    }

    /// The times at which something is due.
    pub open spec fn due_times(self) -> Set<Nanos> {
        Set::new(
            |d: Nanos|
                {
                    ||| exists|id: JobId| #[trigger]
                        self.is_delayed(id) && self.jobs[id].deadline_at == d
                    ||| exists|t: TubeId| #[trigger]
                        self.live(t) && self.tube(t).pause > 0 && self.tube(t).unpause_at == d
                    ||| exists|c: ConnId| #[trigger]
                        self.conns.contains_key(c) && self.tick_at(c) == Some(d)
                },
        )
    }

    /// With connection `c` known to put jobs.
    pub open spec fn producer(self, c: ConnId) -> Model {
        self.with_conn(c, ConnView { is_producer: true, ..self.conns[c] })
    }

    /// With connection `c` known to reserve jobs.
    pub open spec fn worker(self, c: ConnId) -> Model {
        self.with_conn(c, ConnView { is_worker: true, ..self.conns[c] })
    }

    /// With one more put counted.
    pub open spec fn count_put(self) -> Model {
        Model { ops: OpCounts { cmd_put: bump(self.ops.cmd_put), ..self.ops }, ..self }
    }

    /// With one job id handed out.
    pub open spec fn id_taken(self) -> Model {
        Model { next_job_id: (self.next_job_id + 1) as u64, ..self }
    }

    /// With `e` journaled, if there is a journal.
    pub open spec fn journaling(self, e: EntryView) -> Model {
        if self.cfg.journal {
            Model { journal: self.journal.push(e), ..self }
        } else {
            self
        }
    }

    /// With the present record of job `id` journaled.
    pub open spec fn journaling_update(self, id: JobId) -> Model {
        self.journaling(EntryView::Update(record_of(self.jobs[id])))
    }

    /// With the new job `id` journaled.
    pub open spec fn journaling_put(self, id: JobId) -> Model {
        self.journaling(
            EntryView::Put {
                record: record_of(self.jobs[id]),
                tube: self.tube(self.jobs[id].tube).name,
                body: self.jobs[id].body,
            },
        )
    }
}

} // verus!
