//! Jobs, tubes and connections as the engine holds them, and the plain values
//! that they stand for.

use crate::api::{ConnId, Nanos};
use crate::buf::{bytes_clone, bytes_of};
use crate::ms::{Ms, MsView};
use crate::proto::{JobId, TubeName};
use bytes::Bytes;
use std::collections::{BTreeSet, VecDeque};
use vstd::prelude::*;
use vstd::string::StringSliceAdditionalSpecFns;

verus! {

/// Index of a tube in the engine's slab. Slots are reused only after the tube
/// is destroyed, and every index entry naming a tube is removed when it is
/// destroyed.
pub type TubeId = usize;

/// Where a job is in its life.
#[derive(Debug, Clone, Copy, PartialEq, Eq, Structural)]
pub enum JobState {
    Ready,
    Reserved,
    Delayed,
    Buried,
}

/// A job.
#[derive(Debug, PartialEq, Eq)]
pub struct JobRec {
    pub id: JobId,
    pub tube: TubeId,
    pub pri: u32,
    /// Original delay in whole seconds, as last set by put or release.
    pub delay: u32,
    /// Time to run in whole seconds, already raised from 0 to 1 if needed.
    pub ttr: u32,
    pub body: Bytes,
    pub created_at: Nanos,
    /// Meaningful only while the state is `Delayed` (time to become ready) or
    /// `Reserved` (when the reservation runs out).
    pub deadline_at: Nanos,
    pub state: JobState,
    pub reserver: Option<ConnId>,
    pub reserve_ct: u32,
    pub timeout_ct: u32,
    pub release_ct: u32,
    pub bury_ct: u32,
    pub kick_ct: u32,
    /// Reported as `file` by stats-job: the log's current index known to the
    /// engine when the job's first journal record was produced (0 when there
    /// is no journal, and for recovered jobs).
    pub file: u64,
}

/// A job with its body as a plain sequence.
#[verifier::ext_equal]
pub struct JobView {
    pub id: JobId,
    pub tube: TubeId,
    pub pri: u32,
    pub delay: u32,
    pub ttr: u32,
    pub body: Seq<u8>,
    pub created_at: Nanos,
    pub deadline_at: Nanos,
    pub state: JobState,
    pub reserver: Option<ConnId>,
    pub reserve_ct: u32,
    pub timeout_ct: u32,
    pub release_ct: u32,
    pub bury_ct: u32,
    pub kick_ct: u32,
    pub file: u64,
}

impl View for JobRec {
    type V = JobView;

    open spec fn view(&self) -> JobView {
        JobView {
            id: self.id,
            tube: self.tube,
            pri: self.pri,
            delay: self.delay,
            ttr: self.ttr,
            body: bytes_of(self.body),
            created_at: self.created_at,
            deadline_at: self.deadline_at,
            state: self.state,
            reserver: self.reserver,
            reserve_ct: self.reserve_ct,
            timeout_ct: self.timeout_ct,
            release_ct: self.release_ct,
            bury_ct: self.bury_ct,
            kick_ct: self.kick_ct,
            file: self.file,
        }
    }
}

impl Clone for JobRec {
    fn clone(&self) -> (r: Self)
        ensures
            r@ == self@,
    {
        JobRec {
            id: self.id,
            tube: self.tube,
            pri: self.pri,
            delay: self.delay,
            ttr: self.ttr,
            body: bytes_clone(&self.body),
            created_at: self.created_at,
            deadline_at: self.deadline_at,
            state: self.state,
            reserver: self.reserver,
            reserve_ct: self.reserve_ct,
            timeout_ct: self.timeout_ct,
            release_ct: self.release_ct,
            bury_ct: self.bury_ct,
            kick_ct: self.kick_ct,
            file: self.file,
        }
    }
}

/// The name that stats-job gives a state.
pub open spec fn state_text(s: JobState) -> Seq<u8> {
    match s {
        JobState::Ready => "ready".spec_bytes(),
        JobState::Reserved => "reserved".spec_bytes(),
        JobState::Delayed => "delayed".spec_bytes(),
        JobState::Buried => "buried".spec_bytes(),
    }
}

impl JobRec {
    /// The name of the job's state.
    pub fn state_name(&self) -> (r: &'static str)
        ensures
            r.spec_bytes() == state_text(self.state),
    {
        match self.state {
            JobState::Ready => "ready",
            JobState::Reserved => "reserved",
            JobState::Delayed => "delayed",
            JobState::Buried => "buried",
        }
    }
}

/// A tube's counters.
#[derive(Debug, Clone, Copy, PartialEq, Eq)]
pub struct TubeStat {
    /// Ready jobs with an urgent priority.
    pub urgent_ct: u64,
    pub buried_ct: u64,
    pub reserved_ct: u64,
    pub waiting_ct: u64,
    pub pause_ct: u64,
    pub total_delete_ct: u64,
    pub total_jobs_ct: u64,
}

/// A tube.
#[derive(Debug, PartialEq, Eq)]
pub struct TubeState {
    pub name: TubeName,
    pub ready: BTreeSet<(u32, JobId)>,
    pub delayed: BTreeSet<(Nanos, JobId)>,
    /// First in, first out: the job buried longest ago stands first.
    pub buried: VecDeque<JobId>,
    pub waiting_conns: Ms<ConnId>,
    /// A tube is alive while `using_ct + watching_ct + job_ref_ct > 0`, except
    /// "default", which is immortal.
    pub using_ct: u32,
    pub watching_ct: u32,
    pub job_ref_ct: u64,
    pub stat: TubeStat,
    /// 0 means "not paused"; otherwise the length of the pause. While it is
    /// not 0, the tube is in the engine's index of pauses.
    pub pause: Nanos,
    pub unpause_at: Nanos,
    /// Position in the engine's list of tubes.
    pub pos: usize,
    /// The first deadline in `delayed`, as recorded in the engine's index.
    pub delay_head: Option<Nanos>,
    /// Whether this tube is in the engine's set of tubes that have both
    /// waiting connections and ready jobs.
    pub dispatchable: bool,
}

/// What a tube is, besides what its jobs and the connections say.
#[verifier::ext_equal]
pub struct TubeView {
    pub name: Seq<u8>,
    pub buried: Seq<JobId>,
    pub waiting: MsView<ConnId>,
    pub pause: Nanos,
    pub unpause_at: Nanos,
    pub pause_ct: u64,
    pub total_delete_ct: u64,
    pub total_jobs_ct: u64,
}

impl TubeView {
    /// A tube that has just been made.
    pub open spec fn fresh(name: Seq<u8>) -> TubeView {
        TubeView {
            name,
            buried: Seq::empty(),
            waiting: MsView { items: Seq::empty(), last: 0 },
            pause: 0,
            unpause_at: 0,
            pause_ct: 0,
            total_delete_ct: 0,
            total_jobs_ct: 0,
        }
    }
}

impl View for TubeState {
    type V = TubeView;

    open spec fn view(&self) -> TubeView {
        TubeView {
            name: self.name@,
            buried: self.buried@,
            waiting: self.waiting_conns@,
            pause: self.pause,
            unpause_at: self.unpause_at,
            pause_ct: self.stat.pause_ct,
            total_delete_ct: self.stat.total_delete_ct,
            total_jobs_ct: self.stat.total_jobs_ct,
        }
    }
}

impl TubeState {
    /// A tube that stands at `pos` in the list of tubes and holds nothing.
    pub fn new(name: TubeName, pos: usize) -> (r: Self)
        ensures
            r@ == TubeView::fresh(name@),
            r.name == name,
            r.pos == pos,
            r.ready@ == Set::<(u32, JobId)>::empty(),
            r.delayed@ == Set::<(Nanos, JobId)>::empty(),
            r.using_ct == 0,
            r.watching_ct == 0,
            r.job_ref_ct == 0,
            r.stat.urgent_ct == 0,
            r.stat.buried_ct == 0,
            r.stat.reserved_ct == 0,
            r.stat.waiting_ct == 0,
            r.delay_head is None,
            !r.dispatchable,
    {
        TubeState {
            name,
            ready: BTreeSet::new(),
            delayed: BTreeSet::new(),
            buried: VecDeque::new(),
            waiting_conns: Ms::new(),
            using_ct: 0,
            watching_ct: 0,
            job_ref_ct: 0,
            stat: TubeStat {
                urgent_ct: 0,
                buried_ct: 0,
                reserved_ct: 0,
                waiting_ct: 0,
                pause_ct: 0,
                total_delete_ct: 0,
                total_jobs_ct: 0,
            },
            pause: 0,
            unpause_at: 0,
            pos,
            delay_head: None,
            dispatchable: false,
        }
    }

    /// How many uses, watchers and jobs keep the tube alive.
    pub fn refs(&self) -> (r: u64)
        requires
            self.using_ct + self.watching_ct + self.job_ref_ct <= u64::MAX,
        ensures
            r == self.using_ct + self.watching_ct + self.job_ref_ct,
    {
        self.using_ct as u64 + self.watching_ct as u64 + self.job_ref_ct
    }
}

/// Whether the two tubes hold the same.
pub open spec fn tube_alike(a: TubeState, b: TubeState) -> bool {
    &&& a@ == b@
    &&& a.ready@ == b.ready@
    &&& a.delayed@ == b.delayed@
    &&& a.using_ct == b.using_ct
    &&& a.watching_ct == b.watching_ct
    &&& a.job_ref_ct == b.job_ref_ct
    &&& a.stat == b.stat
    &&& a.pos == b.pos
    &&& a.delay_head == b.delay_head
    &&& a.dispatchable == b.dispatchable
}

impl Clone for TubeState {
    fn clone(&self) -> (r: Self)
        ensures
            tube_alike(*self, r),
    {
        broadcast use crate::ordset::group_ordered;

        let r = TubeState {
            name: self.name.clone(),
            ready: self.ready.clone(),
            delayed: self.delayed.clone(),
            buried: self.buried.clone(),
            waiting_conns: self.waiting_conns.clone(),
            using_ct: self.using_ct,
            watching_ct: self.watching_ct,
            job_ref_ct: self.job_ref_ct,
            stat: self.stat,
            pause: self.pause,
            unpause_at: self.unpause_at,
            pos: self.pos,
            delay_head: self.delay_head,
            dispatchable: self.dispatchable,
        };
        assert(r.buried@ =~= self.buried@);
        assert(r.waiting_conns@.items =~= self.waiting_conns@.items);
        r
    }
}

/// A put whose command line was accepted but whose body has not arrived yet.
#[derive(Debug, Clone, Copy, PartialEq, Eq)]
pub struct PendingPut {
    /// The job id already allocated; `None` for a put that is too big, which
    /// is only counted before its body is discarded.
    pub id: Option<JobId>,
    /// When the command line arrived.
    pub created_at: Nanos,
}

/// A connection.
#[derive(Debug, PartialEq, Eq)]
pub struct ConnState {
    pub use_tube: TubeId,
    pub watch: Ms<TubeId>,
    pub is_producer: bool,
    pub is_worker: bool,
    pub waiting: bool,
    /// When a reserve-with-timeout gives up; `None` means either not waiting,
    /// or waiting with no timeout.
    pub wait_deadline: Option<Nanos>,
    /// The reserved jobs, the oldest reservation first.
    pub reserved_fifo: Vec<JobId>,
    /// The same jobs, ordered by when their reservations run out.
    pub reserved_by_deadline: BTreeSet<(Nanos, JobId)>,
    pub pending_put: Option<PendingPut>,
    /// When the connection next needs attention, as recorded in the engine's
    /// index.
    pub tick_key: Option<Nanos>,
}

/// What a connection is, besides what the jobs that it reserved say.
#[verifier::ext_equal]
pub struct ConnView {
    pub use_tube: TubeId,
    pub watch: MsView<TubeId>,
    pub is_producer: bool,
    pub is_worker: bool,
    pub waiting: bool,
    pub wait_deadline: Option<Nanos>,
    pub reserved: Seq<JobId>,
    pub pending_put: Option<PendingPut>,
}

impl ConnView {
    /// A connection that has just been made: it uses and watches tube 0.
    pub open spec fn fresh() -> ConnView {
        ConnView {
            use_tube: 0,
            watch: MsView { items: seq![0usize], last: 0 },
            is_producer: false,
            is_worker: false,
            waiting: false,
            wait_deadline: None,
            reserved: Seq::empty(),
            pending_put: None,
        }
    }
}

impl View for ConnState {
    type V = ConnView;

    open spec fn view(&self) -> ConnView {
        ConnView {
            use_tube: self.use_tube,
            watch: self.watch@,
            is_producer: self.is_producer,
            is_worker: self.is_worker,
            waiting: self.waiting,
            wait_deadline: self.wait_deadline,
            reserved: self.reserved_fifo@,
            pending_put: self.pending_put,
        }
    }
}

impl ConnState {
    /// A connection that uses and watches `default_tube` alone.
    pub fn new(default_tube: TubeId) -> (r: Self)
        ensures
            r@ == (ConnView {
                use_tube: default_tube,
                watch: MsView { items: seq![default_tube], last: 0 },
                ..ConnView::fresh()
            }),
            r.reserved_by_deadline@ == Set::<(Nanos, JobId)>::empty(),
            r.tick_key is None,
    {
        let mut watch: Ms<TubeId> = Ms::new();
        watch.append(default_tube);
        assert(watch@.items =~= seq![default_tube]);
        ConnState {
            use_tube: default_tube,
            watch,
            is_producer: false,
            is_worker: false,
            waiting: false,
            wait_deadline: None,
            reserved_fifo: Vec::new(),
            reserved_by_deadline: BTreeSet::new(),
            pending_put: None,
            tick_key: None,
        }
    }
}

/// Whether the two connections hold the same.
pub open spec fn conn_alike(a: ConnState, b: ConnState) -> bool {
    &&& a@ == b@
    &&& a.reserved_by_deadline@ == b.reserved_by_deadline@
    &&& a.tick_key == b.tick_key
}

impl Clone for ConnState {
    fn clone(&self) -> (r: Self)
        ensures
            conn_alike(*self, r),
    {
        broadcast use crate::ordset::group_ordered;

        let r = ConnState {
            use_tube: self.use_tube,
            watch: self.watch.clone(),
            is_producer: self.is_producer,
            is_worker: self.is_worker,
            waiting: self.waiting,
            wait_deadline: self.wait_deadline,
            reserved_fifo: self.reserved_fifo.clone(),
            reserved_by_deadline: self.reserved_by_deadline.clone(),
            pending_put: self.pending_put,
            tick_key: self.tick_key,
        };
        assert(r.reserved_fifo@ =~= self.reserved_fifo@);
        assert(r.watch@.items =~= self.watch@.items);
        r
    }
}

/// The jobs as plain values.
pub open spec fn jobs_view(jobs: Map<JobId, JobRec>) -> Map<JobId, JobView> {
    jobs.map_values(|j: JobRec| j@)
}

/// The connections as plain values.
pub open spec fn conns_view(conns: Map<ConnId, ConnState>) -> Map<ConnId, ConnView> {
    conns.map_values(|c: ConnState| c@)
}

/// The slots of the slab as plain values.
pub open spec fn tubes_view(tubes: Seq<Option<TubeState>>) -> Seq<Option<TubeView>> {
    tubes.map_values(
        |t: Option<TubeState>|
            match t {
                Some(t) => Some(t@),
                None => None,
            },
    )
}

} // verus!
