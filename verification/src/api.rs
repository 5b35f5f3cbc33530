//! What goes into the engine and comes out of it: configuration, inputs,
//! replies, journal records and what the host reports of itself.

use crate::buf::{bytes_clone, bytes_of};
use crate::proto::{Command, JobId, PutRejection, Response, ResponseView, TubeName};
use crate::stats::{names_view, StatsServer, StatsTube};
use bytes::Bytes;
use vstd::prelude::*;

verus! {

/// The number of a connection. The server never uses one twice.
pub type ConnId = u64;

/// A point in time, or a span of it, in nanoseconds.
pub type Nanos = u64;

/// Nanoseconds in a second.
pub const NANOS_PER_SEC: Nanos = 1_000_000_000;

/// The latest time that the engine can be told: past it, a deadline as far
/// away as the protocol can ask for has no number.
pub const MAX_NOW: Nanos = 14_151_776_778_709_551_615;

/// Replies, each with the connection that it goes to, in order.
pub type Outbox = Vec<(ConnId, Response)>;

/// The replies of an outbox as plain values.
pub open spec fn sent(out: Seq<(ConnId, Response)>) -> Seq<(ConnId, ResponseView)> {
    out.map_values(|p: (ConnId, Response)| (p.0, p.1@))
}

/// Adds a reply to connection `c`.
pub(crate) fn send(out: &mut Outbox, c: ConnId, r: Response)
    ensures
        sent(final(out)@) == sent(old(out)@).push((c, r@)),
{
    out.push((c, r));
    assert(sent(out@) =~= sent(old(out)@).push((c, r@)));
}

/// How the server is set up.
#[derive(Debug, Clone, Copy, PartialEq, Eq)]
pub struct EngineConfig {
    /// The largest body that a put may have.
    pub max_job_size: u32,
    /// The size of a log file, as `stats` reports it.
    pub binlog_max_size: u64,
    /// Whether the engine keeps journal entries for the log.
    pub journal: bool,
}

impl Default for EngineConfig {
    /// Bodies up to 65535 bytes, log files of 10 MiB, and no journal.
    fn default() -> (r: Self)
        ensures
            r == (EngineConfig { max_job_size: 65535, binlog_max_size: 10_485_760, journal: false }),
    {
        EngineConfig { max_job_size: 65535, binlog_max_size: 10_485_760, journal: false }
    }
}

/// What the host says of itself, for `stats`.
#[derive(Debug, PartialEq, Eq)]
pub struct SysSnapshot {
    pub pid: u64,
    pub version: String,
    /// (seconds, microseconds)
    pub rusage_utime: (u64, u64),
    pub rusage_stime: (u64, u64),
    pub id: String,
    pub hostname: String,
    pub os: String,
    pub platform: String,
}

impl SysSnapshot {
    /// Whether it says nothing: every number is 0 and every text is empty.
    pub open spec fn is_blank(self) -> bool {
        &&& self.pid == 0
        &&& self.version@ == Seq::<char>::empty()
        &&& self.rusage_utime == (0u64, 0u64)
        &&& self.rusage_stime == (0u64, 0u64)
        &&& self.id@ == Seq::<char>::empty()
        &&& self.hostname@ == Seq::<char>::empty()
        &&& self.os@ == Seq::<char>::empty()
        &&& self.platform@ == Seq::<char>::empty()
    }
}

impl Default for SysSnapshot {
    /// Nothing said.
    fn default() -> (r: Self)
        ensures
            r.is_blank(),
    {
        SysSnapshot {
            pid: 0,
            version: String::new(),
            rusage_utime: (0, 0),
            rusage_stime: (0, 0),
            id: String::new(),
            hostname: String::new(),
            os: String::new(),
            platform: String::new(),
        }
    }
}

impl Clone for SysSnapshot {
    fn clone(&self) -> (r: Self)
        ensures
            r == *self,
    {
        SysSnapshot {
            pid: self.pid,
            version: self.version.clone(),
            rusage_utime: self.rusage_utime,
            rusage_stime: self.rusage_stime,
            id: self.id.clone(),
            hostname: self.hostname.clone(),
            os: self.os.clone(),
            platform: self.platform.clone(),
        }
    }
}

/// Where the engine learns about its host.
pub trait SysInfo {
    /// Whether the host may say `s` of itself. Unless an implementation says
    /// otherwise, it may say anything.
    open spec fn says(&self, s: SysSnapshot) -> bool {
        true
    }

    /// What the host says of itself now.
    fn snapshot(&self) -> (r: SysSnapshot)
        ensures
            self.says(r),
    ;
}

/// A host that always says the same.
#[derive(Debug, PartialEq, Eq)]
pub struct StaticSysInfo {
    pub snapshot: SysSnapshot,
}

impl Default for StaticSysInfo {
    /// A host that says nothing of itself.
    fn default() -> (r: Self)
        ensures
            r.snapshot.is_blank(),
    {
        StaticSysInfo { snapshot: SysSnapshot::default() }
    }
}

impl SysInfo for StaticSysInfo {
    open spec fn says(&self, s: SysSnapshot) -> bool {
        s == self.snapshot
    }

    fn snapshot(&self) -> (r: SysSnapshot) {
        self.snapshot.clone()
    }
}

/// The log's figures in `stats`, as the server last reported them.
#[derive(Debug, Clone, Copy, PartialEq, Eq)]
pub struct BinlogStats {
    pub oldest_index: u64,
    pub current_index: u64,
    pub records_written: u64,
    pub records_migrated: u64,
}

impl Default for BinlogStats {
    /// All zero.
    fn default() -> (r: Self)
        ensures
            r == (BinlogStats {
                oldest_index: 0,
                current_index: 0,
                records_written: 0,
                records_migrated: 0,
            }),
    {
        BinlogStats { oldest_index: 0, current_index: 0, records_written: 0, records_migrated: 0 }
    }
}

/// The state that a journal record gives a job.
#[derive(Debug, Clone, Copy, PartialEq, Eq, Structural)]
pub enum RecordState {
    Ready,
    Delayed,
    Buried,
}

/// What the log keeps of a job besides its tube and its body.
#[derive(Debug, Clone, Copy, PartialEq, Eq)]
pub struct JobRecord {
    pub id: JobId,
    pub pri: u32,
    pub delay: u32,
    pub ttr: u32,
    pub created_at: Nanos,
    pub deadline_at: Nanos,
    pub state: RecordState,
    pub reserve_ct: u32,
    pub timeout_ct: u32,
    pub release_ct: u32,
    pub bury_ct: u32,
    pub kick_ct: u32,
}

/// A change for the log to record.
#[derive(Debug, PartialEq, Eq)]
pub enum JournalEntry {
    /// A new job.
    Put { record: JobRecord, tube: TubeName, body: Bytes },
    /// A later transition of a job.
    Update(JobRecord),
    /// A deletion.
    Delete(JobId),
}

/// A journal entry with its name and body as plain sequences.
pub enum EntryView {
    Put { record: JobRecord, tube: Seq<u8>, body: Seq<u8> },
    Update(JobRecord),
    Delete(JobId),
}

impl View for JournalEntry {
    type V = EntryView;

    open spec fn view(&self) -> EntryView {
        match *self {
            JournalEntry::Put { record, tube, body } => EntryView::Put {
                record,
                tube: tube@,
                body: bytes_of(body),
            },
            JournalEntry::Update(record) => EntryView::Update(record),
            JournalEntry::Delete(id) => EntryView::Delete(id),
        }
    }
}

impl Clone for JournalEntry {
    fn clone(&self) -> (r: Self)
        ensures
            r@ == self@,
    {
        match self {
            JournalEntry::Put { record, tube, body } => JournalEntry::Put {
                record: *record,
                tube: tube.clone(),
                body: bytes_clone(body),
            },
            JournalEntry::Update(record) => JournalEntry::Update(*record),
            JournalEntry::Delete(id) => JournalEntry::Delete(*id),
        }
    }
}

/// The entries of a journal as plain values.
pub open spec fn entries(journal: Seq<JournalEntry>) -> Seq<EntryView> {
    journal.map_values(|e: JournalEntry| e@)
}

/// A job that the log holds.
#[derive(Debug, PartialEq, Eq)]
pub struct RecoveredJob {
    pub record: JobRecord,
    pub tube: TubeName,
    pub body: Bytes,
}

/// A job that the log holds, with its tube's name and its body as plain
/// sequences.
#[verifier::ext_equal]
pub struct RecoveredView {
    pub record: JobRecord,
    pub tube: Seq<u8>,
    pub body: Seq<u8>,
}

impl View for RecoveredJob {
    type V = RecoveredView;

    open spec fn view(&self) -> RecoveredView {
        RecoveredView { record: self.record, tube: self.tube@, body: bytes_of(self.body) }
    }
}

impl Clone for RecoveredJob {
    fn clone(&self) -> (r: Self)
        ensures
            r@ == self@,
    {
        RecoveredJob {
            record: self.record,
            tube: self.tube.clone(),
            body: bytes_clone(&self.body),
        }
    }
}

/// Jobs that the log holds, as plain values.
pub open spec fn recovered_view(jobs: Seq<RecoveredJob>) -> Seq<RecoveredView> {
    jobs.map_values(|j: RecoveredJob| j@)
}

/// What the log holds at start-up.
#[derive(Debug, PartialEq, Eq)]
pub struct Recovery {
    /// The jobs, in the order of their first records.
    pub jobs: Vec<RecoveredJob>,
    /// The number after the highest that the log names.
    pub next_id: JobId,
    /// The order of the tubes.
    pub tube_order: Vec<TubeName>,
}

impl Clone for Recovery {
    fn clone(&self) -> (r: Self)
        ensures
            recovered_view(r.jobs@) == recovered_view(self.jobs@),
            r.next_id == self.next_id,
            names_view(r.tube_order@) == names_view(self.tube_order@),
    {
        let n: usize = self.jobs.len();
        let mut jobs: Vec<RecoveredJob> = Vec::new();
        let mut i: usize = 0;
        while i < n
            invariant
                i <= n,
                n == self.jobs@.len(),
                jobs@.len() == i,
                forall|k: int| 0 <= k < i ==> (#[trigger] jobs@[k])@ == self.jobs@[k]@,
            decreases n - i,
        {
            jobs.push(self.jobs[i].clone());
            i = i + 1;
        }
        let m: usize = self.tube_order.len();
        let mut tube_order: Vec<TubeName> = Vec::new();
        let mut k: usize = 0;
        while k < m
            invariant
                k <= m,
                m == self.tube_order@.len(),
                tube_order@.len() == k,
                forall|a: int|
                    0 <= a < k ==> (#[trigger] tube_order@[a])@ == self.tube_order@[a]@,
            decreases m - k,
        {
            tube_order.push(self.tube_order[k].clone());
            k = k + 1;
        }
        assert(recovered_view(jobs@) =~= recovered_view(self.jobs@));
        assert(names_view(tube_order@) =~= names_view(self.tube_order@));
        Recovery { jobs, next_id: self.next_id, tube_order }
    }
}

/// One thing that can happen to the engine.
#[derive(Debug, PartialEq, Eq)]
pub enum EngineInput {
    Connect(ConnId),
    Disconnect(ConnId),
    HalfClose(ConnId),
    PutStarted { conn: ConnId, too_big: bool },
    PutRejected { conn: ConnId, why: PutRejection },
    Command { conn: ConnId, cmd: Command },
    Tick,
    SetDraining(bool),
}

impl Clone for EngineInput {
    fn clone(&self) -> (r: Self)
        ensures
            match (*self, r) {
                (
                    EngineInput::Command { conn, cmd },
                    EngineInput::Command { conn: c, cmd: m },
                ) => c == conn && m@ == cmd@,
                (EngineInput::Command { .. }, _) => false,
                _ => r == *self,
            },
    {
        match self {
            EngineInput::Connect(c) => EngineInput::Connect(*c),
            EngineInput::Disconnect(c) => EngineInput::Disconnect(*c),
            EngineInput::HalfClose(c) => EngineInput::HalfClose(*c),
            EngineInput::PutStarted { conn, too_big } => EngineInput::PutStarted {
                conn: *conn,
                too_big: *too_big,
            },
            EngineInput::PutRejected { conn, why } => EngineInput::PutRejected {
                conn: *conn,
                why: *why,
            },
            EngineInput::Command { conn, cmd } => EngineInput::Command {
                conn: *conn,
                cmd: cmd.clone(),
            },
            EngineInput::Tick => EngineInput::Tick,
            EngineInput::SetDraining(on) => EngineInput::SetDraining(*on),
        }
    }
}

/// Why a state could not be taken over.
#[derive(Debug, PartialEq, Eq)]
pub struct StateError(pub String);

impl StateError {
    /// With the given message.
    pub(crate) fn new(why: &str) -> (r: Self)
        ensures
            r.0@ == why@,
    {
        StateError(why.to_owned())
    }
}

/// What the monitoring endpoints report.
#[derive(Debug, PartialEq, Eq)]
pub struct Snapshot {
    pub server: StatsServer,
    pub tubes: Vec<StatsTube>,
}

} // verus!
