//! The YAML payloads of stats, stats-job, stats-tube and the list commands.
//!
//! Each payload ends with a single `\n`: the reply that carries it appends the
//! `\r\n` that ends every reply.

use crate::buf::{bytes_from_vec, bytes_of};
use crate::proto::{JobId, TubeName};
use crate::text::{decimal, padded, push_decimal, push_padded, push_str};
use bytes::Bytes;
use vstd::prelude::*;
use vstd::string::StringSliceAdditionalSpecFns;
use vstd::utf8::encode_utf8;

verus! {

/// What stats-job reports of a job.
#[derive(Debug, PartialEq, Eq)]
pub struct StatsJob {
    pub id: JobId,
    pub tube: TubeName,
    /// "ready", "delayed", "reserved" or "buried".
    pub state: &'static str,
    pub pri: u32,
    pub age: u64,
    pub delay: u64,
    pub ttr: u64,
    pub time_left: u64,
    pub file: u64,
    pub reserves: u64,
    pub timeouts: u64,
    pub releases: u64,
    pub buries: u64,
    pub kicks: u64,
}

/// What stats-tube reports of a tube.
#[derive(Debug, PartialEq, Eq)]
pub struct StatsTube {
    pub name: TubeName,
    pub current_jobs_urgent: u64,
    pub current_jobs_ready: u64,
    pub current_jobs_reserved: u64,
    pub current_jobs_delayed: u64,
    pub current_jobs_buried: u64,
    pub total_jobs: u64,
    pub current_using: u64,
    pub current_watching: u64,
    pub current_waiting: u64,
    pub cmd_delete: u64,
    pub cmd_pause_tube: u64,
    pub pause: u64,
    pub pause_time_left: u64,
}

/// Server-wide stats, in the order in which they are reported.
#[derive(Debug, PartialEq, Eq)]
pub struct StatsServer {
    pub current_jobs_urgent: u64,
    pub current_jobs_ready: u64,
    pub current_jobs_reserved: u64,
    pub current_jobs_delayed: u64,
    pub current_jobs_buried: u64,
    pub cmd_put: u64,
    pub cmd_peek: u64,
    pub cmd_peek_ready: u64,
    pub cmd_peek_delayed: u64,
    pub cmd_peek_buried: u64,
    pub cmd_reserve: u64,
    pub cmd_reserve_with_timeout: u64,
    pub cmd_delete: u64,
    pub cmd_release: u64,
    pub cmd_use: u64,
    pub cmd_watch: u64,
    pub cmd_ignore: u64,
    pub cmd_bury: u64,
    pub cmd_kick: u64,
    pub cmd_touch: u64,
    pub cmd_stats: u64,
    pub cmd_stats_job: u64,
    pub cmd_stats_tube: u64,
    pub cmd_list_tubes: u64,
    pub cmd_list_tube_used: u64,
    pub cmd_list_tubes_watched: u64,
    pub cmd_pause_tube: u64,
    pub job_timeouts: u64,
    pub total_jobs: u64,
    pub max_job_size: u64,
    pub current_tubes: u64,
    pub current_connections: u64,
    pub current_producers: u64,
    pub current_workers: u64,
    pub current_waiting: u64,
    pub total_connections: u64,
    pub pid: u64,
    pub version: String,
    /// (seconds, microseconds)
    pub rusage_utime: (u64, u64),
    pub rusage_stime: (u64, u64),
    pub uptime: u64,
    pub binlog_oldest_index: u64,
    pub binlog_current_index: u64,
    pub binlog_records_migrated: u64,
    pub binlog_records_written: u64,
    pub binlog_max_size: u64,
    pub draining: bool,
    pub id: String,
    pub hostname: String,
    pub os: String,
    pub platform: String,
}

impl StatsServer {
    /// Whether nothing is reported: every number is 0, every text is empty, and
    /// the server does not drain.
    pub open spec fn is_blank(self) -> bool {
        &&& self.current_jobs_urgent == 0
        &&& self.current_jobs_ready == 0
        &&& self.current_jobs_reserved == 0
        &&& self.current_jobs_delayed == 0
        &&& self.current_jobs_buried == 0
        &&& self.cmd_put == 0
        &&& self.cmd_peek == 0
        &&& self.cmd_peek_ready == 0
        &&& self.cmd_peek_delayed == 0
        &&& self.cmd_peek_buried == 0
        &&& self.cmd_reserve == 0
        &&& self.cmd_reserve_with_timeout == 0
        &&& self.cmd_delete == 0
        &&& self.cmd_release == 0
        &&& self.cmd_use == 0
        &&& self.cmd_watch == 0
        &&& self.cmd_ignore == 0
        &&& self.cmd_bury == 0
        &&& self.cmd_kick == 0
        &&& self.cmd_touch == 0
        &&& self.cmd_stats == 0
        &&& self.cmd_stats_job == 0
        &&& self.cmd_stats_tube == 0
        &&& self.cmd_list_tubes == 0
        &&& self.cmd_list_tube_used == 0
        &&& self.cmd_list_tubes_watched == 0
        &&& self.cmd_pause_tube == 0
        &&& self.job_timeouts == 0
        &&& self.total_jobs == 0
        &&& self.max_job_size == 0
        &&& self.current_tubes == 0
        &&& self.current_connections == 0
        &&& self.current_producers == 0
        &&& self.current_workers == 0
        &&& self.current_waiting == 0
        &&& self.total_connections == 0
        &&& self.pid == 0
        &&& self.version@ == Seq::<char>::empty()
        &&& self.rusage_utime == (0u64, 0u64)
        &&& self.rusage_stime == (0u64, 0u64)
        &&& self.uptime == 0
        &&& self.binlog_oldest_index == 0
        &&& self.binlog_current_index == 0
        &&& self.binlog_records_migrated == 0
        &&& self.binlog_records_written == 0
        &&& self.binlog_max_size == 0
        &&& !self.draining
        &&& self.id@ == Seq::<char>::empty()
        &&& self.hostname@ == Seq::<char>::empty()
        &&& self.os@ == Seq::<char>::empty()
        &&& self.platform@ == Seq::<char>::empty()
    }
}

impl Default for StatsServer {
    /// Nothing to report.
    fn default() -> (r: Self)
        ensures
            r.is_blank(),
    {
        StatsServer {
            current_jobs_urgent: 0,
            current_jobs_ready: 0,
            current_jobs_reserved: 0,
            current_jobs_delayed: 0,
            current_jobs_buried: 0,
            cmd_put: 0,
            cmd_peek: 0,
            cmd_peek_ready: 0,
            cmd_peek_delayed: 0,
            cmd_peek_buried: 0,
            cmd_reserve: 0,
            cmd_reserve_with_timeout: 0,
            cmd_delete: 0,
            cmd_release: 0,
            cmd_use: 0,
            cmd_watch: 0,
            cmd_ignore: 0,
            cmd_bury: 0,
            cmd_kick: 0,
            cmd_touch: 0,
            cmd_stats: 0,
            cmd_stats_job: 0,
            cmd_stats_tube: 0,
            cmd_list_tubes: 0,
            cmd_list_tube_used: 0,
            cmd_list_tubes_watched: 0,
            cmd_pause_tube: 0,
            job_timeouts: 0,
            total_jobs: 0,
            max_job_size: 0,
            current_tubes: 0,
            current_connections: 0,
            current_producers: 0,
            current_workers: 0,
            current_waiting: 0,
            total_connections: 0,
            pid: 0,
            version: String::new(),
            rusage_utime: (0, 0),
            rusage_stime: (0, 0),
            uptime: 0,
            binlog_oldest_index: 0,
            binlog_current_index: 0,
            binlog_records_migrated: 0,
            binlog_records_written: 0,
            binlog_max_size: 0,
            draining: false,
            id: String::new(),
            hostname: String::new(),
            os: String::new(),
            platform: String::new(),
        }
    }
}

/// A `StatsJob` with its text as bytes.
pub struct StatsJobView {
    pub id: JobId,
    pub tube: Seq<u8>,
    pub state: Seq<u8>,
    pub pri: u32,
    pub age: u64,
    pub delay: u64,
    pub ttr: u64,
    pub time_left: u64,
    pub file: u64,
    pub reserves: u64,
    pub timeouts: u64,
    pub releases: u64,
    pub buries: u64,
    pub kicks: u64,
}

impl View for StatsJob {
    type V = StatsJobView;

    open spec fn view(&self) -> StatsJobView {
        StatsJobView {
            id: self.id,
            tube: self.tube@,
            state: self.state.spec_bytes(),
            pri: self.pri,
            age: self.age,
            delay: self.delay,
            ttr: self.ttr,
            time_left: self.time_left,
            file: self.file,
            reserves: self.reserves,
            timeouts: self.timeouts,
            releases: self.releases,
            buries: self.buries,
            kicks: self.kicks,
        }
    }
}

impl Clone for StatsJob {
    fn clone(&self) -> (r: Self)
        ensures
            r@ == self@,
    {
        StatsJob {
            id: self.id,
            tube: self.tube.clone(),
            state: self.state,
            pri: self.pri,
            age: self.age,
            delay: self.delay,
            ttr: self.ttr,
            time_left: self.time_left,
            file: self.file,
            reserves: self.reserves,
            timeouts: self.timeouts,
            releases: self.releases,
            buries: self.buries,
            kicks: self.kicks,
        }
    }
}

/// A `StatsTube` with its text as bytes.
pub struct StatsTubeView {
    pub name: Seq<u8>,
    pub current_jobs_urgent: u64,
    pub current_jobs_ready: u64,
    pub current_jobs_reserved: u64,
    pub current_jobs_delayed: u64,
    pub current_jobs_buried: u64,
    pub total_jobs: u64,
    pub current_using: u64,
    pub current_watching: u64,
    pub current_waiting: u64,
    pub cmd_delete: u64,
    pub cmd_pause_tube: u64,
    pub pause: u64,
    pub pause_time_left: u64,
}

impl View for StatsTube {
    type V = StatsTubeView;

    open spec fn view(&self) -> StatsTubeView {
        StatsTubeView {
            name: self.name@,
            current_jobs_urgent: self.current_jobs_urgent,
            current_jobs_ready: self.current_jobs_ready,
            current_jobs_reserved: self.current_jobs_reserved,
            current_jobs_delayed: self.current_jobs_delayed,
            current_jobs_buried: self.current_jobs_buried,
            total_jobs: self.total_jobs,
            current_using: self.current_using,
            current_watching: self.current_watching,
            current_waiting: self.current_waiting,
            cmd_delete: self.cmd_delete,
            cmd_pause_tube: self.cmd_pause_tube,
            pause: self.pause,
            pause_time_left: self.pause_time_left,
        }
    }
}

impl Clone for StatsTube {
    fn clone(&self) -> (r: Self)
        ensures
            r@ == self@,
    {
        StatsTube {
            name: self.name.clone(),
            current_jobs_urgent: self.current_jobs_urgent,
            current_jobs_ready: self.current_jobs_ready,
            current_jobs_reserved: self.current_jobs_reserved,
            current_jobs_delayed: self.current_jobs_delayed,
            current_jobs_buried: self.current_jobs_buried,
            total_jobs: self.total_jobs,
            current_using: self.current_using,
            current_watching: self.current_watching,
            current_waiting: self.current_waiting,
            cmd_delete: self.cmd_delete,
            cmd_pause_tube: self.cmd_pause_tube,
            pause: self.pause,
            pause_time_left: self.pause_time_left,
        }
    }
}

impl Clone for StatsServer {
    fn clone(&self) -> (r: Self)
        ensures
            r == *self,
    {
        StatsServer {
            current_jobs_urgent: self.current_jobs_urgent,
            current_jobs_ready: self.current_jobs_ready,
            current_jobs_reserved: self.current_jobs_reserved,
            current_jobs_delayed: self.current_jobs_delayed,
            current_jobs_buried: self.current_jobs_buried,
            cmd_put: self.cmd_put,
            cmd_peek: self.cmd_peek,
            cmd_peek_ready: self.cmd_peek_ready,
            cmd_peek_delayed: self.cmd_peek_delayed,
            cmd_peek_buried: self.cmd_peek_buried,
            cmd_reserve: self.cmd_reserve,
            cmd_reserve_with_timeout: self.cmd_reserve_with_timeout,
            cmd_delete: self.cmd_delete,
            cmd_release: self.cmd_release,
            cmd_use: self.cmd_use,
            cmd_watch: self.cmd_watch,
            cmd_ignore: self.cmd_ignore,
            cmd_bury: self.cmd_bury,
            cmd_kick: self.cmd_kick,
            cmd_touch: self.cmd_touch,
            cmd_stats: self.cmd_stats,
            cmd_stats_job: self.cmd_stats_job,
            cmd_stats_tube: self.cmd_stats_tube,
            cmd_list_tubes: self.cmd_list_tubes,
            cmd_list_tube_used: self.cmd_list_tube_used,
            cmd_list_tubes_watched: self.cmd_list_tubes_watched,
            cmd_pause_tube: self.cmd_pause_tube,
            job_timeouts: self.job_timeouts,
            total_jobs: self.total_jobs,
            max_job_size: self.max_job_size,
            current_tubes: self.current_tubes,
            current_connections: self.current_connections,
            current_producers: self.current_producers,
            current_workers: self.current_workers,
            current_waiting: self.current_waiting,
            total_connections: self.total_connections,
            pid: self.pid,
            version: self.version.clone(),
            rusage_utime: self.rusage_utime,
            rusage_stime: self.rusage_stime,
            uptime: self.uptime,
            binlog_oldest_index: self.binlog_oldest_index,
            binlog_current_index: self.binlog_current_index,
            binlog_records_migrated: self.binlog_records_migrated,
            binlog_records_written: self.binlog_records_written,
            binlog_max_size: self.binlog_max_size,
            draining: self.draining,
            id: self.id.clone(),
            hostname: self.hostname.clone(),
            os: self.os.clone(),
            platform: self.platform.clone(),
        }
    }
}

/// One line of a payload: the key, the value, and a newline.
pub open spec fn line(key: &str, value: Seq<u8>) -> Seq<u8> {
    key.spec_bytes() + value + "\n".spec_bytes()
}

/// `value` between double quotes.
pub open spec fn quoted(value: Seq<u8>) -> Seq<u8> {
    "\"".spec_bytes() + value + "\"".spec_bytes()
}

/// A time as whole seconds, a dot, and six digits of microseconds.
pub open spec fn seconds(t: (u64, u64)) -> Seq<u8> {
    decimal(t.0 as nat) + ".".spec_bytes() + padded(t.1 as nat, 6)
}

/// `true` or `false`.
pub open spec fn truth(b: bool) -> Seq<u8> {
    if b {
        "true".spec_bytes()
    } else {
        "false".spec_bytes()
    }
}

/// The payload of stats-job.
#[verifier::opaque]
pub open spec fn job_yaml(s: StatsJobView) -> Seq<u8> {
    "---\n".spec_bytes()
        + line("id: ", decimal(s.id as nat))
        + line("tube: ", quoted(s.tube))
        + line("state: ", s.state)
        + line("pri: ", decimal(s.pri as nat))
        + line("age: ", decimal(s.age as nat))
        + line("delay: ", decimal(s.delay as nat))
        + line("ttr: ", decimal(s.ttr as nat))
        + line("time-left: ", decimal(s.time_left as nat))
        + line("file: ", decimal(s.file as nat))
        + line("reserves: ", decimal(s.reserves as nat))
        + line("timeouts: ", decimal(s.timeouts as nat))
        + line("releases: ", decimal(s.releases as nat))
        + line("buries: ", decimal(s.buries as nat))
        + line("kicks: ", decimal(s.kicks as nat))
}

/// The payload of stats-tube.
#[verifier::opaque]
pub open spec fn tube_yaml(s: StatsTubeView) -> Seq<u8> {
    "---\n".spec_bytes()
        + line("name: ", quoted(s.name))
        + line("current-jobs-urgent: ", decimal(s.current_jobs_urgent as nat))
        + line("current-jobs-ready: ", decimal(s.current_jobs_ready as nat))
        + line("current-jobs-reserved: ", decimal(s.current_jobs_reserved as nat))
        + line("current-jobs-delayed: ", decimal(s.current_jobs_delayed as nat))
        + line("current-jobs-buried: ", decimal(s.current_jobs_buried as nat))
        + line("total-jobs: ", decimal(s.total_jobs as nat))
        + line("current-using: ", decimal(s.current_using as nat))
        + line("current-watching: ", decimal(s.current_watching as nat))
        + line("current-waiting: ", decimal(s.current_waiting as nat))
        + line("cmd-delete: ", decimal(s.cmd_delete as nat))
        + line("cmd-pause-tube: ", decimal(s.cmd_pause_tube as nat))
        + line("pause: ", decimal(s.pause as nat))
        + line("pause-time-left: ", decimal(s.pause_time_left as nat))
}

/// The payload of stats.
#[verifier::opaque]
pub open spec fn server_yaml(s: StatsServer) -> Seq<u8> {
    "---\n".spec_bytes()
        + line("current-jobs-urgent: ", decimal(s.current_jobs_urgent as nat))
        + line("current-jobs-ready: ", decimal(s.current_jobs_ready as nat))
        + line("current-jobs-reserved: ", decimal(s.current_jobs_reserved as nat))
        + line("current-jobs-delayed: ", decimal(s.current_jobs_delayed as nat))
        + line("current-jobs-buried: ", decimal(s.current_jobs_buried as nat))
        + line("cmd-put: ", decimal(s.cmd_put as nat))
        + line("cmd-peek: ", decimal(s.cmd_peek as nat))
        + line("cmd-peek-ready: ", decimal(s.cmd_peek_ready as nat))
        + line("cmd-peek-delayed: ", decimal(s.cmd_peek_delayed as nat))
        + line("cmd-peek-buried: ", decimal(s.cmd_peek_buried as nat))
        + line("cmd-reserve: ", decimal(s.cmd_reserve as nat))
        + line("cmd-reserve-with-timeout: ", decimal(s.cmd_reserve_with_timeout as nat))
        + line("cmd-delete: ", decimal(s.cmd_delete as nat))
        + line("cmd-release: ", decimal(s.cmd_release as nat))
        + line("cmd-use: ", decimal(s.cmd_use as nat))
        + line("cmd-watch: ", decimal(s.cmd_watch as nat))
        + line("cmd-ignore: ", decimal(s.cmd_ignore as nat))
        + line("cmd-bury: ", decimal(s.cmd_bury as nat))
        + line("cmd-kick: ", decimal(s.cmd_kick as nat))
        + line("cmd-touch: ", decimal(s.cmd_touch as nat))
        + line("cmd-stats: ", decimal(s.cmd_stats as nat))
        + line("cmd-stats-job: ", decimal(s.cmd_stats_job as nat))
        + line("cmd-stats-tube: ", decimal(s.cmd_stats_tube as nat))
        + line("cmd-list-tubes: ", decimal(s.cmd_list_tubes as nat))
        + line("cmd-list-tube-used: ", decimal(s.cmd_list_tube_used as nat))
        + line("cmd-list-tubes-watched: ", decimal(s.cmd_list_tubes_watched as nat))
        + line("cmd-pause-tube: ", decimal(s.cmd_pause_tube as nat))
        + line("job-timeouts: ", decimal(s.job_timeouts as nat))
        + line("total-jobs: ", decimal(s.total_jobs as nat))
        + line("max-job-size: ", decimal(s.max_job_size as nat))
        + line("current-tubes: ", decimal(s.current_tubes as nat))
        + line("current-connections: ", decimal(s.current_connections as nat))
        + line("current-producers: ", decimal(s.current_producers as nat))
        + line("current-workers: ", decimal(s.current_workers as nat))
        + line("current-waiting: ", decimal(s.current_waiting as nat))
        + line("total-connections: ", decimal(s.total_connections as nat))
        + line("pid: ", decimal(s.pid as nat))
        + line("version: ", quoted(encode_utf8(s.version@)))
        + line("rusage-utime: ", seconds(s.rusage_utime))
        + line("rusage-stime: ", seconds(s.rusage_stime))
        + line("uptime: ", decimal(s.uptime as nat))
        + line("binlog-oldest-index: ", decimal(s.binlog_oldest_index as nat))
        + line("binlog-current-index: ", decimal(s.binlog_current_index as nat))
        + line("binlog-records-migrated: ", decimal(s.binlog_records_migrated as nat))
        + line("binlog-records-written: ", decimal(s.binlog_records_written as nat))
        + line("binlog-max-size: ", decimal(s.binlog_max_size as nat))
        + line("draining: ", truth(s.draining))
        + line("id: ", encode_utf8(s.id@))
        + line("hostname: ", quoted(encode_utf8(s.hostname@)))
        + line("os: ", quoted(encode_utf8(s.os@)))
        + line("platform: ", quoted(encode_utf8(s.platform@)))
}

/// The payload of the list commands: one line for each name.
pub open spec fn list_yaml(names: Seq<Seq<u8>>) -> Seq<u8>
    decreases names.len(),
{
    if names.len() == 0 {
        "---\n".spec_bytes()
    } else {
        list_yaml(names.drop_last()) + line("- ", names.last())
    }
}

fn push_number(out: &mut Vec<u8>, key: &str, n: u64)
    ensures
        final(out)@ == old(out)@ + line(key, decimal(n as nat)),
{
    push_str(out, key);
    push_decimal(out, n);
    push_str(out, "\n");
    assert(out@ =~= old(out)@ + line(key, decimal(n as nat)));
}

fn push_text(out: &mut Vec<u8>, key: &str, value: &str)
    ensures
        final(out)@ == old(out)@ + line(key, value.spec_bytes()),
{
    push_str(out, key);
    push_str(out, value);
    push_str(out, "\n");
    assert(out@ =~= old(out)@ + line(key, value.spec_bytes()));
}

fn push_quoted(out: &mut Vec<u8>, key: &str, value: &str)
    ensures
        final(out)@ == old(out)@ + line(key, quoted(value.spec_bytes())),
{
    push_str(out, key);
    push_str(out, "\"");
    push_str(out, value);
    push_str(out, "\"");
    push_str(out, "\n");
    assert(out@ =~= old(out)@ + line(key, quoted(value.spec_bytes())));
}

fn push_seconds(out: &mut Vec<u8>, key: &str, t: (u64, u64))
    ensures
        final(out)@ == old(out)@ + line(key, seconds(t)),
{
    push_str(out, key);
    push_decimal(out, t.0);
    push_str(out, ".");
    push_padded(out, t.1, 6);
    push_str(out, "\n");
    assert(out@ =~= old(out)@ + line(key, seconds(t)));
}

impl StatsJob {
    /// The payload of stats-job.
    pub fn to_yaml(&self) -> (r: Bytes)
        ensures
            bytes_of(r) == job_yaml(self@),
    {
        reveal(job_yaml);
        let mut out: Vec<u8> = Vec::new();
        push_str(&mut out, "---\n");
        assert(out@ =~= "---\n".spec_bytes());
        push_number(&mut out, "id: ", self.id);
        push_quoted(&mut out, "tube: ", self.tube.as_str());
        push_text(&mut out, "state: ", self.state);
        push_number(&mut out, "pri: ", self.pri as u64);
        push_number(&mut out, "age: ", self.age);
        push_number(&mut out, "delay: ", self.delay);
        push_number(&mut out, "ttr: ", self.ttr);
        push_number(&mut out, "time-left: ", self.time_left);
        push_number(&mut out, "file: ", self.file);
        push_number(&mut out, "reserves: ", self.reserves);
        push_number(&mut out, "timeouts: ", self.timeouts);
        push_number(&mut out, "releases: ", self.releases);
        push_number(&mut out, "buries: ", self.buries);
        push_number(&mut out, "kicks: ", self.kicks);
        bytes_from_vec(out)
    }
}

impl StatsTube {
    /// The payload of stats-tube.
    pub fn to_yaml(&self) -> (r: Bytes)
        ensures
            bytes_of(r) == tube_yaml(self@),
    {
        reveal(tube_yaml);
        let mut out: Vec<u8> = Vec::new();
        push_str(&mut out, "---\n");
        assert(out@ =~= "---\n".spec_bytes());
        push_quoted(&mut out, "name: ", self.name.as_str());
        push_number(&mut out, "current-jobs-urgent: ", self.current_jobs_urgent);
        push_number(&mut out, "current-jobs-ready: ", self.current_jobs_ready);
        push_number(&mut out, "current-jobs-reserved: ", self.current_jobs_reserved);
        push_number(&mut out, "current-jobs-delayed: ", self.current_jobs_delayed);
        push_number(&mut out, "current-jobs-buried: ", self.current_jobs_buried);
        push_number(&mut out, "total-jobs: ", self.total_jobs);
        push_number(&mut out, "current-using: ", self.current_using);
        push_number(&mut out, "current-watching: ", self.current_watching);
        push_number(&mut out, "current-waiting: ", self.current_waiting);
        push_number(&mut out, "cmd-delete: ", self.cmd_delete);
        push_number(&mut out, "cmd-pause-tube: ", self.cmd_pause_tube);
        push_number(&mut out, "pause: ", self.pause);
        push_number(&mut out, "pause-time-left: ", self.pause_time_left);
        bytes_from_vec(out)
    }
}

impl StatsServer {
    /// The payload of stats.
    pub fn to_yaml(&self) -> (r: Bytes)
        ensures
            bytes_of(r) == server_yaml(*self),
    {
        reveal(server_yaml);
        let mut out: Vec<u8> = Vec::new();
        push_str(&mut out, "---\n");
        assert(out@ =~= "---\n".spec_bytes());
        push_number(&mut out, "current-jobs-urgent: ", self.current_jobs_urgent);
        push_number(&mut out, "current-jobs-ready: ", self.current_jobs_ready);
        push_number(&mut out, "current-jobs-reserved: ", self.current_jobs_reserved);
        push_number(&mut out, "current-jobs-delayed: ", self.current_jobs_delayed);
        push_number(&mut out, "current-jobs-buried: ", self.current_jobs_buried);
        push_number(&mut out, "cmd-put: ", self.cmd_put);
        push_number(&mut out, "cmd-peek: ", self.cmd_peek);
        push_number(&mut out, "cmd-peek-ready: ", self.cmd_peek_ready);
        push_number(&mut out, "cmd-peek-delayed: ", self.cmd_peek_delayed);
        push_number(&mut out, "cmd-peek-buried: ", self.cmd_peek_buried);
        push_number(&mut out, "cmd-reserve: ", self.cmd_reserve);
        push_number(&mut out, "cmd-reserve-with-timeout: ", self.cmd_reserve_with_timeout);
        push_number(&mut out, "cmd-delete: ", self.cmd_delete);
        push_number(&mut out, "cmd-release: ", self.cmd_release);
        push_number(&mut out, "cmd-use: ", self.cmd_use);
        push_number(&mut out, "cmd-watch: ", self.cmd_watch);
        push_number(&mut out, "cmd-ignore: ", self.cmd_ignore);
        push_number(&mut out, "cmd-bury: ", self.cmd_bury);
        push_number(&mut out, "cmd-kick: ", self.cmd_kick);
        push_number(&mut out, "cmd-touch: ", self.cmd_touch);
        push_number(&mut out, "cmd-stats: ", self.cmd_stats);
        push_number(&mut out, "cmd-stats-job: ", self.cmd_stats_job);
        push_number(&mut out, "cmd-stats-tube: ", self.cmd_stats_tube);
        push_number(&mut out, "cmd-list-tubes: ", self.cmd_list_tubes);
        push_number(&mut out, "cmd-list-tube-used: ", self.cmd_list_tube_used);
        push_number(&mut out, "cmd-list-tubes-watched: ", self.cmd_list_tubes_watched);
        push_number(&mut out, "cmd-pause-tube: ", self.cmd_pause_tube);
        push_number(&mut out, "job-timeouts: ", self.job_timeouts);
        push_number(&mut out, "total-jobs: ", self.total_jobs);
        push_number(&mut out, "max-job-size: ", self.max_job_size);
        push_number(&mut out, "current-tubes: ", self.current_tubes);
        push_number(&mut out, "current-connections: ", self.current_connections);
        push_number(&mut out, "current-producers: ", self.current_producers);
        push_number(&mut out, "current-workers: ", self.current_workers);
        push_number(&mut out, "current-waiting: ", self.current_waiting);
        push_number(&mut out, "total-connections: ", self.total_connections);
        push_number(&mut out, "pid: ", self.pid);
        push_quoted(&mut out, "version: ", self.version.as_str());
        push_seconds(&mut out, "rusage-utime: ", self.rusage_utime);
        push_seconds(&mut out, "rusage-stime: ", self.rusage_stime);
        push_number(&mut out, "uptime: ", self.uptime);
        push_number(&mut out, "binlog-oldest-index: ", self.binlog_oldest_index);
        push_number(&mut out, "binlog-current-index: ", self.binlog_current_index);
        push_number(&mut out, "binlog-records-migrated: ", self.binlog_records_migrated);
        push_number(&mut out, "binlog-records-written: ", self.binlog_records_written);
        push_number(&mut out, "binlog-max-size: ", self.binlog_max_size);
        if self.draining {
            push_text(&mut out, "draining: ", "true");
        } else {
            push_text(&mut out, "draining: ", "false");
        }
        push_text(&mut out, "id: ", self.id.as_str());
        push_quoted(&mut out, "hostname: ", self.hostname.as_str());
        push_quoted(&mut out, "os: ", self.os.as_str());
        push_quoted(&mut out, "platform: ", self.platform.as_str());
        bytes_from_vec(out)
    }
}

/// The names' bytes.
pub open spec fn names_view(names: Seq<TubeName>) -> Seq<Seq<u8>> {
    names.map_values(|n: TubeName| n@)
}

/// The payload of list-tubes and list-tubes-watched.
pub fn yaml_list(names: &[TubeName]) -> (r: Bytes)
    ensures
        bytes_of(r) == list_yaml(names_view(names@)),
{
    let mut out: Vec<u8> = Vec::new();
    push_str(&mut out, "---\n");
    assert(out@ =~= "---\n".spec_bytes());
    let n: usize = names.len();
    let mut i: usize = 0;
    assert(names_view(names@).take(0).len() == 0);
    while i < n
        invariant
            i <= n,
            n == names@.len(),
            out@ == list_yaml(names_view(names@).take(i as int)),
        decreases n - i,
    {
        push_text(&mut out, "- ", names[i].as_str());
        proof {
            let now = names_view(names@).take(i + 1);
            assert(now.drop_last() =~= names_view(names@).take(i as int));
            assert(now.last() == names@[i as int]@);
        }
        i = i + 1;
    }
    assert(names_view(names@).take(n as int) =~= names_view(names@));
    bytes_from_vec(out)
}

} // verus!
