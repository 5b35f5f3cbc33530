//! What holds whatever happens, on random histories.

use bstk::api::{
    BinlogStats, ConnId, EngineConfig, EngineInput, JobRecord, JournalEntry, Nanos, Outbox,
    RecordState, RecoveredJob, Recovery, StaticSysInfo, SysSnapshot, NANOS_PER_SEC,
};
use bstk::engine::Engine;
use bstk::model::{JobRec, JobState};
use bstk::proto::{Command, JobId, Response, TubeName};
use bytes::Bytes;
use std::collections::BTreeMap;

const CONNS: u64 = 5;
const NAMES: [&str; 4] = ["default", "a", "b", "c"];

fn sys() -> StaticSysInfo {
    StaticSysInfo { snapshot: SysSnapshot::default() }
}

fn engine(journal: bool) -> Engine {
    Engine::new(0, EngineConfig { journal, ..EngineConfig::default() }, Box::new(sys()))
}

/// Numbers that look random and are the same every time.
struct Dice(u64);

impl Dice {
    fn below(&mut self, n: u64) -> u64 {
        self.0 = self.0.wrapping_mul(6364136223846793005).wrapping_add(1442695040888963407);
        (self.0 >> 33) % n
    }

    fn tube(&mut self) -> TubeName {
        TubeName::new(NAMES[self.below(4) as usize]).unwrap()
    }

    fn job(&mut self) -> JobId {
        self.below(12)
    }

    fn small(&mut self) -> u32 {
        self.below(4) as u32
    }

    fn command(&mut self) -> Command {
        match self.below(20) {
            0..=3 => Command::Put {
                pri: self.below(3) as u32 * 1000,
                delay: self.small(),
                ttr: self.small(),
                body: Bytes::copy_from_slice(&[b'x', self.below(256) as u8]),
            },
            4 => Command::Use(self.tube()),
            5 => Command::Watch(self.tube()),
            6 => Command::Ignore(self.tube()),
            7 => Command::Reserve,
            8 | 9 => Command::ReserveWithTimeout(self.small()),
            10 => Command::ReserveJob(self.job()),
            11 => Command::Delete(self.job()),
            12 | 13 => Command::Release {
                id: self.job(),
                pri: self.small(),
                delay: self.small(),
            },
            14 | 15 => Command::Bury { id: self.job(), pri: self.small() },
            16 => Command::Touch(self.job()),
            17 => Command::Kick(self.small()),
            18 => Command::KickJob(self.job()),
            _ => Command::PauseTube { tube: self.tube(), delay: self.small() },
        }
    }
}

/// One step of a history: the time and what happens then.
type Step = (Nanos, EngineInput);

/// Picks a step that can happen to `e`. Connection numbers are used once.
fn pick(dice: &mut Dice, e: &Engine, now: Nanos, used: &mut u64) -> Step {
    let now = now + dice.below(3) * (NANOS_PER_SEC / 2);
    let state = e.export_state();
    let open: Vec<ConnId> = state.conns.iter().map(|(c, _)| *c).collect();
    if open.is_empty() || (open.len() < CONNS as usize && dice.below(8) == 0) {
        *used += 1;
        return (now, EngineInput::Connect(*used));
    }
    let conn = open[dice.below(open.len() as u64) as usize];
    let waiting = state.conns.iter().any(|(c, v)| *c == conn && v.waiting);
    let input = match dice.below(24) {
        0 => EngineInput::Disconnect(conn),
        1 => EngineInput::HalfClose(conn),
        2 => EngineInput::Tick,
        3 => EngineInput::PutStarted { conn, too_big: dice.below(4) == 0 },
        _ if waiting => EngineInput::Tick,
        _ => EngineInput::Command { conn, cmd: dice.command() },
    };
    (now, input)
}

/// A history of `n` steps.
fn history(seed: u64, n: usize) -> Vec<Step> {
    let mut dice = Dice(seed);
    let mut e = engine(false);
    let mut now = 0;
    let mut used = 0;
    let mut out = Outbox::new();
    let mut steps = Vec::new();
    for _ in 0..n {
        let (at, input) = pick(&mut dice, &e, now, &mut used);
        now = at;
        e.apply_input(now, input.clone(), &mut out);
        steps.push((now, input));
    }
    steps
}

fn jobs(e: &Engine) -> BTreeMap<JobId, (JobRec, TubeName)> {
    let s = e.export_state();
    s.jobs
        .iter()
        .map(|j| (j.id, (j.clone(), s.tubes[j.tube].clone().unwrap().name)))
        .collect()
}

fn record(j: &JobRec) -> JobRecord {
    JobRecord {
        id: j.id,
        pri: j.pri,
        delay: j.delay,
        ttr: j.ttr,
        created_at: j.created_at,
        deadline_at: if j.state == JobState::Delayed { j.deadline_at } else { 0 },
        state: match j.state {
            JobState::Delayed => RecordState::Delayed,
            JobState::Buried => RecordState::Buried,
            JobState::Ready | JobState::Reserved => RecordState::Ready,
        },
        reserve_ct: j.reserve_ct,
        timeout_ct: j.timeout_ct,
        release_ct: j.release_ct,
        bury_ct: j.bury_ct,
        kick_ct: j.kick_ct,
    }
}

/// Gives a log that holds `held` the entry `e`.
fn note(held: &mut Vec<RecoveredJob>, e: JournalEntry) {
    match e {
        JournalEntry::Put { record, tube, body } => held.push(RecoveredJob { record, tube, body }),
        JournalEntry::Update(r) => {
            for j in held.iter_mut().filter(|j| j.record.id == r.id) {
                j.record = r;
            }
        }
        JournalEntry::Delete(id) => held.retain(|j| j.record.id != id),
    }
}

#[test]
fn state_machine_invariants_hold() {
    for seed in 0..40 {
        let mut e = engine(seed % 2 == 0);
        let mut out = Outbox::new();
        for (now, input) in history(seed, 60) {
            e.apply_input(now, input, &mut out);
            assert!(Engine::import_state(e.export_state(), Box::new(sys())).is_ok());
        }
    }
}

#[test]
fn journal_replay_recovers_the_jobs() {
    for seed in 100..140 {
        let mut e = engine(true);
        let mut out = Outbox::new();
        let mut held: Vec<RecoveredJob> = Vec::new();
        let mut now = 0;
        for (at, input) in history(seed, 80) {
            now = at;
            e.apply_input(now, input, &mut out);
            let mut new = Vec::new();
            e.take_journal(&mut new);
            for entry in new {
                note(&mut held, entry);
            }
            let live = jobs(&e);
            let mut ids: Vec<JobId> = held.iter().map(|j| j.record.id).collect();
            ids.sort_unstable();
            assert_eq!(ids, live.keys().copied().collect::<Vec<_>>());
            for h in &held {
                let (j, tube) = &live[&h.record.id];
                assert_eq!((&h.tube, &h.body), (tube, &j.body));
                assert_eq!((h.record.created_at, h.record.ttr), (j.created_at, j.ttr));
                if matches!(j.state, JobState::Buried | JobState::Delayed) {
                    assert_eq!(h.record, record(j));
                }
            }
        }
        let before = jobs(&e);
        let next_id = held.iter().map(|j| j.record.id).max().unwrap_or(0) + 1;
        let mut r = Engine::recover(
            now,
            EngineConfig { journal: true, ..EngineConfig::default() },
            Box::new(sys()),
            Recovery { jobs: held, next_id, tube_order: Vec::new() },
        );
        let after = jobs(&r);
        assert_eq!(
            before.keys().collect::<Vec<_>>(),
            after.keys().collect::<Vec<_>>()
        );
        for (id, (a, tube)) in &before {
            let (b, other) = &after[id];
            assert_eq!((tube, &a.body), (other, &b.body));
            if a.state == JobState::Buried {
                assert_eq!((b.state, b.bury_ct), (JobState::Buried, a.bury_ct + 1));
            }
            if a.state == JobState::Delayed {
                assert_eq!((b.state, b.deadline_at), (JobState::Delayed, a.deadline_at));
            }
        }
        let mut new = Vec::new();
        r.take_journal(&mut new);
        assert_eq!(new, vec![]);
    }
}

#[test]
fn journal_changes_nothing_seen() {
    for seed in 200..240 {
        let mut a = engine(false);
        let mut b = engine(true);
        for e in [&mut a, &mut b] {
            e.set_binlog_stats(BinlogStats {
                oldest_index: 1,
                current_index: seed % 3,
                records_written: 0,
                records_migrated: 0,
            });
        }
        for (now, input) in history(seed, 80) {
            let mut x = Outbox::new();
            let mut y = Outbox::new();
            a.apply_input(now, input.clone(), &mut x);
            b.apply_input(now, input, &mut y);
            assert_eq!(x, y);
            assert_eq!(a.build_stats_server(now), b.build_stats_server(now));
            assert_eq!(a.next_deadline(), b.next_deadline());
            let mut j = Vec::new();
            a.take_journal(&mut j);
            assert_eq!(j, vec![]);
        }
    }
}

#[test]
fn jobs_remember_the_file_they_are_logged_in() {
    let put = |e: &mut Engine| {
        e.set_binlog_stats(BinlogStats {
            oldest_index: 1,
            current_index: 3,
            records_written: 0,
            records_migrated: 0,
        });
        e.connect(0, 1);
        let mut out = Outbox::new();
        let cmd = Command::Put { pri: 0, delay: 0, ttr: 1, body: Bytes::from_static(b"x") };
        e.handle(0, 1, cmd, &mut out);
        assert_eq!(out, vec![(1, Response::Inserted(1))]);
        e.build_stats_job(1, 0).unwrap().file
    };
    assert_eq!(put(&mut engine(true)), 3);
    assert_eq!(put(&mut engine(false)), 0);
}

#[test]
fn jobs_stay_until_they_are_deleted() {
    for seed in 300..340 {
        let mut e = engine(false);
        let mut out = Outbox::new();
        for (now, input) in history(seed, 80) {
            let before = jobs(&e);
            out.clear();
            e.apply_input(now, input.clone(), &mut out);
            let after = jobs(&e);
            for (id, (a, tube)) in &before {
                match after.get(id) {
                    Some((b, other)) => {
                        assert_eq!((tube, &a.body), (other, &b.body));
                        assert_eq!((a.ttr, a.created_at), (b.ttr, b.created_at));
                    }
                    None => assert!(matches!(
                        &input,
                        EngineInput::Command { cmd: Command::Delete(d), .. } if d == id
                    )),
                }
            }
            for id in after.keys().filter(|id| !before.contains_key(id)) {
                assert!(matches!(&input, EngineInput::Command { cmd: Command::Put { .. }, .. }));
                assert!(out.contains(&(conn_of(&input), Response::Inserted(*id))));
            }
        }
    }
}

fn conn_of(input: &EngineInput) -> ConnId {
    match input {
        EngineInput::Command { conn, .. } => *conn,
        _ => 0,
    }
}

#[test]
fn refusals_change_nothing() {
    for seed in 400..420 {
        let mut e = engine(true);
        let mut out = Outbox::new();
        for (now, input) in history(seed, 60) {
            e.apply_input(now, input, &mut out);
            let open = e.conn_ids();
            let Some(c) = open.first() else { continue };
            if e.export_state().conns[0].1.waiting {
                continue;
            }
            let gone = TubeName::new("gone").unwrap();
            for cmd in [
                Command::Delete(1_000),
                Command::Touch(1_000),
                Command::Bury { id: 1_000, pri: 0 },
                Command::Release { id: 1_000, pri: 0, delay: 1 },
                Command::KickJob(1_000),
                Command::ReserveJob(1_000),
                Command::Peek(1_000),
                Command::StatsJob(1_000),
                Command::StatsTube(gone.clone()),
                Command::PauseTube { tube: gone.clone(), delay: 5 },
            ] {
                let before = e.export_state();
                let mut replies = Outbox::new();
                e.handle(now, *c, cmd, &mut replies);
                assert_eq!(replies, vec![(*c, Response::NotFound)]);
                let mut after = e.export_state();
                after.ops = before.ops;
                assert_eq!(after, before);
            }
        }
    }
}
