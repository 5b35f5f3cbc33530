//! Taking the state out of an engine and making an engine of one.

use bstk::api::{
    ConnId, EngineConfig, EngineInput, Nanos, Outbox, StaticSysInfo, SysSnapshot, NANOS_PER_SEC,
};
use bstk::engine::Engine;
use bstk::model::JobState;
use bstk::proto::{Command, Response, TubeName};
use bytes::Bytes;

const SEC: Nanos = NANOS_PER_SEC;

fn sys() -> Box<StaticSysInfo> {
    Box::new(StaticSysInfo { snapshot: SysSnapshot::default() })
}

fn new_engine(journal: bool) -> Engine {
    Engine::new(
        0,
        EngineConfig {
            journal,
            ..EngineConfig::default()
        },
        sys(),
    )
}

/// An engine made of the state of another, which must export the same.
fn restore(e: &Engine) -> Engine {
    let s = e.export_state();
    let r = Engine::import_state(s.clone(), sys()).unwrap();
    assert_eq!(r.export_state(), s);
    r
}

fn command(e: &mut Engine, now: Nanos, conn: ConnId, cmd: Command) -> Outbox {
    let mut out = Outbox::new();
    e.apply_input(now, EngineInput::Command { conn, cmd }, &mut out);
    out
}

fn put(pri: u32, delay: u32, ttr: u32) -> Command {
    Command::Put {
        pri,
        delay,
        ttr,
        body: Bytes::from_static(b"x"),
    }
}

/// An engine in the middle of work: jobs in every state, a connection that
/// waits, and a tube that is paused.
fn busy_engine() -> Engine {
    let mut e = new_engine(false);
    let mut out = Outbox::new();
    for c in 1..=3 {
        e.apply_input(0, EngineInput::Connect(c), &mut out);
    }
    command(&mut e, 0, 1, put(5, 0, 10));
    command(&mut e, 0, 1, put(6, 0, 10));
    command(&mut e, 0, 1, put(7, 30, 10));
    command(&mut e, 0, 1, put(2000, 0, 10));
    command(&mut e, 0, 2, Command::Reserve);
    command(&mut e, 0, 2, Command::Reserve);
    command(&mut e, 0, 2, Command::Bury { id: 2, pri: 6 });
    command(&mut e, 0, 3, Command::Watch(TubeName::new("idle").unwrap()));
    command(&mut e, 0, 3, Command::Ignore(TubeName::default_tube()));
    command(&mut e, 0, 3, Command::ReserveWithTimeout(20));
    command(
        &mut e,
        0,
        1,
        Command::PauseTube {
            tube: TubeName::default_tube(),
            delay: 3,
        },
    );
    e
}

#[test]
fn fresh_engine_round_trips() {
    for journal in [false, true] {
        let e = new_engine(journal);
        let r = restore(&e);
        assert_eq!(r.config(), e.config());
    }
}

#[test]
fn restored_engine_keeps_reservations_waiters_and_pauses() {
    let mut e = new_engine(false);
    let mut out = Outbox::new();
    for c in 1..=3 {
        e.apply_input(0, EngineInput::Connect(c), &mut out);
    }
    let put = |ttr| EngineInput::Command {
        conn: 1,
        cmd: Command::Put {
            pri: 5,
            delay: 0,
            ttr,
            body: Bytes::from_static(b"x"),
        },
    };
    e.apply_input(0, put(10), &mut out);
    e.apply_input(
        0,
        EngineInput::Command {
            conn: 2,
            cmd: Command::Reserve,
        },
        &mut out,
    );
    e.apply_input(
        0,
        EngineInput::Command {
            conn: 3,
            cmd: Command::ReserveWithTimeout(20),
        },
        &mut out,
    );
    e.apply_input(
        0,
        EngineInput::Command {
            conn: 1,
            cmd: Command::PauseTube {
                tube: TubeName::default_tube(),
                delay: 3,
            },
        },
        &mut out,
    );
    out.clear();
    let mut r = restore(&e);
    assert_eq!(r.next_deadline(), e.next_deadline());
    r.apply_input(10 * SEC + 1, EngineInput::Tick, &mut out);
    assert_eq!(
        out,
        vec![(
            3,
            Response::Reserved {
                id: 1,
                body: Bytes::from_static(b"x")
            }
        )]
    );
}

#[test]
fn duplicate_free_slot_is_rejected() {
    let mut e = new_engine(false);
    let mut out = Outbox::new();
    e.apply_input(0, EngineInput::Connect(1), &mut out);
    for cmd in [
        Command::Watch(TubeName::new("a").unwrap()),
        Command::Watch(TubeName::new("b").unwrap()),
        Command::Ignore(TubeName::new("a").unwrap()),
        Command::Ignore(TubeName::new("b").unwrap()),
    ] {
        e.apply_input(0, EngineInput::Command { conn: 1, cmd }, &mut out);
    }
    let mut s = e.export_state();
    assert_eq!(s.free_tube_ids.len(), 2);
    assert!(Engine::import_state(s.clone(), sys()).is_ok());
    s.free_tube_ids[1] = s.free_tube_ids[0];
    assert!(Engine::import_state(s, sys()).is_err());
}

#[test]
fn absurd_tube_slab_is_rejected() {
    let mut e = new_engine(false);
    let mut out = Outbox::new();
    e.apply_input(0, EngineInput::Connect(1), &mut out);
    let names: Vec<TubeName> = (0..1000)
        .map(|i| TubeName::new(&format!("t{i}")).unwrap())
        .collect();
    for cmd in names.iter().cloned().map(Command::Watch) {
        e.apply_input(0, EngineInput::Command { conn: 1, cmd }, &mut out);
    }
    for cmd in names.into_iter().map(Command::Ignore) {
        e.apply_input(0, EngineInput::Command { conn: 1, cmd }, &mut out);
    }
    let s = e.export_state();
    assert_eq!(s.free_tube_ids.len(), 1000);
    assert!(Engine::import_state(s.clone(), sys()).is_ok());
    assert!(Engine::import_state_within(s.clone(), sys(), 4096).is_ok());
    let mut big = s.clone();
    for _ in 0..3 {
        let n = big.tubes.len();
        big.tubes.extend((0..2000).map(|_| None));
        big.free_tube_ids.extend(n..n + 2000);
    }
    let err = Engine::import_state_within(big, sys(), 4096).map(|_| ()).unwrap_err();
    assert!(err.0.contains("tube slab"), "{err:?}");
}

#[test]
fn busy_engine_round_trips() {
    let e = busy_engine();
    let s = e.export_state();
    let states: Vec<JobState> = s.jobs.iter().map(|j| j.state).collect();
    assert_eq!(
        states,
        vec![JobState::Reserved, JobState::Buried, JobState::Delayed, JobState::Ready]
    );
    let mut a = restore(&e);
    let mut b = restore(&e);
    for t in 1..40 {
        let mut out_a = Outbox::new();
        let mut out_b = Outbox::new();
        a.apply_input(t * SEC, EngineInput::Tick, &mut out_a);
        b.apply_input(t * SEC, EngineInput::Tick, &mut out_b);
        assert_eq!(out_a, out_b);
        assert_eq!(a.export_state(), b.export_state());
        assert_eq!(a.next_deadline(), b.next_deadline());
    }
}

#[test]
fn what_cannot_be_is_rejected() {
    let s = busy_engine().export_state();
    assert!(Engine::import_state(s.clone(), sys()).is_ok());
    let refused = |change: &dyn Fn(&mut bstk::engine::state::EngineState)| {
        let mut t = s.clone();
        change(&mut t);
        assert_ne!(t, s);
        assert!(Engine::import_state(t, sys()).is_err());
    };
    refused(&|t| t.next_job_id = 0);
    refused(&|t| t.next_job_id = 4);
    refused(&|t| t.jobs.swap(0, 1));
    refused(&|t| {
        t.jobs.pop();
    });
    refused(&|t| t.jobs[0].ttr = 0);
    refused(&|t| t.jobs[0].reserver = None);
    refused(&|t| t.jobs[0].deadline_at += 1);
    refused(&|t| t.jobs[1].state = JobState::Ready);
    refused(&|t| t.jobs[2].tube = 7);
    refused(&|t| t.conns.swap(0, 1));
    refused(&|t| t.conns[2].1.waiting = false);
    refused(&|t| t.conns[2].1.tick_key = None);
    refused(&|t| t.conns[0].1.watch.items.clear());
    refused(&|t| t.tallies.ready_ct += 1);
    refused(&|t| t.tallies.cur_conns += 1);
    refused(&|t| t.tot_conns = 2);
    refused(&|t| t.tube_order.items.swap(0, 1));
    refused(&|t| t.tube_ids.swap(0, 1));
    refused(&|t| {
        t.pauses.clear();
    });
    refused(&|t| {
        t.conn_ticks.clear();
    });
    refused(&|t| {
        t.delay_heads.clear();
    });
}

#[test]
fn history_is_taken_as_it_is() {
    let s = busy_engine().export_state();
    for i in 0..5 {
        let mut t = s.clone();
        match i {
            0 => t.ops.cmd_put = u64::MAX,
            1 => t.total_jobs_ct = 77,
            2 => t.timeout_ct = 78,
            3 => t.jobs[0].kick_ct = u32::MAX,
            _ => t.tube_order.last = 9,
        }
        let r = Engine::import_state(t.clone(), sys()).unwrap();
        assert_eq!(r.export_state(), t);
    }
}
