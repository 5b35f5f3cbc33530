//! How events follow one another, on examples: who is answered, what a tick
//! leaves, and what a history comes to.

use bstk::api::{
    ConnId, EngineConfig, EngineInput, Nanos, Outbox, StaticSysInfo, SysInfo, SysSnapshot,
    NANOS_PER_SEC,
};
use bstk::codec::ServerCodec;
use bstk::engine::Engine;
use bstk::proto::{Command, Frame, PutRejection, Response, TubeName};
use bstk::reply::{unexpected, Reply};
use bstk::stats::StatsServer;
use bytes::{Bytes, BytesMut};
use std::cell::Cell;

const SEC: Nanos = NANOS_PER_SEC;

fn on_host(pid: u64) -> Engine {
    let snapshot = SysSnapshot { pid, ..SysSnapshot::default() };
    Engine::new(0, EngineConfig::default(), Box::new(StaticSysInfo { snapshot }))
}

fn put(pri: u32, delay: u32, ttr: u32) -> Command {
    Command::Put { pri, delay, ttr, body: Bytes::from_static(b"x") }
}

fn give(e: &mut Engine, now: Nanos, conn: ConnId, cmd: Command) -> Outbox {
    let mut out = Outbox::new();
    e.handle(now, conn, cmd, &mut out);
    out
}

fn connected(n: ConnId) -> Engine {
    let mut e = on_host(1);
    for c in 1..=n {
        e.connect(0, c);
    }
    e
}

#[test]
fn every_command_is_answered_once() {
    let mut e = connected(2);
    let name = TubeName::new("t").unwrap();
    let commands = vec![
        put(1, 0, 1),
        Command::Use(name.clone()),
        Command::ReserveJob(1),
        Command::Touch(1),
        Command::Release { id: 1, pri: 1, delay: 0 },
        Command::Reserve,
        Command::Bury { id: 1, pri: 1 },
        Command::KickJob(1),
        Command::Kick(1),
        Command::Peek(1),
        Command::PeekReady,
        Command::PeekDelayed,
        Command::PeekBuried,
        Command::StatsJob(1),
        Command::StatsTube(name.clone()),
        Command::Stats,
        Command::ListTubes,
        Command::ListTubeUsed,
        Command::ListTubesWatched,
        Command::Watch(name.clone()),
        Command::Ignore(name.clone()),
        Command::PauseTube { tube: name, delay: 1 },
        Command::PauseTubeBadName,
        Command::Delete(1),
        Command::Delete(1),
        Command::ReserveWithTimeout(0),
    ];
    for cmd in commands {
        let out = give(&mut e, 0, 1, cmd);
        assert_eq!(out.len(), 1);
        assert_eq!(out[0].0, 1);
    }
    assert_eq!(give(&mut e, 0, 1, Command::Quit), vec![]);
    assert_eq!(give(&mut e, 0, 2, Command::Reserve), vec![]);
    assert!(e.export_state().conns[1].1.waiting);
}

#[test]
fn others_are_sent_only_jobs_they_waited_for() {
    let mut e = connected(3);
    assert_eq!(give(&mut e, 0, 2, Command::Reserve), vec![]);
    assert_eq!(give(&mut e, 0, 3, Command::Reserve), vec![]);
    let body = Bytes::from_static(b"x");
    assert_eq!(
        give(&mut e, 0, 1, put(1, 0, 1)),
        vec![
            (2, Response::Reserved { id: 1, body: body.clone() }),
            (1, Response::Inserted(1)),
        ]
    );
    assert_eq!(
        give(&mut e, 0, 2, Command::Release { id: 1, pri: 1, delay: 0 }),
        vec![(3, Response::Reserved { id: 1, body }), (2, Response::Released)]
    );
}

#[test]
fn nobody_answers_for_a_connection_that_is_not_there() {
    let mut e = connected(1);
    let before = e.export_state();
    for cmd in [Command::Stats, put(1, 0, 1), Command::Reserve, Command::Quit] {
        assert_eq!(give(&mut e, 0, 9, cmd), vec![]);
    }
    assert_eq!(e.export_state(), before);
}

/// An engine with a delayed job, a paused tube, a reservation and a wait.
fn with_deadlines() -> Engine {
    let mut e = connected(3);
    give(&mut e, 0, 1, put(1, 0, 4));
    give(&mut e, 0, 1, put(1, 2, 4));
    give(&mut e, 0, 2, Command::Reserve);
    give(&mut e, 0, 3, Command::Watch(TubeName::new("t").unwrap()));
    give(&mut e, 0, 3, Command::Ignore(TubeName::default_tube()));
    give(&mut e, 0, 3, Command::ReserveWithTimeout(3));
    give(&mut e, 0, 1, Command::PauseTube { tube: TubeName::default_tube(), delay: 1 });
    e
}

#[test]
fn a_second_tick_does_nothing() {
    for now in [0, SEC, 2 * SEC, 3 * SEC, 4 * SEC, 4 * SEC + 1, 60 * SEC] {
        let mut e = with_deadlines();
        let mut out = Outbox::new();
        e.tick(now, &mut out);
        let before = e.export_state();
        let mut again = Outbox::new();
        e.tick(now, &mut again);
        assert_eq!(again, vec![]);
        assert_eq!(e.export_state(), before);
    }
}

#[test]
fn nothing_happens_before_it_is_due() {
    let mut e = with_deadlines();
    let before = e.export_state();
    let mut out = Outbox::new();
    assert_eq!(e.next_deadline(), Some(SEC));
    e.tick(SEC - 1, &mut out);
    assert_eq!(out, vec![]);
    assert_eq!(e.export_state(), before);
    e.tick(SEC, &mut out);
    assert_eq!(e.next_deadline(), Some(2 * SEC));
    e.tick(3 * SEC, &mut out);
    assert_eq!(out, vec![(3, Response::TimedOut)]);
}

fn history() -> Vec<(Nanos, EngineInput)> {
    let cmd = |conn, cmd| EngineInput::Command { conn, cmd };
    vec![
        (0, EngineInput::Connect(1)),
        (0, EngineInput::Connect(2)),
        (1, cmd(1, put(3, 0, 2))),
        (2, cmd(2, Command::Reserve)),
        (3, cmd(1, Command::Stats)),
        (4, EngineInput::PutStarted { conn: 1, too_big: false }),
        (5, cmd(1, put(4, 1, 2))),
        (3 * SEC, EngineInput::Tick),
        (3 * SEC, cmd(2, Command::Reserve)),
        (3 * SEC, EngineInput::Disconnect(1)),
    ]
}

#[test]
fn one_history_leads_to_one_state() {
    let mut a = on_host(1);
    let mut b = on_host(2);
    let mut shared = Outbox::new();
    for (now, input) in history() {
        a.apply_input(now, input.clone(), &mut shared);
        // Replies that were sent before make no difference.
        let mut fresh = Outbox::new();
        b.apply_input(now, input, &mut fresh);
        assert_eq!(a.export_state(), b.export_state());
    }
}

#[test]
fn a_restored_engine_goes_on_alike() {
    let inputs = history();
    for cut in 0..inputs.len() {
        let mut a = on_host(7);
        let mut out = Outbox::new();
        for (now, input) in inputs[..cut].iter() {
            a.apply_input(*now, input.clone(), &mut out);
        }
        let snapshot = SysSnapshot { pid: 7, ..SysSnapshot::default() };
        let mut b =
            Engine::import_state(a.export_state(), Box::new(StaticSysInfo { snapshot })).unwrap();
        for (now, input) in inputs[cut..].iter() {
            let mut x = Outbox::new();
            let mut y = Outbox::new();
            a.apply_input(*now, input.clone(), &mut x);
            b.apply_input(*now, input.clone(), &mut y);
            assert_eq!(x, y);
        }
        assert_eq!(a.export_state(), b.export_state());
    }
}

/// A host that counts how often it was asked.
struct Counting(Cell<u64>);

impl SysInfo for Counting {
    fn snapshot(&self) -> SysSnapshot {
        self.0.set(self.0.get() + 1);
        SysSnapshot { pid: self.0.get(), ..SysSnapshot::default() }
    }
}

#[test]
fn the_host_is_asked_each_time() {
    let mut e = Engine::new(0, EngineConfig::default(), Box::new(Counting(Cell::new(0))));
    e.connect(0, 1);
    for pid in 1..=3u64 {
        let out = give(&mut e, 0, 1, Command::Stats);
        match &out[0].1 {
            Response::OkBody(b) => {
                let text = String::from_utf8(b.to_vec()).unwrap();
                assert!(text.contains(&format!("pid: {pid}\n")));
            }
            other => panic!("{other:?}"),
        }
    }
    assert_eq!(e.snapshot(0).server.pid, 4);
    assert_eq!(e.snapshot_limited(0, 0).server.pid, 5);
    // Nothing else asks.
    give(&mut e, 0, 9, Command::Stats);
    give(&mut e, 0, 1, Command::ListTubes);
    assert_eq!(e.build_stats_server(0).pid, 6);
}

#[test]
fn a_limited_snapshot_is_a_prefix() {
    let mut e = connected(1);
    for n in ["a", "b", "c"] {
        give(&mut e, 0, 1, Command::Watch(TubeName::new(n).unwrap()));
    }
    let host = SysSnapshot { pid: 3, ..SysSnapshot::default() };
    let full = e.snapshot_with(5, usize::MAX, host.clone());
    assert_eq!(full.tubes.len(), 4);
    for max in [0, 1, 3, 4, 5] {
        let limited = e.snapshot_with(5, max, host.clone());
        assert_eq!(limited.server, full.server);
        assert_eq!(limited.tubes[..], full.tubes[..max.min(4)]);
    }
}

#[test]
fn the_figures_of_stats_add_up() {
    let mut e = on_host(1);
    e.connect(SEC, 1);
    // Two urgent and two other ready jobs, a reserved, a delayed and two buried.
    for pri in [1, 2, 3, 1023, 1024, 5000] {
        give(&mut e, SEC, 1, put(pri, 0, 100));
    }
    give(&mut e, SEC, 1, put(9, 50, 100));
    give(&mut e, SEC, 1, Command::Use(TubeName::new("other").unwrap()));
    give(&mut e, SEC, 1, put(7, 0, 100));
    give(&mut e, SEC, 1, Command::ReserveJob(1));
    for id in [2, 8] {
        give(&mut e, SEC, 1, Command::ReserveJob(id));
        give(&mut e, SEC, 1, Command::Bury { id, pri: 1 });
    }
    let s = e.build_stats_server(9 * SEC + 5);
    assert_eq!(s.current_jobs_ready, 4);
    assert_eq!(s.current_jobs_reserved, 1);
    assert_eq!(s.current_jobs_delayed, 1);
    assert_eq!(s.current_jobs_buried, 2);
    assert_eq!(s.current_jobs_urgent, 2);
    assert_eq!(s.current_tubes, e.tube_names().len() as u64);
    assert_eq!(s.current_tubes, 2);
    assert_eq!(s.uptime, 9);
    // Tube by tube too.
    let tubes = e.snapshot(9 * SEC).tubes;
    let jobs: Vec<u64> = tubes
        .iter()
        .map(|t| {
            t.current_jobs_ready
                + t.current_jobs_reserved
                + t.current_jobs_delayed
                + t.current_jobs_buried
        })
        .collect();
    assert_eq!(jobs, vec![7, 1]);
}

#[test]
fn uptime_is_not_negative() {
    let host = StaticSysInfo::default();
    let e = Engine::new(5 * SEC, EngineConfig::default(), Box::new(host));
    assert_eq!(e.build_stats_server(4 * SEC).uptime, 0);
    assert_eq!(e.build_stats_server(6 * SEC - 1).uptime, 0);
    assert_eq!(e.build_stats_server(6 * SEC).uptime, 1);
}

#[test]
fn defaults_are_blank() {
    let host = SysSnapshot::default();
    assert_eq!((host.pid, host.rusage_utime, host.rusage_stime), (0, (0, 0), (0, 0)));
    for text in [&host.version, &host.id, &host.hostname, &host.os, &host.platform] {
        assert_eq!(text, "");
    }
    assert_eq!(StaticSysInfo::default().snapshot, host);
    let none = StatsServer::default();
    assert_eq!((none.current_jobs_urgent, none.cmd_put, none.total_jobs), (0, 0, 0));
    assert_eq!((none.max_job_size, none.uptime, none.binlog_max_size), (0, 0, 0));
    assert_eq!((none.rusage_utime, none.rusage_stime, none.pid), ((0, 0), (0, 0), 0));
    assert!(!none.draining);
    for text in [&none.version, &none.id, &none.hostname, &none.os, &none.platform] {
        assert_eq!(text, "");
    }
}

fn frames(codec: &mut ServerCodec, bytes: &[u8]) -> Vec<Frame> {
    let mut buf = BytesMut::from(bytes);
    let mut all = Vec::new();
    while let Some(f) = codec.decode(&mut buf) {
        all.push(f);
    }
    all
}

#[test]
fn announcing_puts_adds_announcements_only() {
    let stream: &[u8] = b"put 1 0 1 1\r\nx\r\nput 1 0 1 9\r\nxxxxxxxxx\r\n\
        put 1 0 1 1\r\nxyzput 1 0 1 1 z\r\nput 1 0 1 9 z\r\nxxxxxxxxx\r\nstats\r\n";
    let mut loud = ServerCodec::new(4).emit_put_started();
    let mut quiet = ServerCodec::new(4);
    let a = frames(&mut loud, stream);
    let b = frames(&mut quiet, stream);
    let put = Frame::Command(Command::Put {
        pri: 1,
        delay: 0,
        ttr: 1,
        body: Bytes::from_static(b"x"),
    });
    assert_eq!(
        a,
        vec![
            Frame::PutStarted { too_big: false },
            put.clone(),
            Frame::PutStarted { too_big: true },
            Frame::PutRejected(PutRejection::JobTooBig),
            Frame::PutStarted { too_big: false },
            Frame::PutRejected(PutRejection::ExpectedCrlf),
            Frame::PutRejected(PutRejection::TrailingGarbage),
            Frame::PutStarted { too_big: true },
            Frame::PutRejected(PutRejection::JobTooBig),
            Frame::Command(Command::Stats),
        ]
    );
    let unannounced: Vec<Frame> = a
        .into_iter()
        .filter(|f| !matches!(f, Frame::PutStarted { .. }))
        .map(|f| match f {
            Frame::PutRejected(why) => Frame::Error(why.response()),
            other => other,
        })
        .collect();
    assert_eq!(unannounced, b);
}

#[test]
fn unexpected_replies_are_shown() {
    let shown = |reply| unexpected("put", reply).text();
    assert_eq!(shown(Reply::Inserted(42)), "unexpected reply to put: Inserted(42)");
    assert_eq!(
        shown(Reply::Reserved { id: 7, body_len: 16 }),
        "unexpected reply to put: Reserved { id: 7, body_len: 16 }"
    );
    assert_eq!(shown(Reply::Deleted), "unexpected reply to put: Deleted");
    assert_eq!(shown(Reply::TimedOut), "unexpected reply to put: TimedOut");
    assert_eq!(shown(Reply::Using), "unexpected reply to put: Using");
    assert_eq!(shown(Reply::Watching(2)), "unexpected reply to put: Watching(2)");
    assert_eq!(shown(Reply::Authenticated), "unexpected reply to put: Authenticated");
    assert_eq!(shown(Reply::OkBody(900)), "unexpected reply to put: Ok(900)");
    assert_eq!(
        shown(Reply::Other("a \"b\"\n".to_string())),
        "unexpected reply to put: Other(\"a \\\"b\\\"\\n\")"
    );
}
