//! The monitoring view.

use bstk::api::{
    BinlogStats, ConnId, EngineConfig, Nanos, Outbox, StaticSysInfo, SysSnapshot, NANOS_PER_SEC,
};
use bstk::engine::Engine;
use bstk::proto::{Command, Response, TubeName};
use bstk::stats::{yaml_list, StatsServer, StatsTube};
use bytes::Bytes;

const SEC: Nanos = NANOS_PER_SEC;
const OBSERVER: ConnId = 99;

fn tube(name: &str) -> TubeName {
    TubeName::new(name).unwrap()
}

fn engine(journal: bool) -> Engine {
    let sys = SysSnapshot {
        pid: 4242,
        version: "1.13-test".into(),
        rusage_utime: (3, 250_000),
        rusage_stime: (1, 7),
        id: "abcdef0123456789".into(),
        hostname: "host".into(),
        os: "os".into(),
        platform: "plat".into(),
    };
    let mut e = Engine::new(
        0,
        EngineConfig {
            journal,
            ..EngineConfig::default()
        },
        Box::new(StaticSysInfo { snapshot: sys }),
    );
    e.connect(0, OBSERVER);
    e
}

fn run(e: &mut Engine, now: Nanos, cid: ConnId, cmd: Command) -> Outbox {
    let mut out = Outbox::new();
    e.handle(now, cid, cmd, &mut out);
    out
}

fn put(e: &mut Engine, now: Nanos, cid: ConnId, pri: u32, delay: u32, ttr: u32) -> u64 {
    let out = run(
        e,
        now,
        cid,
        Command::Put {
            pri,
            delay,
            ttr,
            body: Bytes::from_static(b"body"),
        },
    );
    match out.as_slice() {
        [(c, Response::Inserted(id))] if *c == cid => *id,
        other => panic!("expected Inserted, got {other:?}"),
    }
}

fn only_reply(out: &Outbox) -> Response {
    match out.as_slice() {
        [(c, r)] if *c == OBSERVER => r.clone(),
        other => panic!("expected one reply to the observer, got {other:?}"),
    }
}

fn check_snapshot(e: &mut Engine, now: Nanos) {
    let mut journal = Vec::new();
    e.take_journal(&mut journal);
    journal.clear();
    let before = e.build_stats_server(now);

    let snap = e.snapshot(now);
    assert_eq!(snap.server, before, "snapshot.server != stats at now");
    assert_eq!(e.build_stats_server(now), before, "snapshot changed stats");
    e.take_journal(&mut journal);
    assert!(journal.is_empty(), "snapshot journaled {journal:?}");
    assert_eq!(e.snapshot(now), snap);

    let reply = only_reply(&run(e, now, OBSERVER, Command::Stats));
    let mut expected = snap.server.clone();
    expected.cmd_stats += 1;
    assert_eq!(reply, Response::OkBody(expected.to_yaml()));
    assert_eq!(
        StatsServer {
            cmd_stats: before.cmd_stats,
            ..e.build_stats_server(now)
        },
        before,
        "stats changed something besides cmd-stats"
    );

    let reply = only_reply(&run(e, now, OBSERVER, Command::ListTubes));
    let names: Vec<TubeName> = snap.tubes.iter().map(|t| t.name.clone()).collect();
    assert_eq!(reply, Response::OkBody(yaml_list(&names)));
    assert_eq!(names, e.tube_names());
    assert_eq!(snap.server.current_tubes, snap.tubes.len() as u64);
    for t in &snap.tubes {
        let reply = only_reply(&run(e, now, OBSERVER, Command::StatsTube(t.name.clone())));
        assert_eq!(reply, Response::OkBody(t.to_yaml()));
    }
}

fn busy_state(journal: bool) -> Engine {
    let mut e = engine(journal);
    for c in 1..=3 {
        e.connect(0, c);
    }
    for name in ["a", "b", "c"] {
        run(&mut e, 0, 2, Command::Watch(tube(name)));
    }
    run(&mut e, 0, 2, Command::Ignore(tube("a")));
    run(&mut e, 0, 1, Command::Use(tube("b")));
    let urgent = put(&mut e, 0, 1, 5, 0, 10);
    let _ready = put(&mut e, 0, 1, 2000, 0, 10);
    let _delayed = put(&mut e, 0, 1, 100, 30, 10);
    let to_bury = put(&mut e, 0, 1, 100, 0, 10);
    run(&mut e, 0, 1, Command::ReserveJob(to_bury));
    run(
        &mut e,
        0,
        1,
        Command::Bury {
            id: to_bury,
            pri: 1,
        },
    );
    run(&mut e, 0, 1, Command::ReserveJob(urgent));
    run(&mut e, 0, 1, Command::Use(tube("c")));
    let doomed = put(&mut e, 0, 1, 0, 0, 10);
    run(&mut e, 0, 1, Command::Delete(doomed));
    run(
        &mut e,
        0,
        OBSERVER,
        Command::PauseTube {
            tube: tube("c"),
            delay: 20,
        },
    );
    let out = run(&mut e, 0, 3, Command::ReserveWithTimeout(100));
    assert!(out.is_empty());
    e
}

#[test]
fn snapshot_of_fresh_engine() {
    for journal in [false, true] {
        let mut e = engine(journal);
        let snap = e.snapshot(0);
        assert_eq!(snap.tubes.len(), 1);
        assert_eq!(snap.tubes[0].name, tube("default"));
        assert_eq!(snap.server.cmd_stats, 0);
        assert_eq!(snap.server.pid, 4242);
        assert_eq!(snap.server.rusage_utime, (3, 250_000));
        check_snapshot(&mut e, 0);
    }
}

#[test]
fn snapshot_matches_stats_across_states_and_times() {
    for journal in [false, true] {
        let mut e = busy_state(journal);
        let snap = e.snapshot(0);
        let names: Vec<&str> = snap.tubes.iter().map(|t| t.name.as_str()).collect();
        assert_eq!(names, ["default", "c", "b"]);
        assert_eq!(snap.server.current_jobs_urgent, 0);
        assert_eq!(snap.server.current_jobs_ready, 1);
        assert_eq!(snap.server.current_jobs_reserved, 1);
        assert_eq!(snap.server.current_jobs_delayed, 1);
        assert_eq!(snap.server.current_jobs_buried, 1);
        assert_eq!(snap.server.current_waiting, 1);
        assert_eq!(snap.tubes[1].pause, 20);
        assert_eq!(snap.tubes[1].pause_time_left, 20);
        assert_eq!(snap.tubes[1].cmd_delete, 1);
        assert_eq!(snap.tubes[1].cmd_pause_tube, 1);

        let mut out = Outbox::new();
        for now in [0, SEC / 2, 5 * SEC, 11 * SEC, 25 * SEC, 31 * SEC, 200 * SEC] {
            e.tick(now, &mut out);
            check_snapshot(&mut e, now);
        }
        e.set_binlog_stats(BinlogStats {
            oldest_index: 2,
            current_index: 5,
            records_written: 17,
            records_migrated: 3,
        });
        e.set_draining(true);
        let snap = e.snapshot(200 * SEC);
        assert!(snap.server.draining);
        assert_eq!(snap.server.binlog_records_written, 17);
        check_snapshot(&mut e, 200 * SEC);
        for c in 1..=3 {
            e.disconnect(200 * SEC, c, &mut out);
        }
        check_snapshot(&mut e, 201 * SEC);
    }
}

fn check_snapshot_limited(e: &mut Engine, now: Nanos) {
    let full = e.snapshot(now);
    let before = e.build_stats_server(now);
    for k in 0..=full.tubes.len() + 2 {
        let lim = e.snapshot_limited(now, k);
        assert_eq!(lim.server, full.server, "server stats with limit {k}");
        assert_eq!(
            lim.server.current_tubes,
            full.tubes.len() as u64,
            "current_tubes stays the full count"
        );
        let n = k.min(full.tubes.len());
        assert_eq!(lim.tubes, full.tubes[..n], "tubes with limit {k}");
    }
    assert_eq!(e.snapshot_limited(now, usize::MAX), full);
    assert_eq!(
        e.build_stats_server(now),
        before,
        "snapshot_limited changed stats"
    );
    let mut journal = Vec::new();
    e.take_journal(&mut journal);
    assert!(journal.is_empty(), "snapshot_limited journaled {journal:?}");
}

#[test]
fn snapshot_limited_of_fresh_engine() {
    for journal in [false, true] {
        let mut e = engine(journal);
        let snap = e.snapshot_limited(0, 0);
        assert!(snap.tubes.is_empty());
        assert_eq!(snap.server.current_tubes, 1);
        assert_eq!(snap.server.pid, 4242);
        check_snapshot_limited(&mut e, 0);
    }
}

#[test]
fn snapshot_limited_is_a_prefix_across_states_and_times() {
    for journal in [false, true] {
        let mut e = busy_state(journal);
        let mut drained = Vec::new();
        e.take_journal(&mut drained);
        let names: Vec<String> = e
            .snapshot_limited(0, 2)
            .tubes
            .iter()
            .map(|t| t.name.as_str().to_owned())
            .collect();
        assert_eq!(names, ["default", "c"]);
        let mut out = Outbox::new();
        for now in [0, SEC / 2, 11 * SEC, 25 * SEC, 200 * SEC] {
            e.tick(now, &mut out);
            e.take_journal(&mut drained);
            check_snapshot_limited(&mut e, now);
            check_snapshot(&mut e, now);
        }
    }
}

#[test]
fn snapshot_limited_bounds_many_tubes() {
    let mut e = engine(false);
    e.connect(0, 1);
    for i in 0..50 {
        run(&mut e, 0, 1, Command::Watch(tube(&format!("t{i}"))));
    }
    let full = e.snapshot(SEC);
    assert_eq!(full.tubes.len(), 51);
    let lim = e.snapshot_limited(SEC, 5);
    assert_eq!(lim.tubes.len(), 5);
    assert_eq!(lim.server.current_tubes, 51);
    assert_eq!(lim.tubes, full.tubes[..5]);
    check_snapshot_limited(&mut e, SEC);
    let s = e.build_stats_server(SEC);
    assert_eq!((s.cmd_stats, s.cmd_stats_tube, s.cmd_list_tubes), (0, 0, 0));
}

#[test]
fn snapshot_does_not_count_as_a_command() {
    let e = busy_state(false);
    for _ in 0..5 {
        let _ = e.snapshot(SEC);
    }
    let s = e.build_stats_server(SEC);
    assert_eq!(
        (
            s.cmd_stats,
            s.cmd_stats_tube,
            s.cmd_list_tubes,
            s.cmd_stats_job
        ),
        (0, 0, 0, 0)
    );
}
