//! The engine, event by event.

use bstk::api::{ConnId, EngineConfig, Nanos, Outbox, StaticSysInfo, SysSnapshot, NANOS_PER_SEC};
use bstk::engine::state::EngineState;
use bstk::engine::Engine;
use bstk::model::{ConnState, JobRec, TubeState};
use bstk::proto::{Command, JobId, PutRejection, Response, TubeName, DEFAULT_MAX_JOB_SIZE};
use bstk::stats::{StatsJob, StatsTube};
use bytes::Bytes;

/// What tests look at inside an engine.
trait Inside {
    fn state(&self) -> EngineState;

    fn tube_state(&self, name: &TubeName) -> Option<TubeState> {
        let s = self.state();
        let id = s.tube_ids.iter().find(|(n, _)| n == name).map(|(_, id)| *id);
        id.and_then(|id| s.tubes[id].clone())
    }

    fn conn_state(&self, cid: ConnId) -> Option<ConnState> {
        self.state().conns.iter().find(|(c, _)| *c == cid).map(|(_, c)| c.clone())
    }

    fn job(&self, id: JobId) -> Option<JobRec> {
        self.state().jobs.iter().find(|j| j.id == id).cloned()
    }

    fn t_job_state(&self, id: JobId) -> Option<&'static str> {
        self.job(id).map(|j| j.state_name())
    }

    fn t_job_reserver(&self, id: JobId) -> Option<ConnId> {
        self.job(id).and_then(|j| j.reserver)
    }

    fn t_job_exists(&self, id: JobId) -> bool {
        self.job(id).is_some()
    }

    fn t_job_pri(&self, id: JobId) -> Option<u32> {
        self.job(id).map(|j| j.pri)
    }

    fn t_ready_ct(&self) -> u64 {
        self.state().tallies.ready_ct
    }

    fn t_reserved_ct(&self) -> u64 {
        self.state().tallies.reserved_ct
    }

    fn t_buried_ct(&self) -> u64 {
        self.state().tallies.buried_ct
    }

    fn t_waiting_ct(&self) -> u64 {
        self.state().tallies.waiting_ct
    }

    fn t_tube_ready_len(&self, name: &TubeName) -> Option<usize> {
        self.tube_state(name).map(|t| t.ready.len())
    }

    fn t_tube_delayed_len(&self, name: &TubeName) -> Option<usize> {
        self.tube_state(name).map(|t| t.delayed.len())
    }

    fn t_tube_waiting_conns(&self, name: &TubeName) -> Option<usize> {
        self.tube_state(name).map(|t| t.waiting_conns.len())
    }

    fn t_tube_exists(&self, name: &TubeName) -> bool {
        self.tube_state(name).is_some()
    }

    fn t_conn_exists(&self, cid: ConnId) -> bool {
        self.conn_state(cid).is_some()
    }

    fn t_conn_waiting(&self, cid: ConnId) -> bool {
        self.conn_state(cid).map(|c| c.waiting).unwrap_or(false)
    }

    fn t_cur_conns(&self) -> u32 {
        self.state().tallies.cur_conns
    }
}

impl Inside for Engine {
    fn state(&self) -> EngineState {
        self.export_state()
    }
}

/// A system that reports nothing.
fn sys() -> StaticSysInfo {
    StaticSysInfo { snapshot: SysSnapshot::default() }
}

const SEC: Nanos = NANOS_PER_SEC;

fn engine_at(now: Nanos) -> Engine {
    Engine::new(
        now,
        EngineConfig::default(),
        Box::new(sys()),
    )
}

fn tube(name: &str) -> TubeName {
    TubeName::new(name).unwrap()
}

#[test]
fn put_rejected_side_effects_match_reference() {
    let mut e = engine_at(0);
    e.connect(0, 1);
    let mut out = Outbox::new();
    e.put_rejected(0, 1, PutRejection::JobTooBig, &mut out);
    e.put_rejected(0, 1, PutRejection::TrailingGarbage, &mut out);
    assert_eq!(
        out,
        vec![(1, Response::JobTooBig), (1, Response::BadFormat)]
    );
    let s = e.build_stats_server(0);
    assert_eq!((s.cmd_put, s.current_producers, s.total_jobs), (2, 0, 0));

    out.clear();
    e.put_rejected(0, 1, PutRejection::ExpectedCrlf, &mut out);
    assert_eq!(out, vec![(1, Response::ExpectedCrlf)]);
    let s = e.build_stats_server(0);
    assert_eq!((s.cmd_put, s.current_producers, s.total_jobs), (3, 1, 0));
    assert_eq!(put(&mut e, 0, 1, 0, 0, 10, "x"), 2);
}

fn put(
    e: &mut Engine,
    now: Nanos,
    cid: u64,
    pri: u32,
    delay: u32,
    ttr: u32,
    body: &str,
) -> u64 {
    let mut out = Outbox::new();
    e.handle(
        now,
        cid,
        Command::Put {
            pri,
            delay,
            ttr,
            body: Bytes::copy_from_slice(body.as_bytes()),
        },
        &mut out,
    );
    match only(&out, cid) {
        Response::Inserted(id) => id,
        other => panic!("expected Inserted, got {other:?}"),
    }
}

fn only(out: &Outbox, cid: u64) -> Response {
    let matches: Vec<&Response> = out
        .iter()
        .filter(|(c, _)| *c == cid)
        .map(|(_, r)| r)
        .collect();
    assert_eq!(
        matches.len(),
        1,
        "expected exactly one reply for conn {cid} in {out:?}"
    );
    matches[0].clone()
}

fn none_for(out: &Outbox, cid: u64) {
    assert!(
        out.iter().all(|(c, _)| *c != cid),
        "expected no reply for conn {cid}, got {out:?}"
    );
}

fn handle(e: &mut Engine, now: Nanos, cid: u64, cmd: Command) -> Outbox {
    let mut out = Outbox::new();
    e.handle(now, cid, cmd, &mut out);
    out
}

#[test]
fn connect_uses_and_watches_default() {
    let mut e = engine_at(0);
    e.connect(0, 1);
    assert_eq!(e.watched_tube_names(1), vec![tube("default")]);
    assert!(e.t_conn_exists(1));
    assert_eq!(e.t_cur_conns(), 1);
}

#[test]
fn put_assigns_sequential_ids_and_defaults_ttr() {
    let mut e = engine_at(0);
    e.connect(0, 1);
    let id1 = put(&mut e, 0, 1, 0, 0, 0, "a");
    let id2 = put(&mut e, 0, 1, 0, 0, 0, "b");
    assert_eq!(id1, 1);
    assert_eq!(id2, 2);
    let stats = e.build_stats_job(id1, 0).unwrap();
    assert_eq!(stats.ttr, 1);
    assert_eq!(e.t_job_state(id1), Some("ready"));
}

#[test]
fn put_with_delay_goes_to_delayed_state() {
    let mut e = engine_at(0);
    e.connect(0, 1);
    let id = put(&mut e, 0, 1, 0, 5, 0, "a");
    assert_eq!(e.t_job_state(id), Some("delayed"));
    assert_eq!(e.t_tube_delayed_len(&tube("default")), Some(1));
    assert_eq!(e.t_tube_ready_len(&tube("default")), Some(0));
}

#[test]
fn draining_rejects_put_but_still_consumes_the_id() {
    let mut e = engine_at(0);
    e.connect(0, 1);
    e.set_draining(true);
    let out = handle(
        &mut e,
        0,
        1,
        Command::Put {
            pri: 0,
            delay: 0,
            ttr: 0,
            body: Bytes::from_static(b"x"),
        },
    );
    assert_eq!(only(&out, 1), Response::Draining);
    assert!(!e.t_job_exists(1));
    e.set_draining(false);
    let id = put(&mut e, 0, 1, 0, 0, 0, "y");
    assert_eq!(id, 2);
}

#[test]
fn use_switches_tube_and_replies_using() {
    let mut e = engine_at(0);
    e.connect(0, 1);
    let out = handle(&mut e, 0, 1, Command::Use(tube("foo")));
    assert_eq!(only(&out, 1), Response::Using(tube("foo")));
    let out = handle(&mut e, 0, 1, Command::ListTubeUsed);
    assert_eq!(only(&out, 1), Response::Using(tube("foo")));
}

#[test]
fn watch_and_ignore_update_watching_count_and_reply() {
    let mut e = engine_at(0);
    e.connect(0, 1);
    let out = handle(&mut e, 0, 1, Command::Watch(tube("foo")));
    assert_eq!(only(&out, 1), Response::Watching(2));
    let out = handle(&mut e, 0, 1, Command::Watch(tube("foo")));
    assert_eq!(only(&out, 1), Response::Watching(2));

    let out = handle(&mut e, 0, 1, Command::Ignore(tube("default")));
    assert_eq!(only(&out, 1), Response::Watching(1));
}

#[test]
fn ignore_last_watched_tube_is_refused() {
    let mut e = engine_at(0);
    e.connect(0, 1);
    let out = handle(&mut e, 0, 1, Command::Ignore(tube("default")));
    assert_eq!(only(&out, 1), Response::NotIgnored);
}

#[test]
fn ignore_unwatched_tube_is_a_silent_noop() {
    let mut e = engine_at(0);
    e.connect(0, 1);
    let out = handle(&mut e, 0, 1, Command::Ignore(tube("foo")));
    assert_eq!(only(&out, 1), Response::Watching(1));
}

#[test]
fn list_tubes_watched_order_survives_swap_remove_on_ignore() {
    let mut e = engine_at(0);
    e.connect(0, 1);
    for name in ["a", "b", "c"] {
        handle(&mut e, 0, 1, Command::Watch(tube(name)));
    }
    assert_eq!(
        e.watched_tube_names(1),
        vec![tube("default"), tube("a"), tube("b"), tube("c")]
    );
    handle(&mut e, 0, 1, Command::Ignore(tube("a")));
    assert_eq!(
        e.watched_tube_names(1),
        vec![tube("default"), tube("c"), tube("b")]
    );
}

#[test]
fn tube_is_garbage_collected_when_unreferenced() {
    let mut e = engine_at(0);
    e.connect(0, 1);
    handle(&mut e, 0, 1, Command::Watch(tube("foo")));
    assert!(e.t_tube_exists(&tube("foo")));
    handle(&mut e, 0, 1, Command::Ignore(tube("foo")));
    assert!(!e.t_tube_exists(&tube("foo")));
}

#[test]
fn default_tube_is_never_garbage_collected() {
    let mut e = engine_at(0);
    e.connect(0, 1);
    e.disconnect(0, 1, &mut Outbox::new());
    assert!(e.t_tube_exists(&tube("default")));
}

#[test]
fn tube_stays_alive_while_it_still_has_a_job() {
    let mut e = engine_at(0);
    e.connect(0, 1);
    handle(&mut e, 0, 1, Command::Use(tube("foo")));
    let id = put(&mut e, 0, 1, 0, 0, 0, "x");
    handle(&mut e, 0, 1, Command::Use(tube("default")));
    e.disconnect(0, 1, &mut Outbox::new());
    assert!(e.t_tube_exists(&tube("foo")));
    e.connect(0, 2);
    handle(&mut e, 0, 2, Command::Delete(id));
    assert!(!e.t_tube_exists(&tube("foo")));
}

#[test]
fn reserve_returns_ready_job_immediately() {
    let mut e = engine_at(0);
    e.connect(0, 1);
    let id = put(&mut e, 0, 1, 0, 0, 0, "hi");
    let out = handle(&mut e, 0, 1, Command::Reserve);
    assert_eq!(
        only(&out, 1),
        Response::Reserved {
            id,
            body: Bytes::from_static(b"hi")
        }
    );
    assert_eq!(e.t_job_state(id), Some("reserved"));
    assert_eq!(e.t_job_reserver(id), Some(1));
}

#[test]
fn reserve_blocks_then_is_woken_by_a_later_put() {
    let mut e = engine_at(0);
    e.connect(0, 1);
    e.connect(0, 2);
    let out = handle(&mut e, 0, 1, Command::Reserve);
    none_for(&out, 1);
    assert!(e.t_conn_waiting(1));

    let out = handle(
        &mut e,
        0,
        2,
        Command::Put {
            pri: 0,
            delay: 0,
            ttr: 0,
            body: Bytes::from_static(b"woke"),
        },
    );
    let id = match only(&out, 2) {
        Response::Inserted(id) => id,
        other => panic!("expected Inserted, got {other:?}"),
    };
    assert_eq!(
        only(&out, 1),
        Response::Reserved {
            id,
            body: Bytes::from_static(b"woke")
        }
    );
    assert!(!e.t_conn_waiting(1));
}

#[test]
fn reserve_with_timeout_zero_returns_timed_out_when_nothing_ready() {
    let mut e = engine_at(0);
    e.connect(0, 1);
    let out = handle(&mut e, 0, 1, Command::ReserveWithTimeout(0));
    assert_eq!(only(&out, 1), Response::TimedOut);
    assert!(!e.t_conn_waiting(1));
    assert_eq!(e.t_waiting_ct(), 0);
}

#[test]
fn reserve_with_timeout_zero_returns_job_when_ready() {
    let mut e = engine_at(0);
    e.connect(0, 1);
    let id = put(&mut e, 0, 1, 0, 0, 0, "x");
    let out = handle(&mut e, 0, 1, Command::ReserveWithTimeout(0));
    assert_eq!(
        only(&out, 1),
        Response::Reserved {
            id,
            body: Bytes::from_static(b"x")
        }
    );
}

#[test]
fn reserve_with_timeout_positive_times_out_via_tick() {
    let mut e = engine_at(0);
    e.connect(0, 1);
    let out = handle(&mut e, 0, 1, Command::ReserveWithTimeout(5));
    none_for(&out, 1);
    assert_eq!(e.next_deadline(), Some(5 * SEC));

    let mut out = Outbox::new();
    e.tick(5 * SEC, &mut out);
    assert_eq!(only(&out, 1), Response::TimedOut);
    assert!(!e.t_conn_waiting(1));
}

#[test]
fn reserve_job_works_on_ready_delayed_and_buried() {
    let mut e = engine_at(0);
    e.connect(0, 1);
    e.connect(0, 2);

    let ready_id = put(&mut e, 0, 1, 0, 0, 0, "r");
    let delayed_id = put(&mut e, 0, 1, 0, 100, 0, "d");
    let buried_id = put(&mut e, 0, 1, 0, 0, 0, "b");
    handle(&mut e, 0, 1, Command::ReserveJob(buried_id));
    handle(
        &mut e,
        0,
        1,
        Command::Bury {
            id: buried_id,
            pri: 0,
        },
    );

    for id in [ready_id, delayed_id, buried_id] {
        let out = handle(&mut e, 0, 2, Command::ReserveJob(id));
        match only(&out, 2) {
            Response::Reserved { id: rid, .. } => assert_eq!(rid, id),
            other => panic!("expected Reserved for {id}, got {other:?}"),
        }
    }
}

#[test]
fn reserve_job_not_found_for_missing_or_already_reserved() {
    let mut e = engine_at(0);
    e.connect(0, 1);
    e.connect(0, 2);
    let out = handle(&mut e, 0, 1, Command::ReserveJob(999));
    assert_eq!(only(&out, 1), Response::NotFound);

    let id = put(&mut e, 0, 1, 0, 0, 0, "x");
    handle(&mut e, 0, 1, Command::ReserveJob(id));
    let out = handle(&mut e, 0, 2, Command::ReserveJob(id));
    assert_eq!(only(&out, 2), Response::NotFound);
}

#[test]
fn deadline_soon_on_reserve_when_no_job_ready() {
    let mut e = engine_at(0);
    e.connect(0, 1);
    let id = put(&mut e, 0, 1, 0, 0, 2, "x");
    handle(&mut e, 0, 1, Command::ReserveJob(id));
    let out = handle(&mut e, SEC, 1, Command::Reserve);
    assert_eq!(only(&out, 1), Response::DeadlineSoon);
}

#[test]
fn deadline_soon_shortcut_is_skipped_when_a_job_is_ready() {
    let mut e = engine_at(0);
    e.connect(0, 1);
    let held = put(&mut e, 0, 1, 0, 0, 2, "held");
    handle(&mut e, 0, 1, Command::ReserveJob(held));
    let other = put(&mut e, 0, 1, 0, 0, 0, "other");
    let out = handle(&mut e, SEC, 1, Command::Reserve);
    assert_eq!(
        only(&out, 1),
        Response::Reserved {
            id: other,
            body: Bytes::from_static(b"other")
        }
    );
}

#[test]
fn deadline_soon_shortcut_skip_on_paused_ready_job_resolves_on_immediate_tick() {
    let mut e = engine_at(0);
    e.connect(0, 1);
    handle(&mut e, 0, 1, Command::Use(tube("margin_test")));
    handle(&mut e, 0, 1, Command::Watch(tube("margin_test")));
    let held = put(&mut e, 0, 1, 0, 0, 2, "held");
    handle(&mut e, 0, 1, Command::ReserveJob(held));

    handle(
        &mut e,
        0,
        1,
        Command::PauseTube {
            tube: tube("margin_test"),
            delay: 100,
        },
    );
    put(&mut e, 0, 1, 0, 0, 60, "other");

    let out = handle(&mut e, SEC, 1, Command::Reserve);
    none_for(&out, 1);
    assert!(e.t_conn_waiting(1));

    assert_eq!(e.next_deadline(), Some(SEC));
    let mut out = Outbox::new();
    e.tick(SEC, &mut out);
    assert_eq!(only(&out, 1), Response::DeadlineSoon);
    assert!(!e.t_conn_waiting(1));
}

#[test]
fn deadline_soon_fires_for_a_waiting_connection_entering_the_margin() {
    let mut e = engine_at(0);
    e.connect(0, 1);
    e.connect(0, 2);
    let held = put(&mut e, 0, 1, 0, 0, 3, "held");
    handle(&mut e, 0, 1, Command::ReserveJob(held));
    let out = handle(&mut e, 0, 1, Command::Reserve);
    none_for(&out, 1);

    assert_eq!(e.next_deadline(), Some(2 * SEC));
    let mut out = Outbox::new();
    e.tick(2 * SEC, &mut out);
    assert_eq!(only(&out, 1), Response::DeadlineSoon);
    assert_eq!(e.t_job_state(held), Some("reserved"));
    assert!(!e.t_conn_waiting(1));

    let mut out = Outbox::new();
    e.tick(3 * SEC + 1, &mut out);
    none_for(&out, 1);
    assert_eq!(e.t_job_state(held), Some("ready"));
}

#[test]
fn delete_removes_from_every_state() {
    let mut e = engine_at(0);
    e.connect(0, 1);

    let ready_id = put(&mut e, 0, 1, 0, 0, 0, "r");
    let out = handle(&mut e, 0, 1, Command::Delete(ready_id));
    assert_eq!(only(&out, 1), Response::Deleted);
    assert!(!e.t_job_exists(ready_id));

    let delayed_id = put(&mut e, 0, 1, 0, 100, 0, "d");
    let out = handle(&mut e, 0, 1, Command::Delete(delayed_id));
    assert_eq!(only(&out, 1), Response::Deleted);

    let buried_id = put(&mut e, 0, 1, 0, 0, 0, "b");
    handle(&mut e, 0, 1, Command::ReserveJob(buried_id));
    handle(
        &mut e,
        0,
        1,
        Command::Bury {
            id: buried_id,
            pri: 0,
        },
    );
    let out = handle(&mut e, 0, 1, Command::Delete(buried_id));
    assert_eq!(only(&out, 1), Response::Deleted);

    let reserved_id = put(&mut e, 0, 1, 0, 0, 0, "v");
    handle(&mut e, 0, 1, Command::ReserveJob(reserved_id));
    let out = handle(&mut e, 0, 1, Command::Delete(reserved_id));
    assert_eq!(only(&out, 1), Response::Deleted);
}

#[test]
fn delete_missing_or_reserved_by_other_is_not_found() {
    let mut e = engine_at(0);
    e.connect(0, 1);
    e.connect(0, 2);
    let out = handle(&mut e, 0, 1, Command::Delete(42));
    assert_eq!(only(&out, 1), Response::NotFound);

    let id = put(&mut e, 0, 1, 0, 0, 0, "x");
    handle(&mut e, 0, 1, Command::ReserveJob(id));
    let out = handle(&mut e, 0, 2, Command::Delete(id));
    assert_eq!(only(&out, 2), Response::NotFound);
}

#[test]
fn release_requeues_with_new_pri_and_delay() {
    let mut e = engine_at(0);
    e.connect(0, 1);
    let id = put(&mut e, 0, 1, 5, 0, 0, "x");
    handle(&mut e, 0, 1, Command::ReserveJob(id));
    let out = handle(
        &mut e,
        0,
        1,
        Command::Release {
            id,
            pri: 77,
            delay: 10,
        },
    );
    assert_eq!(only(&out, 1), Response::Released);
    assert_eq!(e.t_job_state(id), Some("delayed"));
    assert_eq!(e.t_job_pri(id), Some(77));
}

#[test]
fn release_with_zero_delay_wakes_a_waiter() {
    let mut e = engine_at(0);
    e.connect(0, 1);
    e.connect(0, 2);
    let id = put(&mut e, 0, 1, 0, 0, 0, "x");
    handle(&mut e, 0, 1, Command::ReserveJob(id));
    let out = handle(&mut e, 0, 2, Command::Reserve);
    none_for(&out, 2);

    let out = handle(
        &mut e,
        0,
        1,
        Command::Release {
            id,
            pri: 0,
            delay: 0,
        },
    );
    assert_eq!(only(&out, 1), Response::Released);
    assert_eq!(
        only(&out, 2),
        Response::Reserved {
            id,
            body: Bytes::from_static(b"x")
        }
    );
}

#[test]
fn release_not_found_when_not_reserved_by_caller() {
    let mut e = engine_at(0);
    e.connect(0, 1);
    let out = handle(
        &mut e,
        0,
        1,
        Command::Release {
            id: 999,
            pri: 0,
            delay: 0,
        },
    );
    assert_eq!(only(&out, 1), Response::NotFound);
}

#[test]
fn bury_moves_job_to_buried_and_sets_pri() {
    let mut e = engine_at(0);
    e.connect(0, 1);
    let id = put(&mut e, 0, 1, 0, 0, 0, "x");
    handle(&mut e, 0, 1, Command::ReserveJob(id));
    let out = handle(&mut e, 0, 1, Command::Bury { id, pri: 3 });
    assert_eq!(only(&out, 1), Response::Buried);
    assert_eq!(e.t_job_state(id), Some("buried"));
    assert_eq!(e.t_job_pri(id), Some(3));
    assert_eq!(e.t_buried_ct(), 1);
}

#[test]
fn bury_not_found_when_not_reserved_by_caller() {
    let mut e = engine_at(0);
    e.connect(0, 1);
    let id = put(&mut e, 0, 1, 0, 0, 0, "x");
    let out = handle(&mut e, 0, 1, Command::Bury { id, pri: 0 });
    assert_eq!(only(&out, 1), Response::NotFound);
}

#[test]
fn touch_resets_ttr_deadline() {
    let mut e = engine_at(0);
    e.connect(0, 1);
    let id = put(&mut e, 0, 1, 0, 0, 4, "x");
    handle(&mut e, 0, 1, Command::ReserveJob(id));
    let out = handle(&mut e, 2 * SEC, 1, Command::Touch(id));
    assert_eq!(only(&out, 1), Response::Touched);

    let mut out = Outbox::new();
    e.tick(4 * SEC, &mut out);
    none_for(&out, 1);
    assert_eq!(e.t_job_state(id), Some("reserved"));
}

#[test]
fn touch_not_found_when_not_reserved_by_caller() {
    let mut e = engine_at(0);
    e.connect(0, 1);
    let out = handle(&mut e, 0, 1, Command::Touch(999));
    assert_eq!(only(&out, 1), Response::NotFound);
}

#[test]
fn peek_variants_success_and_not_found() {
    let mut e = engine_at(0);
    e.connect(0, 1);

    let out = handle(&mut e, 0, 1, Command::PeekReady);
    assert_eq!(only(&out, 1), Response::NotFound);

    let id = put(&mut e, 0, 1, 0, 0, 0, "x");
    let out = handle(&mut e, 0, 1, Command::Peek(id));
    assert_eq!(
        only(&out, 1),
        Response::Found {
            id,
            body: Bytes::from_static(b"x")
        }
    );
    let out = handle(&mut e, 0, 1, Command::PeekReady);
    assert_eq!(
        only(&out, 1),
        Response::Found {
            id,
            body: Bytes::from_static(b"x")
        }
    );
    assert_eq!(
        only(&handle(&mut e, 0, 1, Command::PeekDelayed), 1),
        Response::NotFound
    );
    assert_eq!(
        only(&handle(&mut e, 0, 1, Command::PeekBuried), 1),
        Response::NotFound
    );

    handle(&mut e, 0, 1, Command::ReserveJob(id));
    handle(&mut e, 0, 1, Command::Bury { id, pri: 0 });
    let out = handle(&mut e, 0, 1, Command::PeekBuried);
    assert_eq!(
        only(&out, 1),
        Response::Found {
            id,
            body: Bytes::from_static(b"x")
        }
    );

    let out = handle(&mut e, 0, 1, Command::Peek(12345));
    assert_eq!(only(&out, 1), Response::NotFound);
}

#[test]
fn peek_delayed_finds_delayed_job() {
    let mut e = engine_at(0);
    e.connect(0, 1);
    let id = put(&mut e, 0, 1, 0, 50, 0, "x");
    let out = handle(&mut e, 0, 1, Command::PeekDelayed);
    assert_eq!(
        only(&out, 1),
        Response::Found {
            id,
            body: Bytes::from_static(b"x")
        }
    );
}

#[test]
fn kick_prefers_buried_over_delayed() {
    let mut e = engine_at(0);
    e.connect(0, 1);
    let delayed_id = put(&mut e, 0, 1, 0, 1000, 0, "d");
    let buried_id = put(&mut e, 0, 1, 0, 0, 0, "b");
    handle(&mut e, 0, 1, Command::ReserveJob(buried_id));
    handle(
        &mut e,
        0,
        1,
        Command::Bury {
            id: buried_id,
            pri: 0,
        },
    );

    let out = handle(&mut e, 0, 1, Command::Kick(5));
    assert_eq!(only(&out, 1), Response::Kicked(1));
    assert_eq!(e.t_job_state(buried_id), Some("ready"));
    assert_eq!(e.t_job_state(delayed_id), Some("delayed"));
}

#[test]
fn kick_falls_back_to_delayed_when_no_buried() {
    let mut e = engine_at(0);
    e.connect(0, 1);
    let a = put(&mut e, 0, 1, 0, 1000, 0, "a");
    let b = put(&mut e, 0, 1, 0, 2000, 0, "b");
    let out = handle(&mut e, 0, 1, Command::Kick(1));
    assert_eq!(only(&out, 1), Response::Kicked(1));
    assert_eq!(e.t_job_state(a), Some("ready"));
    assert_eq!(e.t_job_state(b), Some("delayed"));
}

#[test]
fn kick_bulk_is_bounded_by_n_and_counts_are_correct() {
    let mut e = engine_at(0);
    e.connect(0, 1);
    for i in 0..3 {
        let id = put(&mut e, 0, 1, 0, 1000 + i, 0, "x");
        let _ = id;
    }
    let out = handle(&mut e, 0, 1, Command::Kick(2));
    assert_eq!(only(&out, 1), Response::Kicked(2));
    assert_eq!(e.t_tube_delayed_len(&tube("default")), Some(1));
}

#[test]
fn kick_job_buried_and_delayed_succeed_others_not_found() {
    let mut e = engine_at(0);
    e.connect(0, 1);
    let buried_id = put(&mut e, 0, 1, 0, 0, 0, "b");
    handle(&mut e, 0, 1, Command::ReserveJob(buried_id));
    handle(
        &mut e,
        0,
        1,
        Command::Bury {
            id: buried_id,
            pri: 0,
        },
    );
    let out = handle(&mut e, 0, 1, Command::KickJob(buried_id));
    assert_eq!(only(&out, 1), Response::KickedJob);
    assert_eq!(e.t_job_state(buried_id), Some("ready"));

    let delayed_id = put(&mut e, 0, 1, 0, 1000, 0, "d");
    let out = handle(&mut e, 0, 1, Command::KickJob(delayed_id));
    assert_eq!(only(&out, 1), Response::KickedJob);
    assert_eq!(e.t_job_state(delayed_id), Some("ready"));

    let ready_id = put(&mut e, 0, 1, 0, 0, 0, "r");
    let out = handle(&mut e, 0, 1, Command::KickJob(ready_id));
    assert_eq!(only(&out, 1), Response::NotFound);

    let out = handle(&mut e, 0, 1, Command::KickJob(999));
    assert_eq!(only(&out, 1), Response::NotFound);
}

#[test]
fn pause_tube_not_found_for_missing_tube() {
    let mut e = engine_at(0);
    e.connect(0, 1);
    let out = handle(
        &mut e,
        0,
        1,
        Command::PauseTube {
            tube: tube("nope"),
            delay: 5,
        },
    );
    assert_eq!(only(&out, 1), Response::NotFound);
}

#[test]
fn pause_tube_blocks_dispatch_until_it_expires_via_tick() {
    let mut e = engine_at(0);
    e.connect(0, 1);
    e.connect(0, 2);
    let out = handle(
        &mut e,
        0,
        1,
        Command::PauseTube {
            tube: tube("default"),
            delay: 10,
        },
    );
    assert_eq!(only(&out, 1), Response::Paused);

    let id = put(&mut e, 0, 1, 0, 0, 0, "x");
    let out = handle(&mut e, 0, 2, Command::Reserve);
    none_for(&out, 2);
    assert!(e.t_conn_waiting(2));

    let stats = e.build_stats_tube(&tube("default"), 5 * SEC).unwrap();
    assert_eq!(stats.pause, 10);
    assert_eq!(stats.pause_time_left, 5);

    assert_eq!(e.next_deadline(), Some(10 * SEC));
    let mut out = Outbox::new();
    e.tick(10 * SEC, &mut out);
    assert_eq!(
        only(&out, 2),
        Response::Reserved {
            id,
            body: Bytes::from_static(b"x")
        }
    );
    assert!(!e.t_conn_waiting(2));
}

#[test]
fn ttr_expiry_returns_job_to_ready_and_counts_timeout() {
    let mut e = engine_at(0);
    e.connect(0, 1);
    let id = put(&mut e, 0, 1, 0, 0, 2, "x");
    handle(&mut e, 0, 1, Command::ReserveJob(id));
    assert_eq!(e.next_deadline(), Some(2 * SEC));

    let mut out = Outbox::new();
    e.tick(2 * SEC + 1, &mut out);
    none_for(&out, 1);
    assert_eq!(e.t_job_state(id), Some("ready"));
    let stats = e.build_stats_job(id, 2 * SEC + 1).unwrap();
    assert_eq!(stats.timeouts, 1);
    assert_eq!(e.t_reserved_ct(), 0);
    assert_eq!(e.t_ready_ct(), 1);
}

#[test]
fn ttr_expiry_wakes_a_different_waiting_connection() {
    let mut e = engine_at(0);
    e.connect(0, 1);
    e.connect(0, 2);
    let id = put(&mut e, 0, 1, 0, 0, 1, "x");
    handle(&mut e, 0, 1, Command::ReserveJob(id));
    let out = handle(&mut e, 0, 2, Command::Reserve);
    none_for(&out, 2);

    let mut out = Outbox::new();
    e.tick(SEC + 1, &mut out);
    assert_eq!(
        only(&out, 2),
        Response::Reserved {
            id,
            body: Bytes::from_static(b"x")
        }
    );
}

fn reserved_order(out: &Outbox) -> Vec<u64> {
    out.iter()
        .filter(|(_, r)| matches!(r, Response::Reserved { .. }))
        .map(|(c, _)| *c)
        .collect()
}

#[test]
fn odd_waiter_count_is_served_in_pure_arrival_order() {
    let mut e = engine_at(0);
    for cid in 1..=3u64 {
        e.connect(0, cid);
        let out = handle(&mut e, 0, cid, Command::Reserve);
        none_for(&out, cid);
    }
    e.connect(0, 999);
    let mut woken = Vec::new();
    for _ in 0..3 {
        let out = handle(
            &mut e,
            0,
            999,
            Command::Put {
                pri: 0,
                delay: 0,
                ttr: 0,
                body: Bytes::from_static(b"x"),
            },
        );
        woken.extend(reserved_order(&out));
    }
    assert_eq!(woken, vec![1, 2, 3]);
}

#[test]
fn even_waiter_count_deviates_from_arrival_order_via_ms_round_robin() {
    let mut e = engine_at(0);
    for cid in 1..=4u64 {
        e.connect(0, cid);
        let out = handle(&mut e, 0, cid, Command::Reserve);
        none_for(&out, cid);
    }
    e.connect(0, 999);
    let mut woken = Vec::new();
    for _ in 0..4 {
        let out = handle(
            &mut e,
            0,
            999,
            Command::Put {
                pri: 0,
                delay: 0,
                ttr: 0,
                body: Bytes::from_static(b"x"),
            },
        );
        woken.extend(reserved_order(&out));
    }
    assert_eq!(woken, vec![1, 2, 4, 3]);
}

#[test]
fn draining_all_ready_jobs_at_once_matches_incremental_draining() {
    let mut e = engine_at(0);
    e.connect(0, 999);
    handle(
        &mut e,
        0,
        999,
        Command::PauseTube {
            tube: tube("default"),
            delay: 10,
        },
    );
    for _ in 0..4 {
        put(&mut e, 0, 999, 0, 0, 0, "x");
    }
    for cid in 1..=4u64 {
        e.connect(0, cid);
        let out = handle(&mut e, 0, cid, Command::Reserve);
        none_for(&out, cid);
    }
    let mut out = Outbox::new();
    e.tick(10 * SEC, &mut out);
    assert_eq!(reserved_order(&out), vec![1, 2, 4, 3]);
}

#[test]
fn reserve_picks_globally_best_priority_across_watched_tubes() {
    let mut e = engine_at(0);
    e.connect(0, 1);
    e.connect(0, 2);
    handle(&mut e, 0, 2, Command::Use(tube("low")));
    let low_id = put(&mut e, 0, 2, 10, 0, 0, "low-pri-job");
    handle(&mut e, 0, 2, Command::Use(tube("high")));
    let high_id = put(&mut e, 0, 2, 1, 0, 0, "high-pri-job");
    let _ = low_id;

    handle(&mut e, 0, 1, Command::Watch(tube("low")));
    let out = handle(&mut e, 0, 1, Command::Watch(tube("high")));
    assert_eq!(only(&out, 1), Response::Watching(3));

    let out = handle(&mut e, 0, 1, Command::Reserve);
    assert_eq!(
        only(&out, 1),
        Response::Reserved {
            id: high_id,
            body: Bytes::from_static(b"high-pri-job")
        }
    );
}

#[test]
fn disconnect_releases_reserved_jobs_and_wakes_a_waiter() {
    let mut e = engine_at(0);
    e.connect(0, 1);
    e.connect(0, 2);
    let id = put(&mut e, 0, 1, 0, 0, 0, "x");
    handle(&mut e, 0, 1, Command::ReserveJob(id));
    let out = handle(&mut e, 0, 2, Command::Reserve);
    none_for(&out, 2);

    let mut out = Outbox::new();
    e.disconnect(0, 1, &mut out);
    assert_eq!(
        only(&out, 2),
        Response::Reserved {
            id,
            body: Bytes::from_static(b"x")
        }
    );
    assert!(!e.t_conn_exists(1));
}

#[test]
fn disconnect_removes_waiting_registration_cleanly() {
    let mut e = engine_at(0);
    e.connect(0, 1);
    let out = handle(&mut e, 0, 1, Command::Reserve);
    none_for(&out, 1);
    assert_eq!(e.t_tube_waiting_conns(&tube("default")), Some(1));

    let mut out = Outbox::new();
    e.disconnect(0, 1, &mut out);
    assert!(out.is_empty());
    assert_eq!(e.t_tube_waiting_conns(&tube("default")), Some(0));
    assert_eq!(e.t_waiting_ct(), 0);
}

#[test]
fn disconnect_dereferences_watched_and_used_tubes() {
    let mut e = engine_at(0);
    e.connect(0, 1);
    handle(&mut e, 0, 1, Command::Use(tube("foo")));
    handle(&mut e, 0, 1, Command::Watch(tube("bar")));
    assert!(e.t_tube_exists(&tube("foo")));
    assert!(e.t_tube_exists(&tube("bar")));
    e.disconnect(0, 1, &mut Outbox::new());
    assert!(!e.t_tube_exists(&tube("foo")));
    assert!(!e.t_tube_exists(&tube("bar")));
}

#[test]
fn half_close_while_waiting_returns_timed_out() {
    let mut e = engine_at(0);
    e.connect(0, 1);
    let out = handle(&mut e, 0, 1, Command::Reserve);
    none_for(&out, 1);

    let mut out = Outbox::new();
    e.half_close(0, 1, &mut out);
    assert_eq!(only(&out, 1), Response::TimedOut);
    assert!(!e.t_conn_waiting(1));
}

#[test]
fn half_close_while_not_waiting_is_a_noop() {
    let mut e = engine_at(0);
    e.connect(0, 1);
    let mut out = Outbox::new();
    e.half_close(0, 1, &mut out);
    assert!(out.is_empty());
}

#[test]
fn build_stats_job_reports_expected_fields() {
    let mut e = engine_at(0);
    e.connect(0, 1);
    let id = put(&mut e, 0, 1, 7, 0, 5, "hello");
    handle(&mut e, 0, 1, Command::ReserveJob(id));
    let s = e.build_stats_job(id, 3 * SEC).unwrap();
    assert_eq!(s.id, id);
    assert_eq!(s.tube, tube("default"));
    assert_eq!(s.state, "reserved");
    assert_eq!(s.pri, 7);
    assert_eq!(s.age, 3);
    assert_eq!(s.ttr, 5);
    assert_eq!(s.time_left, 2);
    assert_eq!(s.reserves, 1);
    assert_eq!(s.file, 0);
}

#[test]
fn pause_tube_zero_pauses_for_one_nanosecond() {
    let mut e = engine_at(0);
    e.connect(0, 1);
    let id = put(&mut e, 0, 1, 0, 0, 60, "x");
    let out = handle(
        &mut e,
        SEC,
        1,
        Command::PauseTube {
            tube: tube("default"),
            delay: 0,
        },
    );
    assert_eq!(only(&out, 1), Response::Paused);
    let stats = e.build_stats_tube(&tube("default"), SEC).unwrap();
    assert_eq!(stats.pause, 0);
    assert_eq!(stats.cmd_pause_tube, 1);
    assert_eq!(e.next_deadline(), Some(SEC + 1));

    let out = handle(&mut e, SEC + 1_000, 1, Command::ReserveWithTimeout(0));
    assert_eq!(
        only(&out, 1),
        Response::Reserved {
            id,
            body: Bytes::from_static(b"x")
        }
    );
}

#[test]
fn pause_tube_bad_name_counts_and_replies_bad_format() {
    let mut e = engine_at(0);
    e.connect(0, 1);
    let out = handle(&mut e, 0, 1, Command::PauseTubeBadName);
    assert_eq!(only(&out, 1), Response::BadFormat);
    assert_eq!(e.build_stats_server(0).cmd_pause_tube, 1);
    let stats = e.build_stats_tube(&tube("default"), 0).unwrap();
    assert_eq!(stats.cmd_pause_tube, 0);
}

#[test]
fn disconnect_destroys_watched_tubes_in_ms_clear_order() {
    let mut e = engine_at(0);
    e.connect(0, 1);
    e.connect(0, 2);
    handle(&mut e, 0, 1, Command::Watch(tube("a")));
    handle(&mut e, 0, 1, Command::Watch(tube("b")));
    handle(&mut e, 0, 2, Command::Watch(tube("x")));
    handle(&mut e, 0, 2, Command::Watch(tube("y")));
    let names =
        |e: &Engine| -> Vec<String> { e.tube_names().iter().map(|t| t.as_str().to_string()).collect() };
    assert_eq!(names(&e), ["default", "a", "b", "x", "y"]);

    let mut out = Outbox::new();
    e.disconnect(0, 1, &mut out);
    assert_eq!(names(&e), ["default", "x", "y"]);
}

#[test]
fn reserve_with_timeout_zero_in_margin_with_paused_ready_job_is_deadline_soon() {
    let mut e = engine_at(0);
    e.connect(0, 1);
    handle(&mut e, 0, 1, Command::Use(tube("p")));
    put(&mut e, 0, 1, 0, 0, 60, "paused");
    handle(
        &mut e,
        0,
        1,
        Command::PauseTube {
            tube: tube("p"),
            delay: 10,
        },
    );
    handle(&mut e, 0, 1, Command::Watch(tube("p")));
    handle(&mut e, 0, 1, Command::Use(tube("default")));
    let held = put(&mut e, 0, 1, 0, 0, 1, "short");
    let out = handle(&mut e, 0, 1, Command::Reserve);
    assert!(matches!(only(&out, 1), Response::Reserved { id, .. } if id == held));

    let out = handle(&mut e, 1_000, 1, Command::ReserveWithTimeout(0));
    assert_eq!(only(&out, 1), Response::DeadlineSoon);
    assert!(!e.t_conn_waiting(1));

    e.connect(0, 2);
    handle(&mut e, 0, 2, Command::Watch(tube("p")));
    handle(&mut e, 0, 2, Command::Ignore(tube("default")));
    let out = handle(&mut e, 1_000, 2, Command::ReserveWithTimeout(0));
    assert_eq!(only(&out, 2), Response::TimedOut);
}

#[test]
fn put_started_allocates_the_id_at_header_time() {
    let mut e = engine_at(0);
    e.connect(0, 1);
    e.connect(0, 2);
    e.put_started(0, 1, false);
    let stats = e.build_stats_server(0);
    assert_eq!(stats.cmd_put, 1);
    assert_eq!(stats.current_producers, 1);

    assert_eq!(put(&mut e, 0, 2, 0, 0, 60, "second"), 2);
    let out = handle(
        &mut e,
        0,
        1,
        Command::Put {
            pri: 0,
            delay: 0,
            ttr: 60,
            body: Bytes::from_static(b"first"),
        },
    );
    assert_eq!(only(&out, 1), Response::Inserted(1));
    let stats = e.build_stats_server(0);
    assert_eq!(stats.cmd_put, 2);
    assert_eq!(stats.total_jobs, 2);
}

#[test]
fn put_started_then_disconnect_consumes_the_id() {
    let mut e = engine_at(0);
    e.connect(0, 1);
    e.connect(0, 2);
    e.put_started(0, 1, false);
    let mut out = Outbox::new();
    e.disconnect(0, 1, &mut out);
    assert!(out.is_empty());
    let stats = e.build_stats_server(0);
    assert_eq!(stats.cmd_put, 1);
    assert_eq!(stats.current_producers, 0);
    assert_eq!(put(&mut e, 0, 2, 0, 0, 60, "x"), 2);
}

#[test]
fn put_started_then_rejection_counts_once() {
    let mut e = engine_at(0);
    e.connect(0, 1);
    e.put_started(0, 1, true);
    assert_eq!(e.build_stats_server(0).current_producers, 0);
    let mut out = Outbox::new();
    e.put_rejected(0, 1, PutRejection::JobTooBig, &mut out);
    assert_eq!(only(&out, 1), Response::JobTooBig);

    e.put_started(0, 1, false);
    let mut out = Outbox::new();
    e.put_rejected(0, 1, PutRejection::ExpectedCrlf, &mut out);
    assert_eq!(only(&out, 1), Response::ExpectedCrlf);

    let stats = e.build_stats_server(0);
    assert_eq!(stats.cmd_put, 2);
    assert_eq!(stats.current_producers, 1);
    assert_eq!(put(&mut e, 0, 1, 0, 0, 60, "x"), 2);
}

#[test]
fn put_started_while_draining_consumes_one_id() {
    let mut e = engine_at(0);
    e.connect(0, 1);
    e.set_draining(true);
    e.put_started(0, 1, false);
    let out = handle(
        &mut e,
        0,
        1,
        Command::Put {
            pri: 0,
            delay: 0,
            ttr: 60,
            body: Bytes::from_static(b"x"),
        },
    );
    assert_eq!(only(&out, 1), Response::Draining);
    e.set_draining(false);
    assert_eq!(put(&mut e, 0, 1, 0, 0, 60, "y"), 2);
    assert_eq!(e.build_stats_server(0).cmd_put, 2);
}

#[test]
fn build_stats_job_none_for_missing_job() {
    let e = engine_at(0);
    assert!(e.build_stats_job(999, 0).is_none());
}

#[test]
fn build_stats_tube_reports_counts() {
    let mut e = engine_at(0);
    e.connect(0, 1);
    e.connect(0, 2);
    handle(&mut e, 0, 2, Command::Watch(tube("default")));
    let _r = put(&mut e, 0, 1, 0, 0, 0, "a");
    let _d = put(&mut e, 0, 1, 0, 100, 0, "b");
    let buried = put(&mut e, 0, 1, 0, 0, 0, "c");
    handle(&mut e, 0, 1, Command::ReserveJob(buried));
    handle(&mut e, 0, 1, Command::Bury { id: buried, pri: 0 });
    handle(&mut e, 0, 1, Command::Delete(_r));

    let s = e.build_stats_tube(&tube("default"), 0).unwrap();
    assert_eq!(s.current_jobs_ready, 0);
    assert_eq!(s.current_jobs_delayed, 1);
    assert_eq!(s.current_jobs_buried, 1);
    assert_eq!(s.cmd_delete, 1);
    assert_eq!(s.current_using, 2);
    assert_eq!(s.current_watching, 2);
}

#[test]
fn build_stats_tube_none_for_missing_tube() {
    let e = engine_at(0);
    assert!(e.build_stats_tube(&tube("nope"), 0).is_none());
}

#[test]
fn build_stats_server_reports_op_and_job_counters() {
    let mut e = engine_at(0);
    e.connect(0, 1);
    let id = put(&mut e, 0, 1, 0, 0, 0, "x");
    handle(&mut e, 0, 1, Command::Stats);
    handle(&mut e, 0, 1, Command::ReserveJob(id));
    let s = e.build_stats_server(SEC);
    assert_eq!(s.cmd_put, 1);
    assert_eq!(s.cmd_stats, 1);
    assert_eq!(s.total_jobs, 1);
    assert_eq!(s.current_jobs_reserved, 1);
    assert_eq!(s.current_connections, 1);
    assert_eq!(s.current_producers, 1);
    assert_eq!(s.current_workers, 1);
    assert_eq!(s.uptime, 1);
    assert_eq!(s.max_job_size, DEFAULT_MAX_JOB_SIZE as u64);
}

#[test]
fn urgent_counter_only_tracks_ready_jobs_below_threshold() {
    let mut e = engine_at(0);
    e.connect(0, 1);
    let id = put(&mut e, 0, 1, 10, 0, 0, "urgent");
    let s = e.build_stats_server(0);
    assert_eq!(s.current_jobs_urgent, 1);
    handle(&mut e, 0, 1, Command::ReserveJob(id));
    let s = e.build_stats_server(0);
    assert_eq!(s.current_jobs_urgent, 0);
}

#[test]
fn stats_command_full_response_needs_t1() {
    let mut e = engine_at(0);
    e.connect(0, 1);
    let out = handle(&mut e, 0, 1, Command::Stats);
    match only(&out, 1) {
        Response::OkBody(_) => {}
        other => panic!("expected Ok, got {other:?}"),
    }
}

#[test]
fn stats_job_full_response_needs_t1() {
    let mut e = engine_at(0);
    e.connect(0, 1);
    let id = put(&mut e, 0, 1, 0, 0, 0, "x");
    let out = handle(&mut e, 0, 1, Command::StatsJob(id));
    match only(&out, 1) {
        Response::OkBody(_) => {}
        other => panic!("expected Ok, got {other:?}"),
    }
}

#[test]
fn stats_tube_full_response_needs_t1() {
    let mut e = engine_at(0);
    e.connect(0, 1);
    let out = handle(&mut e, 0, 1, Command::StatsTube(tube("default")));
    match only(&out, 1) {
        Response::OkBody(_) => {}
        other => panic!("expected Ok, got {other:?}"),
    }
}

#[test]
fn list_tubes_full_response_needs_t1() {
    let mut e = engine_at(0);
    e.connect(0, 1);
    let out = handle(&mut e, 0, 1, Command::ListTubes);
    match only(&out, 1) {
        Response::OkBody(_) => {}
        other => panic!("expected Ok, got {other:?}"),
    }
}

#[test]
fn list_tubes_watched_full_response_needs_t1() {
    let mut e = engine_at(0);
    e.connect(0, 1);
    let out = handle(&mut e, 0, 1, Command::ListTubesWatched);
    match only(&out, 1) {
        Response::OkBody(_) => {}
        other => panic!("expected Ok, got {other:?}"),
    }
}
