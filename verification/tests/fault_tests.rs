//! What is told of a state that cannot be taken over.

use bstk::api::{EngineConfig, EngineInput, Outbox, StaticSysInfo, SysSnapshot};
use bstk::engine::state::EngineState;
use bstk::engine::Engine;
use bstk::model::{ConnState, JobState, PendingPut, TubeState};
use bstk::proto::{Command, TubeName};
use bytes::Bytes;

fn sys() -> Box<StaticSysInfo> {
    Box::new(StaticSysInfo { snapshot: SysSnapshot::default() })
}

fn name(s: &str) -> TubeName {
    TubeName::new(s).unwrap()
}

fn command(e: &mut Engine, conn: u64, cmd: Command) {
    let mut out = Outbox::new();
    e.apply_input(0, EngineInput::Command { conn, cmd }, &mut out);
}

fn put(pri: u32, delay: u32) -> Command {
    Command::Put { pri, delay, ttr: 10, body: Bytes::from_static(b"x") }
}

/// Job 1 is reserved by connection 2, job 2 buried, job 3 delayed and job 4
/// ready, all in tube 0, which is paused; connection 3 waits on tube 1.
fn state() -> EngineState {
    let mut e = Engine::new(0, EngineConfig::default(), sys());
    let mut out = Outbox::new();
    for c in 1..=3 {
        e.apply_input(0, EngineInput::Connect(c), &mut out);
    }
    command(&mut e, 1, put(5, 0));
    command(&mut e, 1, put(6, 0));
    command(&mut e, 1, put(7, 30));
    command(&mut e, 1, put(2000, 0));
    command(&mut e, 2, Command::Reserve);
    command(&mut e, 2, Command::Reserve);
    command(&mut e, 2, Command::Bury { id: 2, pri: 6 });
    command(&mut e, 3, Command::Watch(name("idle")));
    command(&mut e, 3, Command::Ignore(TubeName::default_tube()));
    command(&mut e, 3, Command::ReserveWithTimeout(20));
    command(&mut e, 1, Command::PauseTube { tube: TubeName::default_tube(), delay: 3 });
    e.export_state()
}

fn told(s: EngineState) -> String {
    match Engine::import_state(s, sys()) {
        Ok(_) => panic!("the state was taken over"),
        Err(e) => e.0,
    }
}

/// What is told after `change`.
fn wrong(change: impl FnOnce(&mut EngineState)) -> String {
    let mut s = state();
    change(&mut s);
    told(s)
}

fn tube(s: &mut EngineState, t: usize) -> &mut TubeState {
    s.tubes[t].as_mut().unwrap()
}

fn conn(s: &mut EngineState, i: usize) -> &mut ConnState {
    &mut s.conns[i].1
}

#[test]
fn the_state_itself_is_sound() {
    assert!(Engine::import_state(state(), sys()).is_ok());
}

#[test]
fn lists_out_of_order_are_told() {
    assert_eq!(wrong(|s| s.jobs.swap(0, 1)), "jobs not strictly ascending at id 1");
    assert_eq!(wrong(|s| s.tube_ids.swap(0, 1)), "tube_ids not strictly ascending at default");
    assert_eq!(wrong(|s| s.conns.swap(1, 2)), "conns not strictly ascending at id 2");
    // The jobs are looked at first, the connections last.
    assert_eq!(
        wrong(|s| {
            s.jobs.swap(0, 1);
            s.tube_ids.swap(0, 1);
            s.conns.swap(0, 1);
        }),
        "jobs not strictly ascending at id 1"
    );
    assert_eq!(
        wrong(|s| {
            s.tube_ids.swap(0, 1);
            s.conns.swap(0, 1);
        }),
        "tube_ids not strictly ascending at default"
    );
}

#[test]
fn faults_of_the_slab_are_told() {
    assert_eq!(wrong(|s| s.tubes.clear()), "tube 0 (default) is missing");
    assert_eq!(wrong(|s| s.tubes[0] = None), "tube 0 (default) is missing");
    assert_eq!(
        wrong(|s| tube(s, 0).name = name("x")),
        "tube 0 is TubeName(\"x\"), not default"
    );
    assert_eq!(
        wrong(|s| tube(s, 0).pos = 1),
        "default tube is not first in the tube list"
    );
    assert_eq!(
        wrong(|s| tube(s, 1).name = name("other")),
        "tube_ids does not map TubeName(\"other\") to tube 1"
    );
    assert_eq!(
        wrong(|s| tube(s, 1).pos = 7),
        "tube 1 is not at its position 7 in the tube list"
    );
    assert_eq!(
        wrong(|s| s.tube_ids.push((name("zzz"), 0))),
        "tube_ids has 3 entries for 2 tubes"
    );
    assert_eq!(
        wrong(|s| s.tube_order.items.push(0)),
        "tube list has 3 entries for 2 tubes"
    );
    assert_eq!(
        wrong(|s| s.free_tube_ids.push(0)),
        "free list has 1 entries for 0 free slots"
    );
    assert_eq!(
        wrong(|s| {
            s.tubes.push(None);
            s.free_tube_ids.push(0);
        }),
        "free list names tube 0, which is not a free slot"
    );
    assert_eq!(
        wrong(|s| {
            s.tubes.push(None);
            s.tubes.push(None);
            s.free_tube_ids = vec![3, 3];
        }),
        "free list repeats tube 3"
    );
    assert_eq!(wrong(|s| s.next_job_id = 0), "next job id is 0");
}

#[test]
fn faults_of_connections_are_told() {
    assert_eq!(wrong(|s| conn(s, 0).use_tube = 9), "conn 1 uses missing tube 9");
    assert_eq!(wrong(|s| conn(s, 2).watch.items.clear()), "conn 3 watches no tube");
    assert_eq!(
        wrong(|s| conn(s, 0).watch.items.push(9)),
        "conn 1 watches missing tube 9"
    );
    assert_eq!(
        wrong(|s| conn(s, 0).watch.items.push(0)),
        "conn 1 watches tube 0 twice"
    );
    assert_eq!(
        wrong(|s| conn(s, 0).wait_deadline = Some(5)),
        "conn 1 has a wait deadline but is not waiting"
    );
    let pending = |id| Some(PendingPut { id: Some(id), created_at: 0 });
    assert_eq!(
        wrong(|s| conn(s, 0).pending_put = pending(99)),
        "conn 1 has pending job id 99 >= next id 5"
    );
    assert_eq!(
        wrong(|s| conn(s, 0).pending_put = pending(1)),
        "conn 1 has pending job id 1, which is a live job"
    );
    assert_eq!(
        wrong(|s| {
            s.next_job_id = 10;
            conn(s, 0).pending_put = pending(7);
            conn(s, 1).pending_put = pending(7);
        }),
        "pending job id 7 is shared"
    );
    assert_eq!(wrong(|s| conn(s, 0).tick_key = Some(1)), "tick_key of conn 1 is stale");
    assert_eq!(wrong(|s| s.conn_ticks.clear()), "conn_ticks index is stale");
}

#[test]
fn faults_of_reservations_are_told() {
    assert_eq!(
        wrong(|s| conn(s, 1).reserved_fifo.push(1)),
        "conn 2: reservation lists differ in length"
    );
    assert_eq!(
        wrong(|s| {
            conn(s, 1).reserved_fifo.push(1);
            conn(s, 1).reserved_by_deadline.insert((99, 1));
        }),
        "conn 2 reserves job 1 twice"
    );
    assert_eq!(
        wrong(|s| conn(s, 1).reserved_fifo[0] = 77),
        "conn 2 reserves missing job 77"
    );
    assert_eq!(
        wrong(|s| conn(s, 1).reserved_fifo[0] = 4),
        "conn 2 lists job 4, which it has not reserved"
    );
    assert_eq!(
        wrong(|s| {
            conn(s, 1).reserved_by_deadline.clear();
            conn(s, 1).reserved_by_deadline.insert((99, 4));
        }),
        "conn 2: job 4 is in the deadline index only"
    );
    assert_eq!(
        wrong(|s| {
            conn(s, 1).reserved_by_deadline.clear();
            conn(s, 1).reserved_by_deadline.insert((99, 1));
        }),
        "conn 2: stale deadline for job 1"
    );
}

#[test]
fn miscounted_connections_are_told() {
    assert_eq!(wrong(|s| s.tallies.cur_conns = 4), "cur_conns is 4 for 3 conns");
    assert_eq!(wrong(|s| s.tot_conns = 1), "tot_conns below cur_conns");
    assert_eq!(
        wrong(|s| s.tallies.cur_producers = 9),
        "cur_producers is 9, recomputed 1"
    );
    assert_eq!(
        wrong(|s| s.tallies.cur_workers = 9),
        "cur_workers is 9, recomputed 2"
    );
    assert_eq!(wrong(|s| s.tallies.waiting_ct = 9), "waiting_ct is 9, recomputed 1");
}

#[test]
fn faults_of_jobs_are_told() {
    assert_eq!(wrong(|s| s.next_job_id = 4), "job 4 is not below next id 4");
    assert_eq!(wrong(|s| s.jobs[3].ttr = 0), "job 4 has ttr 0");
    assert_eq!(wrong(|s| s.jobs[3].tube = 9), "job 4 is in missing tube 9");
    assert_eq!(
        wrong(|s| s.jobs[3].state = JobState::Reserved),
        "reserved job 4 has no reserver"
    );
    assert_eq!(
        wrong(|s| {
            s.jobs[3].state = JobState::Reserved;
            s.jobs[3].reserver = Some(9);
        }),
        "job 4 is reserved by missing conn 9"
    );
    assert_eq!(
        wrong(|s| s.jobs[3].reserver = Some(2)),
        "unreserved job 4 has a reserver"
    );
    assert_eq!(
        wrong(|s| s.jobs[3].pri = 1),
        "ready job 4 is not in its tube's ready set"
    );
    assert_eq!(
        wrong(|s| s.jobs[2].deadline_at += 1),
        "delayed job 3 is not in its tube's delayed set"
    );
    assert_eq!(
        wrong(|s| {
            s.jobs[3].state = JobState::Reserved;
            s.jobs[3].reserver = Some(2);
        }),
        "1 reservation entries for 2 reserved jobs"
    );
    assert_eq!(
        wrong(|s| {
            tube(s, 0).buried.clear();
            tube(s, 0).stat.buried_ct = 0;
        }),
        "0 buried entries for 1 buried jobs"
    );
}

#[test]
fn faults_of_tubes_are_told() {
    assert_eq!(
        wrong(|s| {
            tube(s, 0).ready.insert((1, 1));
        }),
        "ready set of tube 0 holds a stale entry for job 1"
    );
    assert_eq!(
        wrong(|s| {
            tube(s, 0).delayed.insert((1, 1));
        }),
        "delayed set of tube 0 holds a stale entry for job 1"
    );
    assert_eq!(
        wrong(|s| tube(s, 1).buried.push_back(2)),
        "buried list of tube 1 holds a stale entry for job 2"
    );
    assert_eq!(wrong(|s| tube(s, 0).buried.push_back(2)), "job 2 is buried twice");
    assert_eq!(
        wrong(|s| tube(s, 1).waiting_conns.items.push(1)),
        "tube 1 lists conn 1 as waiting"
    );
    assert_eq!(
        wrong(|s| tube(s, 1).waiting_conns.items.push(3)),
        "tube 1 lists conn 3 twice"
    );
    assert_eq!(
        wrong(|s| tube(s, 1).waiting_conns.items.clear()),
        "tube 1 misses waiting conns"
    );
    assert_eq!(
        wrong(|s| tube(s, 0).stat.urgent_ct = 7),
        "urgent count of tube 0 is 7, recomputed 0"
    );
    assert_eq!(
        wrong(|s| tube(s, 0).stat.buried_ct = 7),
        "buried count of tube 0 is stale"
    );
    assert_eq!(
        wrong(|s| tube(s, 0).stat.reserved_ct = 7),
        "reserved count of tube 0 is stale"
    );
    assert_eq!(
        wrong(|s| tube(s, 0).stat.waiting_ct = 7),
        "waiting count of tube 0 is stale"
    );
    assert_eq!(wrong(|s| tube(s, 0).using_ct = 7), "using count of tube 0 is stale");
    assert_eq!(
        wrong(|s| tube(s, 0).watching_ct = 7),
        "watching count of tube 0 is stale"
    );
    assert_eq!(wrong(|s| tube(s, 0).job_ref_ct = 7), "job count of tube 0 is stale");
    assert_eq!(
        wrong(|s| tube(s, 0).delay_head = None),
        "delay_head of tube 0 is stale"
    );
    assert_eq!(
        wrong(|s| tube(s, 0).dispatchable = true),
        "dispatchable flag of tube 0 is stale"
    );
}

#[test]
fn a_tube_that_nothing_refers_to_is_told() {
    let mut e = Engine::new(0, EngineConfig::default(), sys());
    let mut out = Outbox::new();
    e.apply_input(0, EngineInput::Connect(1), &mut out);
    command(&mut e, 1, Command::Use(name("lone")));
    let mut s = e.export_state();
    conn(&mut s, 0).use_tube = 0;
    tube(&mut s, 0).using_ct = 1;
    tube(&mut s, 1).using_ct = 0;
    assert_eq!(told(s), "tube 1 is unreferenced");
}

#[test]
fn jobs_left_lying_are_told() {
    let mut e = Engine::new(0, EngineConfig::default(), sys());
    let mut out = Outbox::new();
    e.apply_input(0, EngineInput::Connect(1), &mut out);
    e.apply_input(0, EngineInput::Connect(2), &mut out);
    command(&mut e, 1, Command::PauseTube { tube: TubeName::default_tube(), delay: 3 });
    command(&mut e, 2, Command::Reserve);
    command(&mut e, 1, put(1, 0));
    let mut s = e.export_state();
    assert!(tube(&mut s, 0).dispatchable);
    tube(&mut s, 0).pause = 0;
    assert_eq!(
        told(s),
        "tube 0 has ready jobs and waiting conns but is not paused"
    );
}

#[test]
fn stale_totals_and_indexes_are_told() {
    assert_eq!(wrong(|s| s.tallies.reserved_ct = 9), "reserved_ct is 9, recomputed 1");
    assert_eq!(wrong(|s| s.tallies.ready_ct = 9), "ready_ct is 9, recomputed 1");
    assert_eq!(wrong(|s| s.tallies.urgent_ct = 9), "urgent_ct is 9, recomputed 0");
    assert_eq!(wrong(|s| s.tallies.delayed_ct = 9), "delayed_ct is 9, recomputed 1");
    assert_eq!(wrong(|s| s.tallies.buried_ct = 9), "buried_ct is 9, recomputed 1");
    assert_eq!(wrong(|s| s.delay_heads.clear()), "delay_heads index is stale");
    assert_eq!(wrong(|s| s.pauses.clear()), "pauses index is stale");
    assert_eq!(
        wrong(|s| {
            s.dispatchable.insert(0);
        }),
        "dispatchable set is stale"
    );
}

#[test]
fn of_several_faults_of_the_slab_the_first_is_told() {
    // Tube by tube: the name and the position of one before the name of the next.
    assert_eq!(
        wrong(|s| {
            s.tube_order.items.swap(0, 1);
            tube(s, 1).name = name("other");
        }),
        "tube 0 is not at its position 0 in the tube list"
    );
    assert_eq!(
        wrong(|s| {
            tube(s, 1).name = name("other");
            tube(s, 1).pos = 7;
        }),
        "tube_ids does not map TubeName(\"other\") to tube 1"
    );
    // Entry by entry: the repeated slot before the one that is not free.
    assert_eq!(
        wrong(|s| {
            s.tubes.push(None);
            s.tubes.push(None);
            s.tubes.push(None);
            s.free_tube_ids = vec![3, 3, 0];
        }),
        "free list repeats tube 3"
    );
    // The sizes come before the entries of the free list, the next number last.
    assert_eq!(
        wrong(|s| {
            s.tube_ids.push((name("zzz"), 0));
            s.tube_order.items.push(0);
            s.next_job_id = 0;
        }),
        "tube_ids has 3 entries for 2 tubes"
    );
}

#[test]
fn of_several_faults_of_connections_the_first_is_told() {
    // Connection by connection.
    assert_eq!(
        wrong(|s| {
            conn(s, 0).tick_key = Some(1);
            conn(s, 1).use_tube = 9;
        }),
        "tick_key of conn 1 is stale"
    );
    // What is watched, entry by entry.
    assert_eq!(
        wrong(|s| conn(s, 0).watch.items = vec![0, 0, 9]),
        "conn 1 watches tube 0 twice"
    );
    // The lists differ in length before an entry is looked at.
    assert_eq!(
        wrong(|s| conn(s, 1).reserved_fifo = vec![77, 1]),
        "conn 2: reservation lists differ in length"
    );
    assert_eq!(
        wrong(|s| {
            conn(s, 1).reserved_fifo = vec![1, 1];
            conn(s, 1).reserved_by_deadline.insert((0, 9));
        }),
        "conn 2 reserves job 1 twice"
    );
    // Each connection before what is recorded of all of them.
    assert_eq!(
        wrong(|s| {
            s.tallies.cur_conns = 4;
            conn(s, 2).wait_deadline = None;
        }),
        "tick_key of conn 3 is stale"
    );
}

#[test]
fn of_several_stale_deadlines_the_earliest_is_told() {
    let mut e = Engine::new(0, EngineConfig::default(), sys());
    let mut out = Outbox::new();
    e.apply_input(0, EngineInput::Connect(1), &mut out);
    command(&mut e, 1, put(1, 0));
    command(&mut e, 1, put(2, 0));
    command(&mut e, 1, Command::Reserve);
    command(&mut e, 1, Command::Reserve);
    let mut s = e.export_state();
    assert_eq!(conn(&mut s, 0).reserved_fifo, vec![1, 2]);
    conn(&mut s, 0).reserved_by_deadline.clear();
    conn(&mut s, 0).reserved_by_deadline.insert((5, 2));
    conn(&mut s, 0).reserved_by_deadline.insert((6, 1));
    assert_eq!(told(s), "conn 1: stale deadline for job 2");
}

#[test]
fn of_several_parts_the_first_is_told() {
    // The connections' counts, the jobs, the reserved ones, the tubes, the totals.
    assert_eq!(
        wrong(|s| {
            s.tallies.waiting_ct = 9;
            s.jobs[0].ttr = 0;
        }),
        "waiting_ct is 9, recomputed 1"
    );
    assert_eq!(
        wrong(|s| {
            s.jobs[0].ttr = 0;
            s.tallies.reserved_ct = 9;
        }),
        "job 1 has ttr 0"
    );
    assert_eq!(
        wrong(|s| {
            s.tallies.reserved_ct = 9;
            tube(s, 0).stat.urgent_ct = 7;
        }),
        "reserved_ct is 9, recomputed 1"
    );
    assert_eq!(
        wrong(|s| {
            s.tallies.ready_ct = 9;
            tube(s, 1).stat.waiting_ct = 7;
        }),
        "waiting count of tube 1 is stale"
    );
    assert_eq!(
        wrong(|s| {
            s.delay_heads.clear();
            s.tallies.buried_ct = 9;
        }),
        "buried_ct is 9, recomputed 1"
    );
    // Job by job.
    assert_eq!(
        wrong(|s| {
            s.jobs[3].ttr = 0;
            s.jobs[2].deadline_at += 1;
        }),
        "delayed job 3 is not in its tube's delayed set"
    );
}

#[test]
fn of_several_faults_of_tubes_the_first_is_told() {
    // Tube by tube: the last thing of one before the first of the next.
    assert_eq!(
        wrong(|s| {
            tube(s, 0).dispatchable = true;
            tube(s, 1).ready.insert((1, 1));
        }),
        "dispatchable flag of tube 0 is stale"
    );
    // The most urgent stale entry first.
    assert_eq!(
        wrong(|s| {
            tube(s, 0).ready.insert((1, 3));
            tube(s, 0).ready.insert((2, 1));
            tube(s, 0).delayed.insert((0, 1));
        }),
        "ready set of tube 0 holds a stale entry for job 3"
    );
    // Entry by entry of the buried and of the waiting.
    assert_eq!(
        wrong(|s| {
            tube(s, 0).buried.push_back(2);
            tube(s, 0).buried.push_back(4);
        }),
        "job 2 is buried twice"
    );
    assert_eq!(
        wrong(|s| tube(s, 1).waiting_conns.items = vec![3, 3, 1]),
        "tube 1 lists conn 3 twice"
    );
    // The lists before the counts, and those in turn.
    assert_eq!(
        wrong(|s| {
            tube(s, 1).waiting_conns.items.clear();
            tube(s, 1).stat.urgent_ct = 7;
        }),
        "tube 1 misses waiting conns"
    );
    assert_eq!(
        wrong(|s| {
            tube(s, 0).job_ref_ct = 7;
            tube(s, 0).using_ct = 7;
            tube(s, 0).delay_head = None;
        }),
        "using count of tube 0 is stale"
    );
}

#[test]
fn a_slab_beyond_the_limit_is_told_first() {
    let mut s = state();
    s.jobs.swap(0, 1);
    match Engine::import_state_within(s, sys(), 1) {
        Ok(_) => panic!("the state was taken over"),
        Err(e) => assert_eq!(e.0, "tube slab too large"),
    }
}
