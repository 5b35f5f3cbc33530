//! Connections that come and go, and the puts that they start.

use crate::ageing::lemma_wait_ends;
use crate::api::{ConnId, EngineConfig, EngineInput, Nanos, SysSnapshot, MAX_NOW};
use crate::effects::{
    is_mine, lemma_handed_well_kept, lemma_less_awaited, lemma_moved, lemma_needed,
    lemma_orderly_well_kept, lemma_passed, less_awaited, made_ready, needed, nobody_kept_waiting,
    passed, well_kept,
};
use crate::handout::{awaits, best_jobs_go_first, is_ready, one_more_long, open_at, same_client};
use crate::kicked::{lemma_less_still, lemma_passed_twice, lemma_unmoved};
use crate::model::{ConnView, JobState, JobView, PendingPut, TubeId, TubeView};
use crate::ms::lemma_swap_remove;
use crate::proto::{default_name, CommandView, JobId, PutRejection, ResponseView};
use crate::resting::waits;
use crate::rules::{Model, OpCounts, Out};
use crate::settle::orderly;
use vstd::prelude::*;

verus! {

/// Whether no command has been counted.
pub open spec fn never_asked(ops: OpCounts) -> bool {
    &&& ops.cmd_put == 0
    &&& ops.cmd_peek == 0
    &&& ops.cmd_peek_ready == 0
    &&& ops.cmd_peek_delayed == 0
    &&& ops.cmd_peek_buried == 0
    &&& ops.cmd_reserve == 0
    &&& ops.cmd_reserve_with_timeout == 0
    &&& ops.cmd_delete == 0
    &&& ops.cmd_release == 0
    &&& ops.cmd_use == 0
    &&& ops.cmd_watch == 0
    &&& ops.cmd_ignore == 0
    &&& ops.cmd_bury == 0
    &&& ops.cmd_kick == 0
    &&& ops.cmd_touch == 0
    &&& ops.cmd_stats == 0
    &&& ops.cmd_stats_job == 0
    &&& ops.cmd_stats_tube == 0
    &&& ops.cmd_list_tubes == 0
    &&& ops.cmd_list_tube_used == 0
    &&& ops.cmd_list_tubes_watched == 0
    &&& ops.cmd_pause_tube == 0
}

/// A new engine holds no job, has no connection, and has one tube, "default",
/// which is not paused. Nothing is counted, the first job will have number 1, and
/// it takes jobs.
pub proof fn a_new_engine_is_empty(now: Nanos, cfg: EngineConfig)
    ensures
        ({
            let m = Model::initial(now, cfg);
            let t = m.order.items[0];
            &&& m.jobs.dom() == Set::<JobId>::empty()
            &&& m.conns.dom() == Set::<ConnId>::empty()
            &&& m.order.items == seq![t]
            &&& forall|u: TubeId| #[trigger] m.live(u) <==> u == t
            &&& m.tube(t).name == default_name()
            &&& m.tube(t).pause == 0
            &&& m.tube(t).buried.len() == 0
            &&& m.tube(t).waiting.items.len() == 0
            &&& m.tube(t).pause_ct == 0
            &&& m.tube(t).total_delete_ct == 0
            &&& m.tube(t).total_jobs_ct == 0
            &&& m.next_job_id == 1
            &&& !m.draining
            &&& m.start == now
            &&& m.cfg == cfg
            &&& m.total_jobs_ct == 0
            &&& m.timeout_ct == 0
            &&& m.tot_conns == 0
            &&& never_asked(m.ops)
            &&& m.journal.len() == 0
        }),
{
    let m = Model::initial(now, cfg);
    assert(m.jobs.dom() =~= Set::empty());
    assert(m.conns.dom() =~= Set::empty());
}

/// Who is not connected is not heard: a command changes nothing and is not
/// answered.
pub proof fn strangers_are_not_heard(
    m: Model,
    now: Nanos,
    c: ConnId,
    cmd: CommandView,
    sys: SysSnapshot,
    out: Out,
)
    requires
        !m.conns.contains_key(c),
    ensures
        m.handle(now, c, cmd, sys, out) == (m, out),
{
}

/// A connection that is made uses the tube "default" and watches that one alone.
/// It holds nothing and waits for nothing, has put and reserved nothing, and one
/// connection more is counted. Nothing else changes.
pub proof fn a_new_connection_starts_at_default(m: Model, c: ConnId)
    requires
        orderly(m),
        m.tot_conns < u32::MAX,
    ensures
        ({
            let n = m.connect(c);
            let v = n.conns[c];
            &&& n.conns == m.conns.insert(c, v)
            &&& n.tube(v.use_tube).name == default_name()
            &&& v.watch.items == seq![v.use_tube]
            &&& v.reserved.len() == 0
            &&& !v.waiting
            &&& v.wait_deadline is None
            &&& v.pending_put is None
            &&& !v.is_producer
            &&& !v.is_worker
            &&& n.tot_conns == m.tot_conns + 1
            &&& n == (Model { conns: n.conns, tot_conns: n.tot_conns, ..m })
        }),
{
}

/// A connection that will send nothing more and waits is answered TIMED_OUT and
/// waits no longer. Another is left alone, and so is all else.
pub proof fn half_closing_ends_the_wait(m: Model, c: ConnId, out: Out)
    requires
        orderly(m),
    ensures
        ({
            let (n, o) = m.half_close(c, out);
            let waiting = m.conns.contains_key(c) && m.conns[c].waiting;
            &&& !waiting ==> n == m && o == out
            &&& waiting ==> {
                &&& o == out.push((c, ResponseView::TimedOut))
                &&& n.conns == m.conns.insert(
                    c,
                    ConnView { waiting: false, wait_deadline: None, ..m.conns[c] },
                )
                &&& n.jobs == m.jobs
                &&& forall|t: TubeId| #[trigger] n.live(t) == m.live(t)
                &&& forall|t: TubeId| #[trigger]
                    m.live(t) ==> n.tube(t) == (TubeView {
                        waiting: n.tube(t).waiting,
                        ..m.tube(t)
                    })
                &&& forall|t: TubeId, d: ConnId| #[trigger]
                    n.tube(t).waiting.items.contains(d) && m.live(t) ==> m.tube(
                        t,
                    ).waiting.items.contains(d) && d != c
                &&& forall|t: TubeId, d: ConnId| #[trigger]
                    m.tube(t).waiting.items.contains(d) && m.live(t) && d != c ==> n.tube(
                        t,
                    ).waiting.items.contains(d)
            }
        }),
{
    if waits(m, c) {
        lemma_orderly_well_kept(m);
        lemma_wait_ends(m, c);
        let n = m.stop_waiting(c);
        assert forall|t: TubeId, d: ConnId| m.live(t) implies (#[trigger] n.tube(
            t,
        ).waiting.items.contains(d) <==> m.tube(t).waiting.items.contains(d) && d != c) by {
            assert(n.live(t));
            assert(n.tube(t).waiting.items.contains(d) <==> awaits(n, d, t));
            assert(m.tube(t).waiting.items.contains(d) <==> awaits(m, d, t));
        }
    }
}

/// The start of a put is counted and remembered, with the time. Unless its body
/// is too big the connection counts as one that puts, and the job gets the next
/// number. Nothing else changes.
pub proof fn a_put_takes_the_next_number(m: Model, c: ConnId, now: Nanos, too_big: bool)
    requires
        m.may_start(c, too_big),
    ensures
        ({
            let n = m.put_started(c, now, too_big);
            &&& !m.conns.contains_key(c) ==> n == m
            &&& m.conns.contains_key(c) ==> {
                &&& one_more_long(m.ops.cmd_put, n.ops.cmd_put)
                &&& n.next_job_id == m.next_job_id + (if too_big {
                    0int
                } else {
                    1
                })
                &&& n.conns == m.conns.insert(
                    c,
                    ConnView {
                        is_producer: m.conns[c].is_producer || !too_big,
                        pending_put: Some(
                            PendingPut {
                                id: if too_big {
                                    None
                                } else {
                                    Some(m.next_job_id)
                                },
                                created_at: now,
                            },
                        ),
                        ..m.conns[c]
                    },
                )
                &&& n == (Model {
                    conns: n.conns,
                    next_job_id: n.next_job_id,
                    ops: OpCounts { cmd_put: n.ops.cmd_put, ..m.ops },
                    ..m
                })
            }
        }),
{
    let n = m.put_started(c, now, too_big);
    if m.conns.contains_key(c) {
        assert(n.conns =~= m.conns.insert(c, n.conns[c]));
    }
}

/// A put that is rejected is answered with the reason, and forgotten. If its
/// start was not seen it is counted now; and it still uses up a number if its
/// body was read. Nothing else changes.
pub proof fn a_rejected_put_is_answered(m: Model, c: ConnId, why: PutRejection, out: Out)
    requires
        m.may_reject(c, why),
    ensures
        ({
            let (n, o) = m.put_rejected(c, why, out);
            let v = m.conns[c];
            let read = why == PutRejection::ExpectedCrlf || why == PutRejection::OutOfMemory;
            &&& !m.conns.contains_key(c) ==> n == m && o == out
            &&& m.conns.contains_key(c) ==> {
                &&& o == out.push(
                    (
                        c,
                        match why {
                            PutRejection::JobTooBig => ResponseView::JobTooBig,
                            PutRejection::TrailingGarbage => ResponseView::BadFormat,
                            PutRejection::ExpectedCrlf => ResponseView::ExpectedCrlf,
                            PutRejection::OutOfMemory => ResponseView::OutOfMemory,
                        },
                    ),
                )
                &&& if v.pending_put is Some {
                    n.ops == m.ops
                } else {
                    one_more_long(m.ops.cmd_put, n.ops.cmd_put)
                }
                &&& n.next_job_id == m.next_job_id + (if v.pending_put is None && read {
                    1int
                } else {
                    0
                })
                &&& n.conns == m.conns.insert(
                    c,
                    ConnView {
                        is_producer: v.is_producer || (v.pending_put is None && read),
                        pending_put: None,
                        ..v
                    },
                )
                &&& n == (Model {
                    conns: n.conns,
                    next_job_id: n.next_job_id,
                    ops: OpCounts { cmd_put: n.ops.cmd_put, ..m.ops },
                    ..m
                })
            }
        }),
{
    let n = m.put_rejected(c, why, out).0;
    if m.conns.contains_key(c) {
        assert(n.conns =~= m.conns.insert(c, n.conns[c]));
    }
}

/// Draining is switched on and off as told, and nothing else changes.
pub proof fn draining_is_as_told(m: Model, now: Nanos, on: bool, sys: SysSnapshot, out: Out)
    ensures
        m.take_in(now, EngineInput::SetDraining(on), sys, out) == (
            Model { draining: on, ..m },
            out,
        ),
{
}

/// quit changes nothing and is not answered. pause-tube with a name that is none
/// is answered BAD_FORMAT and counted, and nothing else changes.
pub proof fn quit_and_bad_names_change_nothing(
    m: Model,
    now: Nanos,
    c: ConnId,
    sys: SysSnapshot,
    out: Out,
)
    requires
        m.conns.contains_key(c),
    ensures
        m.handle(now, c, CommandView::Quit, sys, out) == (m, out),
        ({
            let (n, o) = m.handle(now, c, CommandView::PauseTubeBadName, sys, out);
            &&& o == out.push((c, ResponseView::BadFormat))
            &&& one_more_long(m.ops.cmd_pause_tube, n.ops.cmd_pause_tube)
            &&& n == (Model {
                ops: OpCounts { cmd_pause_tube: n.ops.cmd_pause_tube, ..m.ops },
                ..m
            })
        }),
{
}

/// Whether job `id`, which connection `c` held in `m`, is in `n` ready again or
/// with another that waited for it, and otherwise as it was.
pub open spec fn given_back(m: Model, n: Model, c: ConnId, id: JobId, now: Nanos) -> bool {
    let (a, b) = (m.jobs[id], n.jobs[id]);
    &&& n.jobs.contains_key(id)
    &&& made_ready(m, a, a.pri, a.delay, b, now)
    &&& b.reserver != Some(c)
    &&& b.timeout_ct == a.timeout_ct
    &&& b.release_ct == a.release_ct
    &&& b.bury_ct == a.bury_ct
    &&& b.kick_ct == a.kick_ct
}

/// Whether tube `b` is tube `a` but for who waits, and for a pause that was over
/// by `now`.
pub open spec fn kept_tube(a: TubeView, b: TubeView, now: Nanos) -> bool {
    &&& b == (TubeView { pause: b.pause, waiting: b.waiting, ..a })
    &&& b.pause == a.pause || (b.pause == 0 && a.unpause_at <= now)
}

/// Whether of the jobs `ids`, from the `i`-th on, an earlier one has not been passed
/// over in `n`: where a later one has gone to a connection that watches the tube
/// of the earlier, and that is open, the earlier is not left ready.
pub open spec fn in_turn(m: Model, n: Model, ids: Seq<JobId>, i: nat, now: Nanos) -> bool {
    forall|a: int, b: int|
        #![trigger ids[a], ids[b]]
        i <= a < b < ids.len() && n.jobs[ids[b]].reserver is Some
            && m.conns[n.jobs[ids[b]].reserver->0].watch.items.contains(m.jobs[ids[a]].tube)
            && open_at(m, m.jobs[ids[a]].tube, now) ==> n.jobs[ids[a]].state != JobState::Ready
}

/// What giving back leaves as it is.
pub open spec fn all_else_kept(m: Model, n: Model, now: Nanos) -> bool {
    &&& n.jobs.dom() == m.jobs.dom()
    &&& n.conns.dom() == m.conns.dom()
    &&& forall|d: ConnId| #[trigger]
        m.conns.contains_key(d) ==> same_client(m.conns[d], n.conns[d])
    &&& forall|t: TubeId| #[trigger] m.live(t) ==> kept_tube(m.tube(t), n.tube(t), now)
    &&& less_awaited(m, n, now)
}

/// One job is given back.
proof fn lemma_one_back(m: Model, c: ConnId, id: JobId, now: Nanos, out: Out)
    requires
        well_kept(m),
        now <= MAX_NOW,
        m.conns.contains_key(c),
        !m.conns[c].waiting,
        is_mine(m, c, id),
    ensures
        ({
            let (n, o) = m.readying(id).process_queue(now, out);
            &&& well_kept(n)
            &&& given_back(m, n, c, id, now)
            &&& forall|k: JobId| #[trigger]
                m.jobs.contains_key(k) && k != id ==> passed(m, n, k, now)
            &&& all_else_kept(m, n, now)
            &&& !n.conns[c].waiting
            &&& nobody_kept_waiting(n, now)
        }),
{
    let a = m.jobs[id];
    let j = JobView { state: JobState::Ready, reserver: None, ..a };
    lemma_moved(m, j);
    let x = m.readying(id);
    let (n, o) = x.process_queue(now, out);
    crate::effects::lemma_same_stage(m, x, now);
    best_jobs_go_first(x, now, out);
    lemma_passed(x, out, n, o, now);
    lemma_handed_well_kept(x, out, n, o, now);
    lemma_less_awaited(m, x, n, out, o, now);
    assert(x.jobs.contains_key(id));
    assert(passed(x, n, id, now));
    assert(!awaits(m, c, a.tube));
    assert forall|k: JobId| #[trigger] m.jobs.contains_key(k) && k != id implies passed(
        m,
        n,
        k,
        now,
    ) by {
        assert(x.jobs.contains_key(k));
        assert(passed(x, n, k, now));
    }
    assert(n.jobs.dom() =~= m.jobs.dom());
    assert(n.conns.dom() =~= m.conns.dom());
    assert forall|d: ConnId| #[trigger] m.conns.contains_key(d) implies same_client(
        m.conns[d],
        n.conns[d],
    ) by {
        assert(x.conns.contains_key(d));
        assert(same_client(x.conns[d], n.conns[d]));
    }
    assert forall|t: TubeId| #[trigger] m.live(t) implies kept_tube(m.tube(t), n.tube(t), now) by {
        assert(x.live(t));
        assert(m.tube(t).buried.contains(id) <==> a.state == JobState::Buried && a.tube == t);
    }
    assert(x.conns.contains_key(c));
    if n.conns[c] != x.conns[c] {
        let i = choose|i: int| out.len() <= i < o.len() && (#[trigger] o[i]).0 == c;
        assert(crate::handout::hands(x, n, o[i], now));
        assert(awaits(x, c, x.jobs[o[i].1->Reserved_id].tube));
    }
}

/// A list of jobs is given back.
proof fn lemma_give_back(m: Model, c: ConnId, ids: Seq<JobId>, i: nat, now: Nanos, out: Out)
    requires
        well_kept(m),
        now <= MAX_NOW,
        m.conns.contains_key(c),
        !m.conns[c].waiting,
        i <= ids.len(),
        ids.no_duplicates(),
        forall|k: int| i <= k < ids.len() ==> is_mine(m, c, #[trigger] ids[k]),
    ensures
        ({
            let (n, o) = m.give_back(ids, i, now, out);
            &&& well_kept(n)
            &&& forall|k: int| i <= k < ids.len() ==> given_back(m, n, c, #[trigger] ids[k], now)
            &&& forall|id: JobId| #[trigger]
                m.jobs.contains_key(id) && !ids.skip(i as int).contains(id) ==> passed(
                    m,
                    n,
                    id,
                    now,
                )
            &&& all_else_kept(m, n, now)
            &&& !n.conns[c].waiting
            &&& nobody_kept_waiting(m, now) || i < ids.len() ==> nobody_kept_waiting(n, now)
            &&& in_turn(m, n, ids, i, now)
        }),
    decreases ids.len() - i,
{
    if i >= ids.len() {
        lemma_unmoved(m, now);
    } else {
        let id = ids[i as int];
        lemma_one_back(m, c, id, now, out);
        let (x, o1) = m.readying(id).process_queue(now, out);
        assert forall|k: int| i + 1 <= k < ids.len() implies is_mine(x, c, #[trigger] ids[k])
            && x.jobs[ids[k]] == m.jobs[ids[k]] by {
            assert(is_mine(m, c, ids[k]));
            assert(m.jobs.contains_key(ids[k]));
            assert(passed(m, x, ids[k], now));
        }
        assert(x.conns.dom().contains(c));
        lemma_give_back(x, c, ids, i + 1, now, o1);
        let (n, o) = x.give_back(ids, i + 1, now, o1);
        lemma_less_still(m, x, n, now);
        let rest = ids.skip((i + 1) as int);
        assert forall|k: int| i <= k < ids.len() implies given_back(
            m,
            n,
            c,
            #[trigger] ids[k],
            now,
        ) by {
            let q = ids[k];
            if k == i {
                assert(!rest.contains(q)) by {
                    if rest.contains(q) {
                        let z = rest.index_of(q);
                        assert(ids[z + i + 1] == q);
                    }
                }
                assert(x.jobs.dom().contains(q));
                assert(passed(x, n, q, now));
                if n.jobs[q] != x.jobs[q] {
                    let d = n.jobs[q].reserver->0;
                    assert(awaits(x, d, m.jobs[q].tube));
                    assert(awaits(m, d, m.jobs[q].tube));
                    assert(open_at(x, m.jobs[q].tube, now));
                    assert(open_at(m, m.jobs[q].tube, now));
                }
            } else {
                assert(given_back(x, n, c, q, now));
                assert(is_mine(x, c, q) && x.jobs[q] == m.jobs[q]);
                let b = n.jobs[q];
                if b.state != JobState::Ready {
                    assert(awaits(x, b.reserver->0, m.jobs[q].tube));
                    assert(awaits(m, b.reserver->0, m.jobs[q].tube));
                    assert(open_at(x, m.jobs[q].tube, now));
                    assert(open_at(m, m.jobs[q].tube, now));
                }
            }
        }
        assert(in_turn(m, n, ids, i, now)) by {
            assert forall|a: int, b: int|
                #![trigger ids[a], ids[b]]
                i <= a < b < ids.len() && n.jobs[ids[b]].reserver is Some
                    && m.conns[n.jobs[ids[b]].reserver->0].watch.items.contains(
                    m.jobs[ids[a]].tube,
                ) && open_at(m, m.jobs[ids[a]].tube, now) implies n.jobs[ids[a]].state
                != JobState::Ready by {
                let d = n.jobs[ids[b]].reserver->0;
                let t = m.jobs[ids[a]].tube;
                assert(is_mine(x, c, ids[b]) && x.jobs[ids[b]] == m.jobs[ids[b]]);
                assert(given_back(x, n, c, ids[b], now));
                assert(awaits(x, d, m.jobs[ids[b]].tube));
                assert(m.conns.dom().contains(d));
                assert(same_client(m.conns[d], x.conns[d]));
                assert(awaits(x, d, t));
                assert(open_at(x, t, now));
                if a == i {
                    assert(!is_ready(x, id));
                    assert(x.jobs.dom().contains(id));
                    assert(!rest.contains(id)) by {
                        if rest.contains(id) {
                            let z = rest.index_of(id);
                            assert(ids[z + i + 1] == id);
                        }
                    }
                    assert(passed(x, n, id, now));
                } else {
                    assert(is_mine(x, c, ids[a]) && x.jobs[ids[a]] == m.jobs[ids[a]]);
                }
            }
        }
        assert forall|q: JobId| #[trigger]
            m.jobs.contains_key(q) && !ids.skip(i as int).contains(q) implies passed(
            m,
            n,
            q,
            now,
        ) by {
            assert(ids.skip(i as int)[0] == id);
            assert(!rest.contains(q)) by {
                if rest.contains(q) {
                    let z = rest.index_of(q);
                    assert(ids.skip(i as int)[z + 1] == q);
                }
            }
            assert(passed(m, x, q, now));
            assert(x.jobs.contains_key(q));
            assert(passed(x, n, q, now));
            lemma_passed_twice(m, x, n, q, now);
        }
        assert forall|d: ConnId| #[trigger] m.conns.contains_key(d) implies same_client(
            m.conns[d],
            n.conns[d],
        ) by {
            assert(x.conns.dom().contains(d));
            assert(same_client(m.conns[d], x.conns[d]));
            assert(same_client(x.conns[d], n.conns[d]));
        }
        assert forall|t: TubeId| #[trigger] m.live(t) implies kept_tube(
            m.tube(t),
            n.tube(t),
            now,
        ) by {
            assert(x.live(t));
            assert(kept_tube(m.tube(t), x.tube(t), now));
            assert(kept_tube(x.tube(t), n.tube(t), now));
        }
    }
}

/// Whether `n` is `m` without tubes that nothing needs.
pub open spec fn only_swept(m: Model, n: Model) -> bool {
    &&& forall|t: TubeId| #[trigger] n.live(t) ==> m.live(t) && n.tube(t) == m.tube(t)
    &&& forall|t: TubeId| #[trigger] m.live(t) && !n.live(t) ==> t != 0 && !needed(n, t)
}

/// A tube that nothing needs is taken away.
proof fn lemma_swept(m: Model, t: TubeId)
    requires
        m.jobs.dom().finite(),
        m.conns.dom().finite(),
    ensures
        only_swept(m, m.collecting(t)),
        m.collecting(t).jobs == m.jobs,
        m.collecting(t).conns == m.conns,
        m.collecting(t).live(t) ==> t == 0 || needed(m, t),
{
    lemma_needed(m, t);
    let n = m.collecting(t);
    assert forall|u: TubeId| #[trigger] n.live(u) implies m.live(u) && n.tube(u) == m.tube(u) by {}
    assert forall|u: TubeId| needed(n, u) == needed(m, u) by {}
}

/// A connection's list of tubes is emptied.
proof fn lemma_unwatched(m: Model, c: ConnId)
    requires
        m.jobs.dom().finite(),
        m.conns.dom().finite(),
        m.conns.contains_key(c),
        m.conns[c].watch.items.no_duplicates(),
    ensures
        ({
            let n = m.unwatch_all(c);
            &&& n.jobs == m.jobs
            &&& n.conns == m.conns.insert(c, n.conns[c])
            &&& n.conns[c] == (ConnView { watch: n.conns[c].watch, ..m.conns[c] })
            &&& n.conns[c].watch.items.len() == 0
            &&& only_swept(m, n)
        }),
    decreases m.conns[c].watch.items.len(),
{
    let w = m.conns[c].watch;
    if w.items.len() == 0 {
        assert(m.conns =~= m.conns.insert(c, m.conns[c]));
    } else {
        lemma_swap_remove(w.items, 0);
        let t = w.items[0];
        let v = ConnView {
            watch: crate::ms::MsView { items: crate::ms::swap_remove(w.items, 0), ..w },
            ..m.conns[c]
        };
        let y = m.with_conn(c, v);
        assert(y.conns.dom() =~= m.conns.dom());
        lemma_swept(y, t);
        let x = y.collecting(t);
        lemma_unwatched(x, c);
        let n = x.unwatch_all(c);
        assert(n.conns =~= m.conns.insert(c, n.conns[c]));
        assert forall|u: TubeId| #[trigger] y.live(u) == m.live(u) && y.tube(u) == m.tube(u) by {}
        assert forall|u: TubeId| needed(n, u) implies #[trigger] needed(x, u) by {
            lemma_needed_less(x, n, c, u);
        }
        assert forall|u: TubeId| #[trigger] n.live(u) implies m.live(u) && n.tube(u) == m.tube(
            u,
        ) by {
            assert(x.live(u));
            assert(y.live(u));
        }
        assert forall|u: TubeId| #[trigger] m.live(u) && !n.live(u) implies u != 0 && !needed(
            n,
            u,
        ) by {
            assert(y.live(u));
            if x.live(u) {
            } else {
                assert(!needed(x, u));
            }
        }
    }
}

/// Where a connection watches less, no more is needed.
proof fn lemma_needed_less(x: Model, n: Model, c: ConnId, t: TubeId)
    requires
        n.jobs == x.jobs,
        x.conns.contains_key(c),
        n.conns == x.conns.insert(c, n.conns[c]),
        n.conns[c].use_tube == x.conns[c].use_tube,
        n.conns[c].watch.items.len() == 0,
        needed(n, t),
    ensures
        needed(x, t),
{
    if exists|d: ConnId| #[trigger]
        n.conns.contains_key(d) && (n.conns[d].use_tube == t || n.conns[d].watch.items.contains(
            t,
        )) {
        let d = choose|d: ConnId| #[trigger]
            n.conns.contains_key(d) && (n.conns[d].use_tube == t || n.conns[d].watch.items.contains(
                t,
            ));
        assert(x.conns.contains_key(d));
    } else {
        let id = choose|id: JobId| #[trigger] n.jobs.contains_key(id) && n.jobs[id].tube == t;
        assert(x.jobs.contains_key(id));
    }
}

/// A connection that goes gives back what it holds: each such job is ready again,
/// or with another that waited for it, the one that it reserved first being given
/// back first, and is otherwise as it was; no timeout and no release is counted.
/// The other jobs are left as they are but for being handed out. The other
/// connections use and watch what they did. Tubes that nothing needs any longer
/// go; the others stay as they are but for who waits, and for a pause that was
/// over.
pub proof fn a_connection_that_goes_gives_back(m: Model, c: ConnId, now: Nanos, out: Out)
    requires
        orderly(m),
        now <= MAX_NOW,
    ensures
        ({
            let (n, o) = m.disconnect(c, now, out);
            &&& !m.conns.contains_key(c) ==> n == m && o == out
            &&& m.conns.contains_key(c) ==> {
                &&& n.conns.dom() == m.conns.dom().remove(c)
                &&& n.jobs.dom() == m.jobs.dom()
                &&& forall|id: JobId| #[trigger]
                    m.jobs.contains_key(id) ==> if is_mine(m, c, id) {
                        given_back(m, n, c, id, now)
                    } else {
                        passed(m, n, id, now)
                    }
                &&& forall|d: ConnId| #[trigger]
                    n.conns.contains_key(d) ==> same_client(m.conns[d], n.conns[d])
                &&& forall|t: TubeId| #[trigger]
                    n.live(t) ==> m.live(t) && kept_tube(m.tube(t), n.tube(t), now)
                &&& forall|t: TubeId| #[trigger]
                    m.live(t) && !n.live(t) ==> t != 0 && !needed(n, t)
                &&& nobody_kept_waiting(m, now) ==> nobody_kept_waiting(n, now)
                &&& in_turn(m, n, m.conns[c].reserved, 0, now)
            }
        }),
{
    if m.conns.contains_key(c) {
        lemma_orderly_well_kept(m);
        let m1 = m.stop_waiting(c);
        lemma_unmoved(m, now);
        if waits(m, c) {
            lemma_wait_ends(m, c);
        }
        assert(m1.conns.dom() =~= m.conns.dom());
        assert forall|d: ConnId, t: TubeId| #[trigger] awaits(m1, d, t) implies awaits(
            m,
            d,
            t,
        ) by {}
        assert forall|t: TubeId| #[trigger] m1.live(t) == m.live(t) by {}
        assert forall|t: TubeId| #[trigger] open_at(m1, t, now) == open_at(m, t, now) by {
            assert(m1.live(t) == m.live(t));
        }
        let ids = m1.conns[c].reserved;
        assert forall|k: int| 0 <= k < ids.len() implies is_mine(m1, c, #[trigger] ids[k]) by {
            assert(ids.contains(ids[k]));
            assert(m1.conns[c].reserved.contains(ids[k]) <==> is_mine(m1, c, ids[k]));
        }
        lemma_give_back(m1, c, ids, 0, now, out);
        let (m2, o2) = m1.give_back(ids, 0, now, out);
        lemma_less_still(m, m1, m2, now);
        assert(ids.skip(0) =~= ids);
        assert(m2.conns.dom().contains(c));
        lemma_unwatched(m2, c);
        let m3 = m2.unwatch_all(c);
        let m4 = Model { conns: m3.conns.remove(c), ..m3 };
        let t0 = m3.conns[c].use_tube;
        lemma_swept(m4, t0);
        let (n, o) = m.disconnect(c, now, out);
        assert(n.jobs == m2.jobs);
        assert(n.conns =~= m2.conns.remove(c));
        assert(n.conns.dom() =~= m.conns.dom().remove(c));
        assert(n.jobs.dom() =~= m.jobs.dom());
        assert forall|id: JobId| #[trigger] m.jobs.contains_key(id) implies if is_mine(m, c, id) {
            given_back(m, n, c, id, now)
        } else {
            passed(m, n, id, now)
        } by {
            assert(m1.conns[c].reserved.contains(id) <==> is_mine(m1, c, id));
            let b = m2.jobs[id];
            if is_mine(m, c, id) {
                let k = ids.index_of(id);
                assert(given_back(m1, m2, c, ids[k], now));
                if b.state != JobState::Ready {
                    assert(awaits(m1, b.reserver->0, m.jobs[id].tube));
                    assert(open_at(m1, m.jobs[id].tube, now));
                }
            } else {
                assert(m1.jobs.contains_key(id));
                assert(passed(m1, m2, id, now));
                if b != m.jobs[id] {
                    assert(awaits(m1, b.reserver->0, m.jobs[id].tube));
                    assert(open_at(m1, m.jobs[id].tube, now));
                }
            }
        }
        assert forall|d: ConnId| #[trigger] n.conns.contains_key(d) implies same_client(
            m.conns[d],
            n.conns[d],
        ) by {
            assert(m1.conns.contains_key(d));
            assert(same_client(m1.conns[d], m2.conns[d]));
        }
        assert forall|t: TubeId| #[trigger] n.live(t) implies m.live(t) && kept_tube(
            m.tube(t),
            n.tube(t),
            now,
        ) by {
            assert(m4.live(t));
            assert(m3.live(t));
            assert(m2.live(t));
            assert(m1.live(t));
            assert(kept_tube(m1.tube(t), m2.tube(t), now));
        }
        assert forall|t: TubeId| #[trigger] m.live(t) && !n.live(t) implies t != 0 && !needed(
            n,
            t,
        ) by {
            assert(m1.live(t));
            assert(m2.live(t));
            if m3.live(t) {
                assert(m4.live(t));
            } else {
                assert(!needed(m3, t));
                lemma_needed_without(m3, n, c, t);
            }
        }
        assert(in_turn(m, n, ids, 0, now)) by {
            assert forall|a: int, b: int|
                #![trigger ids[a], ids[b]]
                0 <= a < b < ids.len() && n.jobs[ids[b]].reserver is Some
                    && m.conns[n.jobs[ids[b]].reserver->0].watch.items.contains(
                    m.jobs[ids[a]].tube,
                ) && open_at(m, m.jobs[ids[a]].tube, now) implies n.jobs[ids[a]].state
                != JobState::Ready by {
                assert(given_back(m1, m2, c, ids[b], now));
                let d = n.jobs[ids[b]].reserver->0;
                assert(awaits(m1, d, m1.jobs[ids[b]].tube));
                assert(m1.conns[d].watch == m.conns[d].watch);
                assert(open_at(m1, m.jobs[ids[a]].tube, now));
            }
        }
        if nobody_kept_waiting(m, now) {
            assert(nobody_kept_waiting(m1, now)) by {
                assert forall|q: JobId, d: ConnId|
                    #![trigger is_ready(m1, q), m1.conns.contains_key(d)]
                    is_ready(m1, q) && open_at(m1, m1.jobs[q].tube, now) implies !awaits(
                    m1,
                    d,
                    m1.jobs[q].tube,
                ) by {
                    assert(is_ready(m, q));
                    assert(m.conns.contains_key(d) == m1.conns.contains_key(d));
                }
            }
            assert forall|q: JobId, d: ConnId|
                #![trigger is_ready(n, q), n.conns.contains_key(d)]
                is_ready(n, q) && open_at(n, n.jobs[q].tube, now) implies !awaits(
                n,
                d,
                n.jobs[q].tube,
            ) by {
                let t = n.jobs[q].tube;
                assert(is_ready(m2, q));
                assert(n.live(t) && m4.live(t) && m3.live(t) && m2.live(t));
                assert(open_at(m2, t, now));
                if awaits(n, d, t) {
                    assert(m2.conns.contains_key(d));
                    assert(awaits(m2, d, t));
                }
            }
        }
    }
}

/// Where a connection is gone, no more is needed.
proof fn lemma_needed_without(x: Model, n: Model, c: ConnId, t: TubeId)
    requires
        n.jobs == x.jobs,
        n.conns == x.conns.remove(c),
        !needed(x, t),
    ensures
        !needed(n, t),
{
    if needed(n, t) {
        if exists|d: ConnId| #[trigger]
            n.conns.contains_key(d) && (n.conns[d].use_tube == t || n.conns[d].watch.items.contains(
                t,
            )) {
            let d = choose|d: ConnId| #[trigger]
                n.conns.contains_key(d) && (n.conns[d].use_tube == t
                    || n.conns[d].watch.items.contains(t));
            assert(x.conns.contains_key(d));
        } else {
            let id = choose|id: JobId| #[trigger] n.jobs.contains_key(id) && n.jobs[id].tube == t;
            assert(x.jobs.contains_key(id));
        }
    }
}

} // verus!
