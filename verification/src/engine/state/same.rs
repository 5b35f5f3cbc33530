//! What an engine's state depends on: not on how the engine came to be, but on
//! what it is.

use super::{
    by_id, conns_alike, consistent, lemma_listed, listed, names_alike, sorted, states_alike,
    tubes_alike, EngineState, Parts,
};
use crate::engine::{tallies_ok, Engine};
use crate::api::{ConnId, EngineInput, EntryView, Nanos, SysSnapshot};
use crate::inv::{
    at, conn_ok, dispatchable_of, heads_of, job_ok, live, names_ok, order_ok, pauses_of, ticks_of, tube_ok,
};
use crate::model::{
    conn_alike, conns_view, jobs_view, tube_alike, tubes_view, JobState, TubeId, TubeState,
};
use crate::proto::{default_name, JobId, TubeName};
use crate::rules::{count_conns, count_jobs, ConnSel, JobSel, Model, Out};
use crate::text::{bytes_lt, bytes_lt_is_a_strict_order};
use crate::unseen::{journaled_entries_are_unseen, same_outcome};
use vstd::prelude::*;

verus! {

/// Two lists of ascending keys that have the same keys have them in the same
/// places.
proof fn lemma_same_keys<T, U>(v: Seq<(u64, T)>, w: Seq<(u64, U)>)
    requires
        sorted(v),
        sorted(w),
        listed(v).dom() == listed(w).dom(),
    ensures
        v.len() == w.len(),
        forall|i: int| #![trigger v[i]] #![trigger w[i]] 0 <= i < v.len() ==> v[i].0 == w[i].0,
    decreases v.len(),
{
    lemma_listed(v);
    lemma_listed(w);
    if v.len() == 0 {
        if w.len() > 0 {
            assert(listed(w).contains_key(w[0].0));
            assert(listed(v).dom().contains(w[0].0));
        }
    } else {
        assert(listed(v).contains_key(v[0].0));
        assert(listed(w).dom().contains(v[0].0));
        let j = choose|j: int| 0 <= j < w.len() && (#[trigger] w[j]).0 == v[0].0;
        assert(listed(w).contains_key(w[0].0));
        assert(listed(v).dom().contains(w[0].0));
        let i = choose|i: int| 0 <= i < v.len() && (#[trigger] v[i]).0 == w[0].0;
        assert(v[0].0 == w[0].0) by {
            if i > 0 {
                assert(v[0].0 < v[i].0);
            }
            if j > 0 {
                assert(w[0].0 < w[j].0);
            }
        }
        let vr = v.drop_first();
        let wr = w.drop_first();
        assert(sorted(vr)) by {
            assert forall|i: int, j: int|
                #![trigger vr[i], vr[j]]
                0 <= i < j < vr.len() implies vr[i].0 < vr[j].0 by {
                assert(vr[i] == v[i + 1] && vr[j] == v[j + 1]);
            }
        }
        assert(sorted(wr)) by {
            assert forall|i: int, j: int|
                #![trigger wr[i], wr[j]]
                0 <= i < j < wr.len() implies wr[i].0 < wr[j].0 by {
                assert(wr[i] == w[i + 1] && wr[j] == w[j + 1]);
            }
        }
        lemma_listed(vr);
        lemma_listed(wr);
        assert forall|k: u64| listed(vr).contains_key(k) implies k != v[0].0 by {
            let i = choose|i: int| 0 <= i < vr.len() && (#[trigger] vr[i]).0 == k;
            assert(vr[i] == v[i + 1]);
            assert(v[0].0 < v[i + 1].0);
        }
        assert forall|k: u64| listed(wr).contains_key(k) implies k != w[0].0 by {
            let i = choose|i: int| 0 <= i < wr.len() && (#[trigger] wr[i]).0 == k;
            assert(wr[i] == w[i + 1]);
            assert(w[0].0 < w[i + 1].0);
        }
        assert(listed(vr).dom() =~= listed(wr).dom()) by {
            assert forall|k: u64| listed(vr).contains_key(k) == listed(wr).contains_key(k) by {
                assert(listed(v).dom().contains(k) == listed(w).dom().contains(k));
            }
        }
        lemma_same_keys(vr, wr);
        assert forall|i: int|
            #![trigger v[i]]
            #![trigger w[i]]
            0 <= i < v.len() implies v[i].0 == w[i].0 by {
            if i > 0 {
                assert(vr[i - 1] == v[i] && wr[i - 1] == w[i]);
            }
        }
    }
}

/// An index of names that lists each tube once, ascending, lists the tube that
/// another such index lists at some place.
proof fn lemma_name_found(
    tubes: Seq<Option<TubeState>>,
    other: Seq<Option<TubeState>>,
    x: Seq<(TubeName, TubeId)>,
    y: Seq<(TubeName, TubeId)>,
    i: int,
) -> (j: int)
    requires
        tubes_alike(tubes, other),
        names_ok(tubes, x),
        names_ok(other, y),
        0 <= i < x.len(),
    ensures
        0 <= j < y.len(),
        y[j].1 == x[i].1,
        y[j].0@ == x[i].0@,
{
    let t = x[i].1;
    assert(live(tubes, t));
    assert(tubes[t as int] is Some <==> other[t as int] is Some);
    assert(live(other, t));
    let j = choose|j: int| 0 <= j < y.len() && (#[trigger] y[j]).1 == t;
    assert(at(other, t).name@ == y[j].0@);
    assert(at(tubes, t).name@ == x[i].0@);
    assert(tube_alike(at(tubes, t), at(other, t)));
    assert(at(tubes, t)@ == at(other, t)@);
    assert(at(tubes, t).name@ == at(other, t).name@);
    j
}

/// Where two indexes of the same names agree up to some place, they agree there
/// too.
proof fn lemma_same_name(
    tubes: Seq<Option<TubeState>>,
    other: Seq<Option<TubeState>>,
    x: Seq<(TubeName, TubeId)>,
    y: Seq<(TubeName, TubeId)>,
    i: int,
)
    requires
        tubes_alike(tubes, other),
        names_ok(tubes, x),
        names_ok(other, y),
        0 <= i <= x.len(),
        0 <= i <= y.len(),
        forall|k: int|
            #![trigger x[k]]
            #![trigger y[k]]
            0 <= k < i ==> x[k].0@ == y[k].0@ && x[k].1 == y[k].1,
    ensures
        i < x.len() <==> i < y.len(),
        i < x.len() ==> x[i].0@ == y[i].0@ && x[i].1 == y[i].1,
{
    lemma_alike_swapped(tubes, other);
    if i < x.len() {
        let j = lemma_name_found(tubes, other, x, y, i);
        if j < i {
            assert(bytes_lt(x[j].0@, x[i].0@));
            bytes_lt_is_a_strict_order(x[i].0@, x[i].0@, x[i].0@);
        }
        if j > i {
            let k = lemma_name_found(other, tubes, y, x, i);
            assert(bytes_lt(y[i].0@, y[j].0@));
            if k < i {
                assert(bytes_lt(y[k].0@, y[i].0@));
                bytes_lt_is_a_strict_order(y[i].0@, y[i].0@, y[i].0@);
            } else if k == i {
                bytes_lt_is_a_strict_order(y[i].0@, y[i].0@, y[i].0@);
            } else {
                assert(bytes_lt(x[i].0@, x[k].0@));
                bytes_lt_is_a_strict_order(x[i].0@, x[k].0@, x[i].0@);
                bytes_lt_is_a_strict_order(x[i].0@, x[i].0@, x[i].0@);
            }
        }
    } else if i < y.len() {
        let k = lemma_name_found(other, tubes, y, x, i);
        assert(bytes_lt(y[k].0@, y[i].0@));
        bytes_lt_is_a_strict_order(y[i].0@, y[i].0@, y[i].0@);
    }
}

/// Slabs that hold the same do so either way round.
proof fn lemma_alike_swapped(a: Seq<Option<TubeState>>, b: Seq<Option<TubeState>>)
    requires
        tubes_alike(a, b),
    ensures
        tubes_alike(b, a),
{
    assert forall|i: int|
        #![trigger b[i]]
        #![trigger a[i]]
        0 <= i < b.len() implies (b[i] is Some <==> a[i] is Some) && (b[i] is Some ==> tube_alike(
        b[i]->0,
        a[i]->0,
    )) by {
        assert(a[i] is Some <==> b[i] is Some);
    }
}

/// Two indexes of the same names are the same.
proof fn lemma_same_names(
    tubes: Seq<Option<TubeState>>,
    other: Seq<Option<TubeState>>,
    x: Seq<(TubeName, TubeId)>,
    y: Seq<(TubeName, TubeId)>,
    i: int,
)
    requires
        tubes_alike(tubes, other),
        names_ok(tubes, x),
        names_ok(other, y),
        0 <= i <= x.len(),
        0 <= i <= y.len(),
        forall|k: int|
            #![trigger x[k]]
            #![trigger y[k]]
            0 <= k < i ==> x[k].0@ == y[k].0@ && x[k].1 == y[k].1,
    ensures
        names_alike(x, y),
    decreases x.len() - i,
{
    lemma_same_name(tubes, other, x, y, i);
    if i < x.len() {
        lemma_same_names(tubes, other, x, y, i + 1);
    }
}

/// The same model, and so the same tubes.
proof fn lemma_same_tubes(a: &Engine, b: &Engine)
    requires
        a.wf(),
        b.wf(),
        a@.jobs == b@.jobs,
        a@.conns == b@.conns,
        a@.tubes == b@.tubes,
        a@.order == b@.order,
    ensures
        tubes_alike(a.tubes@, b.tubes@),
{
    let x = a.tubes@;
    let y = b.tubes@;
    assert(tubes_view(x) == tubes_view(y));
    assert(x.len() == tubes_view(x).len() && y.len() == tubes_view(y).len());
    assert forall|i: int|
        #![trigger x[i]]
        #![trigger y[i]]
        0 <= i < x.len() implies (x[i] is Some <==> y[i] is Some) && (x[i] is Some ==> tube_alike(
        x[i]->0,
        y[i]->0,
    )) by {
        assert(tubes_view(x)[i] == tubes_view(y)[i]);
        if x[i] is Some {
            assert(a.tubes.len() == x.len());
            let t = i as TubeId;
            assert(live(x, t) && live(y, t));
            assert(tube_ok(at(x, t), t, a.jv(), a.cv()));
            assert(tube_ok(at(y, t), t, b.jv(), b.cv()));
            let p = x[i]->0;
            let q = y[i]->0;
            assert(p@ == q@);
            assert(p.buried@ == q.buried@);
            assert(p.waiting_conns@ == q.waiting_conns@);
            assert(p.pos == q.pos) by {
                assert(order_ok(x, a.tube_order@.items) && order_ok(y, b.tube_order@.items));
                let o = a.tube_order@.items;
                assert(o[p.pos as int] == t);
                assert(o[q.pos as int] == t);
                assert(at(x, o[q.pos as int]).pos == q.pos) by {
                    assert(live(x, o[q.pos as int]));
                }
            }
            assert(p.stat == q.stat) by {
                assert(p.stat.pause_ct == p@.pause_ct && q.stat.pause_ct == q@.pause_ct);
                assert(p.stat.total_delete_ct == p@.total_delete_ct && q.stat.total_delete_ct
                    == q@.total_delete_ct);
                assert(p.stat.total_jobs_ct == p@.total_jobs_ct && q.stat.total_jobs_ct
                    == q@.total_jobs_ct);
            }
        }
    }
}

/// The same model, and so the same connections.
proof fn lemma_same_conns(a: &Engine, b: &Engine)
    requires
        a.wf(),
        b.wf(),
        a@.jobs == b@.jobs,
        a@.conns == b@.conns,
    ensures
        conns_alike(a.conns@, b.conns@),
{
    let x = a.conns@;
    let y = b.conns@;
    assert(conns_view(x) == conns_view(y));
    assert(x.dom() =~= conns_view(x).dom() && y.dom() =~= conns_view(y).dom());
    assert forall|c: ConnId|
        #![trigger x[c]]
        #![trigger y[c]]
        x.contains_key(c) implies conn_alike(x[c], y[c]) by {
        assert(y.contains_key(c));
        assert(conns_view(x)[c] == x[c]@ && conns_view(y)[c] == y[c]@);
        assert(conn_ok(x[c], c, a.next_job_id, a.tubes@, a.jv()));
        assert(conn_ok(y[c], c, b.next_job_id, b.tubes@, b.jv()));
        assert(x[c].waiting == x[c]@.waiting && y[c].waiting == y[c]@.waiting);
        assert(x[c].wait_deadline == x[c]@.wait_deadline && y[c].wait_deadline
            == y[c]@.wait_deadline);
    }
}

/// Engines that are the same export the same, whatever entries the log has not
/// been given yet: every index and every counter is decided by the rest.
pub proof fn equal_engines_export_equal_states(
    a: Engine,
    b: Engine,
    s: EngineState,
    t: EngineState,
)
    requires
        a.valid(),
        b.valid(),
        (Model { journal: Seq::<EntryView>::empty(), ..a@ }) == (Model {
            journal: Seq::<EntryView>::empty(),
            ..b@
        }),
        a.exports(s),
        b.exports(t),
    ensures
        states_alike(s, t),
{
    let m = Model { journal: Seq::<EntryView>::empty(), ..a@ };
    let n = Model { journal: Seq::<EntryView>::empty(), ..b@ };
    assert(m.jobs == a@.jobs && n.jobs == b@.jobs);
    assert(m.conns == a@.conns && n.conns == b@.conns);
    assert(m.tubes == a@.tubes && n.tubes == b@.tubes);
    assert(m.order == a@.order && n.order == b@.order);
    assert(m.free == a@.free && n.free == b@.free);
    assert(m.cfg == a@.cfg && n.cfg == b@.cfg);
    assert(m.start == a@.start && n.start == b@.start);
    assert(m.draining == a@.draining && n.draining == b@.draining);
    assert(m.next_job_id == a@.next_job_id && n.next_job_id == b@.next_job_id);
    assert(m.total_jobs_ct == a@.total_jobs_ct && n.total_jobs_ct == b@.total_jobs_ct);
    assert(m.timeout_ct == a@.timeout_ct && n.timeout_ct == b@.timeout_ct);
    assert(m.tot_conns == a@.tot_conns && n.tot_conns == b@.tot_conns);
    assert(m.ops == a@.ops && n.ops == b@.ops);
    assert(m.binlog == a@.binlog && n.binlog == b@.binlog);
    lemma_same_tubes(&a, &b);
    lemma_same_conns(&a, &b);
    lemma_same_names(a.tubes@, b.tubes@, a.tube_ids@, b.tube_ids@, 0);
    // The jobs.
    let x = by_id(s.jobs@);
    let y = by_id(t.jobs@);
    assert(listed(x).dom() =~= jobs_view(listed(x)).dom());
    assert(listed(y).dom() =~= jobs_view(listed(y)).dom());
    lemma_same_keys(x, y);
    lemma_listed(x);
    lemma_listed(y);
    assert forall|i: int|
        #![trigger s.jobs@[i]]
        #![trigger t.jobs@[i]]
        0 <= i < s.jobs@.len() implies s.jobs@[i]@ == t.jobs@[i]@ by {
        assert(x[i].0 == y[i].0);
        assert(jobs_view(listed(x))[x[i].0] == s.jobs@[i]@);
        assert(jobs_view(listed(y))[y[i].0] == t.jobs@[i]@);
    }
    // The tubes.
    assert(tubes_alike(s.tubes@, t.tubes@)) by {
        assert forall|i: int|
            #![trigger s.tubes@[i]]
            #![trigger t.tubes@[i]]
            0 <= i < s.tubes@.len() implies (s.tubes@[i] is Some <==> t.tubes@[i] is Some) && (
        s.tubes@[i] is Some ==> tube_alike(s.tubes@[i]->0, t.tubes@[i]->0)) by {
            assert(a.tubes@[i] is Some <==> s.tubes@[i] is Some);
            assert(b.tubes@[i] is Some <==> t.tubes@[i] is Some);
            assert(a.tubes@[i] is Some <==> b.tubes@[i] is Some);
        }
    }
    assert(names_alike(s.tube_ids@, t.tube_ids@)) by {
        assert forall|i: int|
            #![trigger s.tube_ids@[i]]
            #![trigger t.tube_ids@[i]]
            0 <= i < s.tube_ids@.len() implies s.tube_ids@[i].0@ == t.tube_ids@[i].0@
            && s.tube_ids@[i].1 == t.tube_ids@[i].1 by {
            assert(a.tube_ids@[i].1 == s.tube_ids@[i].1);
            assert(b.tube_ids@[i].1 == t.tube_ids@[i].1);
            assert(a.tube_ids@[i].1 == b.tube_ids@[i].1);
        }
    }
    // The connections.
    lemma_same_keys(s.conns@, t.conns@);
    lemma_listed(s.conns@);
    lemma_listed(t.conns@);
    assert forall|i: int|
        #![trigger s.conns@[i]]
        #![trigger t.conns@[i]]
        0 <= i < s.conns@.len() implies s.conns@[i].0 == t.conns@[i].0 && conn_alike(
        s.conns@[i].1,
        t.conns@[i].1,
    ) by {
        let c = s.conns@[i].0;
        assert(t.conns@[i].0 == c);
        assert(listed(s.conns@)[c] == s.conns@[i].1);
        assert(listed(t.conns@)[c] == t.conns@[i].1);
        assert(conn_alike(a.conns@[c], listed(s.conns@)[c]));
        assert(conn_alike(b.conns@[c], listed(t.conns@)[c]));
        assert(conn_alike(a.conns@[c], b.conns@[c]));
    }
    // The indexes and the tallies.
    assert(ticks_of(a.conns@) =~= ticks_of(b.conns@)) by {
        assert forall|p: (Nanos, ConnId)| ticks_of(a.conns@).contains(p) == ticks_of(
            b.conns@,
        ).contains(p) by {
            if a.conns@.contains_key(p.1) {
                assert(conn_alike(a.conns@[p.1], b.conns@[p.1]));
            }
            assert(a.conns@.dom().contains(p.1) == b.conns@.dom().contains(p.1));
        }
    }
    assert forall|u: TubeId| #[trigger] live(a.tubes@, u) == live(b.tubes@, u) by {
        if u < a.tubes@.len() {
            assert(a.tubes@[u as int] is Some <==> b.tubes@[u as int] is Some);
        }
    }
    assert forall|u: TubeId| #[trigger] live(a.tubes@, u) implies tube_alike(
        at(a.tubes@, u),
        at(b.tubes@, u),
    ) by {
        assert(a.tubes@[u as int] is Some);
    }
    assert(heads_of(a.tubes@) =~= heads_of(b.tubes@));
    assert(pauses_of(a.tubes@) =~= pauses_of(b.tubes@)) by {
        assert forall|p: (Nanos, TubeId)| pauses_of(a.tubes@).contains(p) == pauses_of(
            b.tubes@,
        ).contains(p) by {
            if live(a.tubes@, p.1) {
                assert(at(a.tubes@, p.1)@ == at(b.tubes@, p.1)@);
            }
        }
    }
    assert(dispatchable_of(a.tubes@) =~= dispatchable_of(b.tubes@));
    assert(a.tallies == b.tallies);
}

/// An engine made of another's state is the same as that one, and nothing is
/// left for its log: what either does from then on is the same.
pub proof fn restored_engine_is_the_same(e: Engine, s: EngineState, r: Engine)
    requires
        e.exports(s),
        r@ == s.model(),
    ensures
        r@ == (Model { journal: Seq::<EntryView>::empty(), ..e@ }),
{
    e.lemma_exported(s);
}

/// An engine made of another's state goes on as that one does: whatever happens,
/// and whatever the host says of itself, both send the same replies, and go on
/// differing in what they have journaled alone.
pub proof fn restored_engine_goes_on_alike(
    e: Engine,
    s: EngineState,
    r: Engine,
    now: Nanos,
    input: EngineInput,
    sys: SysSnapshot,
    out: Out,
)
    requires
        e.wf(),
        e.exports(s),
        r@ == s.model(),
    ensures
        same_outcome(e@.apply_input(now, input, sys, out), r@.apply_input(now, input, sys, out)),
{
    e.engine_is_orderly();
    restored_engine_is_the_same(e, s, r);
    journaled_entries_are_unseen(e@, r@, now, input, sys, out);
}

/// An engine whose journal has just been given to the log, and the engine made of
/// its state, are one: they are in the same state, and stay so through every
/// history, so that they send the same replies, journal the same entries and
/// have the same times at which something is due.
pub proof fn round_trip_is_invisible(
    e: Engine,
    s: EngineState,
    r: Engine,
    history: Seq<(Nanos, EngineInput)>,
)
    requires
        e.exports(s),
        e@.journal.len() == 0,
        r@ == s.model(),
    ensures
        r@ == e@,
        r@.after_all(history) == e@.after_all(history),
        r@.after_all(history).journal == e@.after_all(history).journal,
        r@.after_all(history).due_times() == e@.after_all(history).due_times(),
{
    restored_engine_is_the_same(e, s, r);
    assert(e@.journal =~= Seq::<EntryView>::empty());
}

/// What holds of a state that is taken over, besides where each job stands:
/// every counter is what a count gives, every index what collecting gives, ready
/// jobs and waiting connections share a tube only while it is paused, something
/// refers to every tube but "default", which is tube 0 and first in the list, and
/// every number that a job has or was promised has been handed out.
pub proof fn counters_and_indexes_are_exact(s: EngineState, t: TubeId, id: JobId, c: ConnId)
    requires
        s.valid(),
        live(s.tubes@, t),
    ensures
        ({
            let p = s.parts();
            let conns = conns_view(p.conns);
            let x = at(p.tubes, t);
            &&& tallies_ok(p.tallies, p.jobs, conns)
            &&& x.job_ref_ct == count_jobs(p.jobs, JobSel::InTube(t))
            &&& x.stat.urgent_ct == count_jobs(p.jobs, JobSel::UrgentIn(t))
            &&& x.stat.reserved_ct == count_jobs(p.jobs, JobSel::ReservedIn(t))
            &&& x.stat.buried_ct == x.buried@.len()
            &&& x.stat.waiting_ct == x.waiting_conns@.items.len()
            &&& x.using_ct == count_conns(conns, ConnSel::Uses(t))
            &&& x.watching_ct == count_conns(conns, ConnSel::Watches(t))
            &&& p.conn_ticks == ticks_of(p.conns)
            &&& p.delay_heads == heads_of(p.tubes)
            &&& p.pauses == pauses_of(p.tubes)
            &&& p.dispatchable == dispatchable_of(p.tubes)
            &&& x.waiting_conns@.items.len() > 0 && !x.ready@.is_empty() ==> x.pause > 0
            &&& t != 0 ==> x.job_ref_ct + x.using_ct + x.watching_ct > 0
            &&& live(p.tubes, 0) && at(p.tubes, 0).name@ == default_name() && p.order[0] == 0
            &&& p.jobs.contains_key(id) ==> id < p.next
            &&& p.conns.contains_key(c) && p.conns[c].pending_put is Some
                && p.conns[c].pending_put->0.id is Some ==> p.conns[c].pending_put->0.id->0 < p.next
        }),
{
    let p = s.parts();
    let m = s.model();
    let x = at(p.tubes, t);
    assert(tube_ok(x, t, p.jobs, conns_view(p.conns)));
    assert(m.tubes[t as int] == Some(x@));
    assert(m.live(t));
    if x.waiting_conns@.items.len() > 0 && !x.ready@.is_empty() && x.pause == 0 {
        let q = x.ready@.choose();
        assert(x.ready@.contains(q));
        assert(m.awaited(q.1));
    }
    if t != 0 {
        assert(m.referenced(t));
    }
    assert(live(p.tubes, 0));
    if p.jobs.contains_key(id) {
        assert(job_ok(p.jobs[id], id, p.next, p.tubes, conns_view(p.conns)));
    }
    if p.conns.contains_key(c) {
        assert(conn_ok(p.conns[c], c, p.next, p.tubes, p.jobs));
    }
}

/// Two engines that were made alike and went through the same inputs at the same
/// times are in the same state, whatever their hosts: what is taken out of them
/// is alike.
pub proof fn same_history_same_state(
    a: Engine,
    b: Engine,
    start: Model,
    history: Seq<(Nanos, EngineInput)>,
    s: EngineState,
    t: EngineState,
)
    requires
        a.valid(),
        b.valid(),
        a@ == start.after_all(history),
        b@ == start.after_all(history),
        a.exports(s),
        b.exports(t),
    ensures
        states_alike(s, t),
{
    equal_engines_export_equal_states(a, b, s, t);
}

/// In a consistent state every job stands in exactly one place: the list that
/// its state names, of its own tube or of the connection that holds it.
pub proof fn each_job_stands_in_one_place(p: Parts, id: JobId, t: TubeId, c: ConnId)
    requires
        consistent(p),
        p.jobs.contains_key(id),
        live(p.tubes, t),
        p.conns.contains_key(c),
    ensures
        ({
            let j = p.jobs[id];
            let x = at(p.tubes, t);
            &&& live(p.tubes, j.tube)
            &&& forall|pri: u32| #[trigger]
                x.ready@.contains((pri, id)) <==> j.state == JobState::Ready && j.tube == t && j.pri
                    == pri
            &&& forall|d: Nanos| #[trigger]
                x.delayed@.contains((d, id)) <==> j.state == JobState::Delayed && j.tube == t
                    && j.deadline_at == d
            &&& x.buried@.contains(id) <==> j.state == JobState::Buried && j.tube == t
            &&& x.buried@.no_duplicates()
            &&& p.conns[c].reserved_fifo@.contains(id) <==> j.state == JobState::Reserved
                && j.reserver == Some(c)
            &&& p.conns[c].reserved_fifo@.no_duplicates()
            &&& forall|d: Nanos| #[trigger]
                p.conns[c].reserved_by_deadline@.contains((d, id)) <==> j.state
                    == JobState::Reserved && j.reserver == Some(c) && j.deadline_at == d
            &&& j.state == JobState::Reserved ==> j.reserver is Some && p.conns.contains_key(
                j.reserver->0,
            )
        }),
{
    let j = p.jobs[id];
    assert(job_ok(j, id, p.next, p.tubes, conns_view(p.conns)));
    assert(tube_ok(at(p.tubes, t), t, p.jobs, conns_view(p.conns)));
    assert(conn_ok(p.conns[c], c, p.next, p.tubes, p.jobs));
}

/// The state of an engine between events is one that can be taken over.
pub proof fn exported_state_is_valid(e: Engine, s: EngineState)
    requires
        e.valid(),
        e.exports(s),
    ensures
        s.valid(),
{
    e.lemma_valid(s);
}

} // verus!
