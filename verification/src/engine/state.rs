//! Taking the whole state out of an engine, and making an engine of one.

use super::faults::Fault;
use super::{tallies_ok, Engine, Held, Tallies};
use crate::api::{
    BinlogStats, ConnId, EngineConfig, EntryView, Nanos, StateError, SysInfo, SysSnapshot,
};
use crate::inv::{
    at, conn_ok, default_ok, dispatchable_of, free_ok, heads_of, job_ok, live, names_ok, order_ok,
    pauses_of, pending_ok, ticks_of, tube_ok,
};
use crate::model::{
    conn_alike, conns_view, jobs_view, tube_alike, tubes_view, ConnState, JobRec, JobView, TubeId,
    TubeState,
};
use crate::ms::Ms;
use crate::ordset::keys_of;
use crate::proto::{JobId, TubeName};
use crate::rules::{Model, OpCounts};
use crate::settle::settled;
use crate::text::{bytes_lt, bytes_lt_is_a_strict_order, less};
use std::collections::{BTreeMap, BTreeSet};
use vstd::prelude::*;

pub mod same;

verus! {

/// How many slots the slab of a state that is taken over may have.
pub const MAX_TUBE_SLOTS: usize = 16_777_216;

/// Everything that an engine holds, but for what the system tells it and the
/// entries that the log has not been given yet.
#[derive(Debug, PartialEq, Eq)]
pub struct EngineState {
    pub cfg: EngineConfig,
    pub start: Nanos,
    pub draining: bool,
    pub next_job_id: JobId,
    /// Ascending by id.
    pub jobs: Vec<JobRec>,
    pub tubes: Vec<Option<TubeState>>,
    pub free_tube_ids: Vec<TubeId>,
    /// Ascending by name.
    pub tube_ids: Vec<(TubeName, TubeId)>,
    pub tube_order: Ms<TubeId>,
    /// Ascending by id.
    pub conns: Vec<(ConnId, ConnState)>,
    pub conn_ticks: BTreeSet<(Nanos, ConnId)>,
    pub delay_heads: BTreeSet<(Nanos, TubeId)>,
    pub pauses: BTreeSet<(Nanos, TubeId)>,
    pub dispatchable: BTreeSet<TubeId>,
    pub tallies: Tallies,
    pub total_jobs_ct: u64,
    pub timeout_ct: u64,
    pub tot_conns: u32,
    pub ops: OpCounts,
    pub binlog: BinlogStats,
}

/// What a list of keys and values maps each key to.
pub open spec fn listed<T>(v: Seq<(u64, T)>) -> Map<u64, T>
    decreases v.len(),
{
    if v.len() == 0 {
        Map::empty()
    } else {
        listed(v.drop_first()).insert(v[0].0, v[0].1)
    }
}

/// Whether the keys of the list ascend.
pub open spec fn sorted<T>(v: Seq<(u64, T)>) -> bool {
    forall|i: int, j: int| #![trigger v[i], v[j]] 0 <= i < j < v.len() ==> v[i].0 < v[j].0
}

/// Whether the names ascend.
pub open spec fn names_ascend(v: Seq<(TubeName, TubeId)>) -> bool {
    forall|i: int, j: int|
        #![trigger v[i], v[j]]
        0 <= i < j < v.len() ==> bytes_lt(v[i].0@, v[j].0@)
}

/// The jobs of a list, each with its id.
pub open spec fn by_id(v: Seq<JobRec>) -> Seq<(u64, JobRec)> {
    v.map_values(|j: JobRec| (j.id, j))
}

/// Where keys ascend, the list maps each key to the value that stands with it.
proof fn lemma_listed<T>(v: Seq<(u64, T)>)
    requires
        sorted(v),
    ensures
        forall|i: int|
            #![trigger v[i]]
            0 <= i < v.len() ==> listed(v).contains_key(v[i].0) && listed(v)[v[i].0] == v[i].1,
        forall|k: u64| #[trigger]
            listed(v).contains_key(k) ==> exists|i: int| 0 <= i < v.len() && (#[trigger] v[i]).0 == k,
    decreases v.len(),
{
    if v.len() > 0 {
        let rest = v.drop_first();
        assert(sorted(rest)) by {
            assert forall|i: int, j: int|
                #![trigger rest[i], rest[j]]
                0 <= i < j < rest.len() implies rest[i].0 < rest[j].0 by {
                assert(rest[i] == v[i + 1] && rest[j] == v[j + 1]);
            }
        }
        lemma_listed(rest);
        assert forall|i: int|
            #![trigger v[i]]
            0 <= i < v.len() implies listed(v).contains_key(v[i].0) && listed(v)[v[i].0]
            == v[i].1 by {
            if i > 0 {
                assert(rest[i - 1] == v[i]);
                assert(v[0].0 < v[i].0);
            }
        }
        assert forall|k: u64| #[trigger] listed(v).contains_key(k) implies exists|i: int|
            0 <= i < v.len() && (#[trigger] v[i]).0 == k by {
            if k == v[0].0 {
                assert(v[0].0 == k);
            } else {
                assert(listed(rest).contains_key(k));
                let i = choose|i: int| 0 <= i < rest.len() && (#[trigger] rest[i]).0 == k;
                assert(v[i + 1].0 == k);
            }
        }
    }
}

/// Whether two slabs hold the same.
pub open spec fn tubes_alike(a: Seq<Option<TubeState>>, b: Seq<Option<TubeState>>) -> bool {
    &&& a.len() == b.len()
    &&& forall|i: int|
        #![trigger a[i]]
        #![trigger b[i]]
        0 <= i < a.len() ==> (a[i] is Some <==> b[i] is Some) && (a[i] is Some ==> tube_alike(
            a[i]->0,
            b[i]->0,
        ))
}

/// Whether two indexes of names hold the same.
pub open spec fn names_alike(a: Seq<(TubeName, TubeId)>, b: Seq<(TubeName, TubeId)>) -> bool {
    &&& a.len() == b.len()
    &&& forall|i: int|
        #![trigger a[i]]
        #![trigger b[i]]
        0 <= i < a.len() ==> a[i].0@ == b[i].0@ && a[i].1 == b[i].1
}

/// Whether two collections of connections hold the same.
pub open spec fn conns_alike(a: Map<ConnId, ConnState>, b: Map<ConnId, ConnState>) -> bool {
    &&& a.dom() == b.dom()
    &&& forall|c: ConnId|
        #![trigger a[c]]
        #![trigger b[c]]
        a.contains_key(c) ==> conn_alike(a[c], b[c])
}

/// Whether two states hold the same.
pub open spec fn states_alike(a: EngineState, b: EngineState) -> bool {
    &&& a.cfg == b.cfg
    &&& a.start == b.start
    &&& a.draining == b.draining
    &&& a.next_job_id == b.next_job_id
    &&& a.jobs@.len() == b.jobs@.len()
    &&& forall|i: int|
        #![trigger a.jobs@[i]]
        #![trigger b.jobs@[i]]
        0 <= i < a.jobs@.len() ==> a.jobs@[i]@ == b.jobs@[i]@
    &&& tubes_alike(a.tubes@, b.tubes@)
    &&& a.free_tube_ids@ == b.free_tube_ids@
    &&& names_alike(a.tube_ids@, b.tube_ids@)
    &&& a.tube_order@ == b.tube_order@
    &&& a.conns@.len() == b.conns@.len()
    &&& forall|i: int|
        #![trigger a.conns@[i]]
        #![trigger b.conns@[i]]
        0 <= i < a.conns@.len() ==> a.conns@[i].0 == b.conns@[i].0 && conn_alike(
            a.conns@[i].1,
            b.conns@[i].1,
        )
    &&& a.conn_ticks@ == b.conn_ticks@
    &&& a.delay_heads@ == b.delay_heads@
    &&& a.pauses@ == b.pauses@
    &&& a.dispatchable@ == b.dispatchable@
    &&& a.tallies == b.tallies
    &&& a.total_jobs_ct == b.total_jobs_ct
    &&& a.timeout_ct == b.timeout_ct
    &&& a.tot_conns == b.tot_conns
    &&& a.ops == b.ops
    &&& a.binlog == b.binlog
}

impl Clone for EngineState {
    fn clone(&self) -> (r: Self)
        ensures
            states_alike(*self, r),
    {
        broadcast use crate::ordset::group_ordered;

        let n: usize = self.jobs.len();
        let mut jobs: Vec<JobRec> = Vec::new();
        let mut i: usize = 0;
        while i < n
            invariant
                i <= n,
                n == self.jobs@.len(),
                jobs@.len() == i,
                forall|k: int|
                    #![trigger self.jobs@[k]]
                    #![trigger jobs@[k]]
                    0 <= k < i ==> self.jobs@[k]@ == jobs@[k]@,
            decreases n - i,
        {
            jobs.push(self.jobs[i].clone());
            i = i + 1;
        }
        let m: usize = self.conns.len();
        let mut conns: Vec<(ConnId, ConnState)> = Vec::new();
        let mut k: usize = 0;
        while k < m
            invariant
                k <= m,
                m == self.conns@.len(),
                conns@.len() == k,
                forall|a: int|
                    #![trigger self.conns@[a]]
                    #![trigger conns@[a]]
                    0 <= a < k ==> self.conns@[a].0 == conns@[a].0 && conn_alike(
                        self.conns@[a].1,
                        conns@[a].1,
                    ),
            decreases m - k,
        {
            conns.push((self.conns[k].0, self.conns[k].1.clone()));
            k = k + 1;
        }
        let r = EngineState {
            cfg: self.cfg,
            start: self.start,
            draining: self.draining,
            next_job_id: self.next_job_id,
            jobs,
            tubes: copy_tubes(&self.tubes),
            free_tube_ids: self.free_tube_ids.clone(),
            tube_ids: copy_names(&self.tube_ids),
            tube_order: self.tube_order.clone(),
            conns,
            conn_ticks: self.conn_ticks.clone(),
            delay_heads: self.delay_heads.clone(),
            pauses: self.pauses.clone(),
            dispatchable: self.dispatchable.clone(),
            tallies: self.tallies,
            total_jobs_ct: self.total_jobs_ct,
            timeout_ct: self.timeout_ct,
            tot_conns: self.tot_conns,
            ops: self.ops,
            binlog: self.binlog,
        };
        assert(r.free_tube_ids@ =~= self.free_tube_ids@);
        assert(r.tube_order@.items =~= self.tube_order@.items);
        r
    }
}

/// The parts of an engine that must agree with each other.
pub struct Parts {
    pub tubes: Seq<Option<TubeState>>,
    pub free: Seq<TubeId>,
    pub names: Seq<(TubeName, TubeId)>,
    pub order: Seq<TubeId>,
    pub next: JobId,
    pub tot_conns: u32,
    pub tallies: Tallies,
    pub jobs: Map<JobId, JobView>,
    pub conns: Map<ConnId, ConnState>,
    pub conn_ticks: Set<(Nanos, ConnId)>,
    pub delay_heads: Set<(Nanos, TubeId)>,
    pub pauses: Set<(Nanos, TubeId)>,
    pub dispatchable: Set<TubeId>,
}

/// Whether the parts of an engine agree: what names something names something
/// that exists, and every index and every counter is what a recomputation would
/// give.
pub open spec fn consistent(p: Parts) -> bool {
    &&& default_ok(p.tubes)
    &&& order_ok(p.tubes, p.order)
    &&& free_ok(p.tubes, p.free)
    &&& names_ok(p.tubes, p.names)
    &&& p.next >= 1
    &&& p.tot_conns >= p.tallies.cur_conns
    &&& forall|id: JobId| #[trigger]
        p.jobs.contains_key(id) ==> job_ok(
            p.jobs[id],
            id,
            p.next,
            p.tubes,
            conns_view(p.conns),
        )
    &&& forall|t: TubeId| #[trigger]
        live(p.tubes, t) ==> tube_ok(at(p.tubes, t), t, p.jobs, conns_view(p.conns))
    &&& forall|c: ConnId| #[trigger]
        p.conns.contains_key(c) ==> conn_ok(p.conns[c], c, p.next, p.tubes, p.jobs)
    &&& pending_ok(conns_view(p.conns))
    &&& tallies_ok(p.tallies, p.jobs, conns_view(p.conns))
    &&& p.conn_ticks == ticks_of(p.conns)
    &&& p.delay_heads == heads_of(p.tubes)
    &&& p.pauses == pauses_of(p.tubes)
    &&& p.dispatchable == dispatchable_of(p.tubes)
}

/// Whether two engines have the same parts.
spec fn parts_alike(p: Parts, q: Parts) -> bool {
    &&& tubes_alike(p.tubes, q.tubes)
    &&& q.free == p.free
    &&& names_alike(p.names, q.names)
    &&& q.order == p.order
    &&& q.next == p.next
    &&& q.tot_conns == p.tot_conns
    &&& q.tallies == p.tallies
    &&& q.jobs == p.jobs
    &&& conns_alike(p.conns, q.conns)
    &&& q.conn_ticks == p.conn_ticks
    &&& q.delay_heads == p.delay_heads
    &&& q.pauses == p.pauses
    &&& q.dispatchable == p.dispatchable
}

/// Of two engines with the same parts, either both are consistent or neither.
proof fn lemma_parts_alike(p: Parts, q: Parts)
    requires
        parts_alike(p, q),
        consistent(p),
    ensures
        consistent(q),
{
    let ta = p.tubes;
    let tb = q.tubes;
    assert(conns_view(q.conns) =~= conns_view(p.conns)) by {
        assert forall|c: ConnId| p.conns.contains_key(c) implies conns_view(q.conns)[c]
            == conns_view(p.conns)[c] by {
            assert(conn_alike(p.conns[c], q.conns[c]));
        }
    }
    let cv = conns_view(p.conns);
    assert forall|t: TubeId| #[trigger] live(ta, t) == live(tb, t) by {
        if t < ta.len() {
            assert(ta[t as int] is Some <==> tb[t as int] is Some);
        }
    }
    assert forall|t: TubeId| #[trigger] live(tb, t) implies tube_alike(at(ta, t), at(tb, t)) by {
        assert(ta[t as int] is Some);
    }
    assert(order_ok(tb, q.order)) by {
        let o = q.order;
        assert forall|t: TubeId| #[trigger] live(tb, t) implies at(tb, t).pos < o.len()
            && o[at(tb, t).pos as int] == t by {
            assert(live(ta, t));
        }
        assert forall|i: int| 0 <= i < o.len() implies live(tb, #[trigger] o[i]) && at(
            tb,
            o[i],
        ).pos == i by {
            assert(live(ta, o[i]));
        }
    }
    assert(free_ok(tb, q.free)) by {
        let f = q.free;
        assert forall|t: TubeId| #[trigger] f.contains(t) implies t < tb.len() && !live(tb, t) by {
            assert(!live(ta, t));
        }
        assert forall|t: TubeId| t < tb.len() && !(#[trigger] live(tb, t)) implies f.contains(
            t,
        ) by {
            assert(!live(ta, t));
        }
    }
    assert(names_ok(tb, q.names)) by {
        let na = p.names;
        let nb = q.names;
        assert forall|t: TubeId| #[trigger] live(tb, t) implies exists|i: int|
            0 <= i < nb.len() && (#[trigger] nb[i]).1 == t by {
            assert(live(ta, t));
            let i = choose|i: int| 0 <= i < na.len() && (#[trigger] na[i]).1 == t;
            assert(nb[i].1 == t);
        }
        assert forall|i: int, j: int|
            #![trigger nb[i], nb[j]]
            0 <= i < j < nb.len() implies bytes_lt(nb[i].0@, nb[j].0@) by {
            assert(bytes_lt(na[i].0@, na[j].0@));
        }
        assert forall|i: int| 0 <= i < nb.len() implies live(tb, (#[trigger] nb[i]).1) && at(
            tb,
            nb[i].1,
        ).name@ == nb[i].0@ by {
            assert(live(ta, na[i].1));
            assert(at(ta, na[i].1)@ == at(tb, na[i].1)@);
        }
    }
    assert(default_ok(tb)) by {
        assert(live(tb, 0));
        assert(at(ta, 0)@ == at(tb, 0)@);
    }
    assert forall|t: TubeId| #[trigger] live(tb, t) implies tube_ok(at(tb, t), t, q.jobs, cv) by {
        assert(live(ta, t));
        assert(tube_ok(at(ta, t), t, p.jobs, cv));
        assert(at(ta, t)@ == at(tb, t)@);
        assert(at(tb, t).buried@ == at(ta, t).buried@);
        assert(at(tb, t).waiting_conns@ == at(ta, t).waiting_conns@);
    }
    assert forall|id: JobId| #[trigger] q.jobs.contains_key(id) implies job_ok(
        q.jobs[id],
        id,
        q.next,
        tb,
        cv,
    ) by {
        assert(job_ok(p.jobs[id], id, p.next, ta, cv));
    }
    assert forall|c: ConnId| #[trigger] q.conns.contains_key(c) implies conn_ok(
        q.conns[c],
        c,
        q.next,
        tb,
        q.jobs,
    ) by {
        assert(p.conns.dom().contains(c));
        let x = p.conns[c];
        let y = q.conns[c];
        assert(conn_alike(x, y));
        assert(conn_ok(x, c, p.next, ta, p.jobs));
        assert(x@ == y@);
        assert(y.watch@ == x.watch@ && y.reserved_fifo@ == x.reserved_fifo@);
        assert forall|i: int| 0 <= i < y.watch@.items.len() implies live(
            tb,
            #[trigger] y.watch@.items[i],
        ) by {
            assert(live(ta, x.watch@.items[i]));
        }
    }
    assert(ticks_of(q.conns) =~= ticks_of(p.conns)) by {
        assert forall|x: (Nanos, ConnId)| ticks_of(q.conns).contains(x) == ticks_of(
            p.conns,
        ).contains(x) by {
            assert(p.conns.dom().contains(x.1) == q.conns.dom().contains(x.1));
            if p.conns.contains_key(x.1) {
                assert(conn_alike(p.conns[x.1], q.conns[x.1]));
            }
        }
    }
    assert(heads_of(tb) =~= heads_of(ta));
    assert(pauses_of(tb) =~= pauses_of(ta)) by {
        assert forall|x: (Nanos, TubeId)| pauses_of(tb).contains(x) == pauses_of(ta).contains(
            x,
        ) by {
            if live(tb, x.1) {
                assert(at(ta, x.1)@ == at(tb, x.1)@);
            }
        }
    }
    assert(dispatchable_of(tb) =~= dispatchable_of(ta));
}

impl EngineState {
    /// What the state is, without any index.
    pub open spec fn model(&self) -> Model {
        Model {
            cfg: self.cfg,
            start: self.start,
            draining: self.draining,
            next_job_id: self.next_job_id,
            jobs: jobs_view(listed(by_id(self.jobs@))),
            tubes: tubes_view(self.tubes@),
            free: self.free_tube_ids@,
            order: self.tube_order@,
            conns: conns_view(listed(self.conns@)),
            total_jobs_ct: self.total_jobs_ct,
            timeout_ct: self.timeout_ct,
            tot_conns: self.tot_conns,
            ops: self.ops,
            journal: Seq::empty(),
            binlog: self.binlog,
        }
    }

    /// The parts of the state that must agree.
    pub open spec fn parts(&self) -> Parts {
        Parts {
            tubes: self.tubes@,
            free: self.free_tube_ids@,
            names: self.tube_ids@,
            order: self.tube_order@.items,
            next: self.next_job_id,
            tot_conns: self.tot_conns,
            tallies: self.tallies,
            jobs: jobs_view(listed(by_id(self.jobs@))),
            conns: listed(self.conns@),
            conn_ticks: self.conn_ticks@,
            delay_heads: self.delay_heads@,
            pauses: self.pauses@,
            dispatchable: self.dispatchable@,
        }
    }

    /// Whether an engine can be in this state between events: jobs and
    /// connections ascend, every index and every counter is what the jobs and
    /// the connections say, and what holds between events holds.
    pub open spec fn valid(&self) -> bool {
        &&& sorted(by_id(self.jobs@))
        &&& sorted(self.conns@)
        &&& consistent(self.parts())
        &&& settled(self.model())
    }
}

impl Engine {
    /// Whether `s` is this engine's state.
    pub closed spec fn exports(&self, s: EngineState) -> bool {
        &&& s.cfg == self.cfg
        &&& s.start == self.start
        &&& s.draining == self.draining
        &&& s.next_job_id == self.next_job_id
        &&& sorted(by_id(s.jobs@))
        &&& jobs_view(listed(by_id(s.jobs@))) == self.jv()
        &&& tubes_alike(self.tubes@, s.tubes@)
        &&& s.free_tube_ids@ == self.free_tube_ids@
        &&& names_alike(self.tube_ids@, s.tube_ids@)
        &&& s.tube_order@ == self.tube_order@
        &&& sorted(s.conns@)
        &&& conns_alike(self.conns@, listed(s.conns@))
        &&& s.conn_ticks@ == self.conn_ticks@
        &&& s.delay_heads@ == self.delay_heads@
        &&& s.pauses@ == self.pauses@
        &&& s.dispatchable@ == self.dispatchable@
        &&& s.tallies == self.tallies
        &&& s.total_jobs_ct == self.total_jobs_ct
        &&& s.timeout_ct == self.timeout_ct
        &&& s.tot_conns == self.tot_conns
        &&& s.ops == self.ops
        &&& s.binlog == self.binlog
    }

    /// What an engine's state is, without any index, is what the engine is,
    /// without the entries that the log has not been given yet.
    proof fn lemma_exported(&self, s: EngineState)
        requires
            self.exports(s),
        ensures
            s.model() == (Model { journal: Seq::<EntryView>::empty(), ..self@ }),
    {
        assert(tubes_view(s.tubes@) =~= tubes_view(self.tubes@)) by {
            assert forall|i: int| 0 <= i < s.tubes@.len() implies tubes_view(s.tubes@)[i]
                == tubes_view(self.tubes@)[i] by {
                assert(self.tubes@[i] is Some <==> s.tubes@[i] is Some);
            }
        }
        assert(conns_view(listed(s.conns@)) =~= conns_view(self.conns@)) by {
            assert forall|c: ConnId| self.conns@.contains_key(c) implies conns_view(
                listed(s.conns@),
            )[c] == conns_view(self.conns@)[c] by {
                assert(conn_alike(self.conns@[c], listed(s.conns@)[c]));
            }
        }
    }

    /// The parts of the engine that must agree.
    pub(super) open spec fn parts(&self) -> Parts {
        Parts {
            tubes: self.tubes@,
            free: self.free_tube_ids@,
            names: self.tube_ids@,
            order: self.tube_order@.items,
            next: self.next_job_id,
            tot_conns: self.tot_conns,
            tallies: self.tallies,
            jobs: self.jv(),
            conns: self.conns@,
            conn_ticks: self.conn_ticks@,
            delay_heads: self.delay_heads@,
            pauses: self.pauses@,
            dispatchable: self.dispatchable@,
        }
    }

    /// An engine is valid exactly if its state is.
    proof fn lemma_valid(&self, s: EngineState)
        requires
            self.exports(s),
        ensures
            self.valid() <==> s.valid(),
    {
        self.lemma_exported(s);
        let p = self.parts();
        let q = s.parts();
        assert(self.cv() == conns_view(p.conns));
        assert(self.wf() == consistent(p));
        assert(parts_alike(p, q));
        assert(parts_alike(q, p)) by {
            assert forall|i: int|
                #![trigger q.tubes[i]]
                #![trigger p.tubes[i]]
                0 <= i < q.tubes.len() implies (q.tubes[i] is Some <==> p.tubes[i] is Some) && (
            q.tubes[i] is Some ==> tube_alike(q.tubes[i]->0, p.tubes[i]->0)) by {}
            assert forall|c: ConnId|
                #![trigger q.conns[c]]
                #![trigger p.conns[c]]
                q.conns.contains_key(c) implies conn_alike(q.conns[c], p.conns[c]) by {
                assert(p.conns.dom().contains(c));
            }
        }
        if self.valid() {
            lemma_parts_alike(p, q);
            lemma_settled_without_journal(self@, s.model());
        }
        if s.valid() {
            lemma_parts_alike(q, p);
            lemma_settled_without_journal(s.model(), self@);
        }
    }
}

/// What holds between events does not depend on what the log has been given.
proof fn lemma_settled_without_journal(a: Model, b: Model)
    requires
        settled(a),
        (Model { journal: Seq::<EntryView>::empty(), ..a }) == (Model {
            journal: Seq::<EntryView>::empty(),
            ..b
        }),
    ensures
        settled(b),
{
    let x = Model { journal: Seq::<EntryView>::empty(), ..a };
    assert(x.jobs == a.jobs && x.jobs == b.jobs);
    assert(x.conns == a.conns && x.conns == b.conns);
    assert(x.tubes == a.tubes && x.tubes == b.tubes);
    assert forall|id: JobId| !b.awaited(id) by {
        assert(!a.awaited(id));
    }
    assert forall|u: TubeId| #[trigger] b.live(u) && u != 0 implies b.referenced(u) by {
        assert(a.live(u));
    }
    assert forall|c: ConnId| #[trigger] b.conns.contains_key(c) implies b.conns[c].watch.items.len()
        > 0 by {
        assert(a.conns.contains_key(c));
    }
}

/// A copy of a slab.
fn copy_tubes(v: &Vec<Option<TubeState>>) -> (r: Vec<Option<TubeState>>)
    ensures
        tubes_alike(v@, r@),
{
    let n: usize = v.len();
    let mut r: Vec<Option<TubeState>> = Vec::new();
    let mut i: usize = 0;
    while i < n
        invariant
            i <= n,
            n == v@.len(),
            r@.len() == i,
            forall|k: int|
                0 <= k < i ==> ((#[trigger] r@[k]) is Some <==> v@[k] is Some) && (r@[k] is Some
                    ==> tube_alike(v@[k]->0, r@[k]->0)),
        decreases n - i,
    {
        match &v[i] {
            Some(t) => {
                r.push(Some(t.clone()));
            },
            None => {
                r.push(None);
            },
        }
        i = i + 1;
    }
    assert forall|k: int|
        #![trigger v@[k]]
        #![trigger r@[k]]
        0 <= k < n implies (v@[k] is Some <==> r@[k] is Some) && (v@[k] is Some ==> tube_alike(
        v@[k]->0,
        r@[k]->0,
    )) by {
        assert(r@[k] is Some <==> v@[k] is Some);
    }
    r
}

/// A copy of an index of names.
fn copy_names(v: &Vec<(TubeName, TubeId)>) -> (r: Vec<(TubeName, TubeId)>)
    ensures
        names_alike(v@, r@),
{
    let n: usize = v.len();
    let mut r: Vec<(TubeName, TubeId)> = Vec::new();
    let mut i: usize = 0;
    while i < n
        invariant
            i <= n,
            n == v@.len(),
            r@.len() == i,
            forall|k: int|
                #![trigger v@[k]]
                #![trigger r@[k]]
                0 <= k < i ==> v@[k].0@ == r@[k].0@ && v@[k].1 == r@[k].1,
        decreases n - i,
    {
        r.push((v[i].0.clone(), v[i].1));
        i = i + 1;
    }
    r
}

impl Engine {
    /// The jobs, ascending by id.
    fn jobs_sorted(&self) -> (r: Vec<JobRec>)
        requires
            self.wf(),
        ensures
            sorted(by_id(r@)),
            jobs_view(listed(by_id(r@))) == self.jv(),
    {
        broadcast use {crate::ordset::group_ordered, vstd::std_specs::btree::group_btree_axioms};

        let keys: Vec<JobId> = keys_of(&self.jobs);
        let n: usize = keys.len();
        let mut r: Vec<JobRec> = Vec::new();
        let mut i: usize = 0;
        while i < n
            invariant
                i <= n,
                n == keys@.len(),
                keys@.to_set() == self.jobs@.dom(),
                self.wf(),
                r@.len() == i,
                forall|k: int|
                    0 <= k < i ==> (#[trigger] r@[k]).id == keys@[k] && r@[k]@ == self.jv()[keys@[k]],
            decreases n - i,
        {
            let id: JobId = keys[i];
            assert(keys@.to_set().contains(keys@[i as int]));
            assert(self.jv().contains_key(id));
            match self.jobs.get(&id) {
                Some(j) => {
                    r.push(j.clone());
                },
                None => {
                    assert(false);
                },
            }
            i = i + 1;
        }
        proof {
            let v = by_id(r@);
            assert forall|a: int, b: int| #![trigger v[a], v[b]] 0 <= a < b < v.len() implies v[a].0
                < v[b].0 by {
                assert(r@[a].id == keys@[a] && r@[b].id == keys@[b]);
            }
            lemma_listed(v);
            let m = jobs_view(listed(v));
            assert forall|id: JobId| m.contains_key(id) == self.jv().contains_key(id) by {
                if m.contains_key(id) {
                    let k = choose|k: int| 0 <= k < v.len() && (#[trigger] v[k]).0 == id;
                    assert(r@[k].id == keys@[k]);
                    assert(keys@.to_set().contains(keys@[k]));
                }
                if self.jv().contains_key(id) {
                    assert(keys@.to_set().contains(id));
                    let k = keys@.index_of(id);
                    assert(keys@[k] == id && r@[k].id == id);
                    assert(v[k].0 == id);
                }
            }
            assert forall|id: JobId| m.contains_key(id) implies m[id] == self.jv()[id] by {
                let k = choose|k: int| 0 <= k < v.len() && (#[trigger] v[k]).0 == id;
                assert(r@[k].id == keys@[k]);
                assert(listed(v)[id] == r@[k]);
            }
            assert(m =~= self.jv());
        }
        r
    }

    /// The connections, ascending by id.
    fn conns_sorted(&self) -> (r: Vec<(ConnId, ConnState)>)
        ensures
            sorted(r@),
            conns_alike(self.conns@, listed(r@)),
    {
        broadcast use {crate::ordset::group_ordered, vstd::std_specs::btree::group_btree_axioms};

        let keys: Vec<ConnId> = keys_of(&self.conns);
        let n: usize = keys.len();
        let mut r: Vec<(ConnId, ConnState)> = Vec::new();
        let mut i: usize = 0;
        while i < n
            invariant
                i <= n,
                n == keys@.len(),
                keys@.to_set() == self.conns@.dom(),
                r@.len() == i,
                forall|k: int|
                    0 <= k < i ==> (#[trigger] r@[k]).0 == keys@[k] && conn_alike(
                        self.conns@[keys@[k]],
                        r@[k].1,
                    ),
            decreases n - i,
        {
            let c: ConnId = keys[i];
            assert(keys@.to_set().contains(keys@[i as int]));
            assert(self.conns@.contains_key(c));
            match self.conns.get(&c) {
                Some(x) => {
                    r.push((c, x.clone()));
                },
                None => {
                    assert(false);
                },
            }
            i = i + 1;
        }
        proof {
            let v = r@;
            assert forall|a: int, b: int| #![trigger v[a], v[b]] 0 <= a < b < v.len() implies v[a].0
                < v[b].0 by {
                assert(v[a].0 == keys@[a] && v[b].0 == keys@[b]);
            }
            lemma_listed(v);
            assert forall|c: ConnId| listed(v).contains_key(c) == self.conns@.contains_key(c) by {
                if listed(v).contains_key(c) {
                    let k = choose|k: int| 0 <= k < v.len() && (#[trigger] v[k]).0 == c;
                    assert(keys@.to_set().contains(keys@[k]));
                }
                if self.conns@.contains_key(c) {
                    assert(keys@.to_set().contains(c));
                    let k = keys@.index_of(c);
                    assert(keys@[k] == c && v[k].0 == c);
                }
            }
            assert(listed(v).dom() =~= self.conns@.dom());
            assert forall|c: ConnId| self.conns@.contains_key(c) implies conn_alike(
                #[trigger] self.conns@[c],
                listed(v)[c],
            ) by {
                assert(listed(v).contains_key(c));
                let k = choose|k: int| 0 <= k < v.len() && (#[trigger] v[k]).0 == c;
                assert(listed(v)[c] == v[k].1);
            }
        }
        r
    }

    /// The whole state, for a snapshot: everything but what the system tells
    /// and the entries that the log has not been given yet.
    pub fn export_state(&self) -> (r: EngineState)
        requires
            self.wf(),
        ensures
            self.exports(r),
            r.model() == (Model { journal: Seq::<EntryView>::empty(), ..self@ }),
            consistent(r.parts()),
            sorted(by_id(r.jobs@)),
            sorted(r.conns@),
            names_ascend(r.tube_ids@),
            self.valid() ==> r.valid(),
    {
        broadcast use crate::ordset::group_ordered;

        let r = EngineState {
            cfg: self.cfg,
            start: self.start,
            draining: self.draining,
            next_job_id: self.next_job_id,
            jobs: self.jobs_sorted(),
            tubes: copy_tubes(&self.tubes),
            free_tube_ids: self.free_tube_ids.clone(),
            tube_ids: copy_names(&self.tube_ids),
            tube_order: self.tube_order.clone(),
            conns: self.conns_sorted(),
            conn_ticks: self.conn_ticks.clone(),
            delay_heads: self.delay_heads.clone(),
            pauses: self.pauses.clone(),
            dispatchable: self.dispatchable.clone(),
            tallies: self.tallies,
            total_jobs_ct: self.total_jobs_ct,
            timeout_ct: self.timeout_ct,
            tot_conns: self.tot_conns,
            ops: self.ops,
            binlog: self.binlog,
        };
        proof {
            assert(r.free_tube_ids@ =~= self.free_tube_ids@);
            assert(r.tube_order@.items =~= self.tube_order@.items);
            assert(self.exports(r));
            self.lemma_exported(r);
            self.lemma_valid(r);
            assert(self.wf() == consistent(self.parts()));
            assert(parts_alike(self.parts(), r.parts()));
            lemma_parts_alike(self.parts(), r.parts());
        }
        r
    }

    /// Makes an engine of a state that comes from disk or from a peer, and so
    /// may be damaged: it is taken over exactly when an engine can be in it and
    /// its slab is no larger than `MAX_TUBE_SLOTS`. The journal starts empty. Of a
    /// state that is not taken over, the error tells what is wrong with it: of
    /// several faults the one that is looked for first. Lists out of order come
    /// first; `Fault::part` and `Fault::place` give the order of the rest.
    pub fn import_state(state: EngineState, sys: Box<dyn SysInfo>) -> (r: Result<
        Engine,
        StateError,
    >)
        ensures
            match r {
                Ok(e) => state.valid() && state.tubes@.len() <= MAX_TUBE_SLOTS && e.valid()
                    && e.exports(state) && e@ == state.model()
                    && e.host() == (|s: SysSnapshot| sys.says(s)),
                Err(_) => !state.valid() || state.tubes@.len() > MAX_TUBE_SLOTS,
            },
            state.tubes@.len() > MAX_TUBE_SLOTS ==> r is Err && (r->Err_0).0@
                == "tube slab too large"@,
            r is Err && state.tubes@.len() <= MAX_TUBE_SLOTS ==> exists|f: Fault| #[trigger]
                f.found_in(state) && (r->Err_0).0@ == f.says(),
    {
        let held = Held { it: sys };
        Engine::take_over(state, held, MAX_TUBE_SLOTS)
    }

    /// As `import_state`, with `max_slots` as the limit for the slab.
    pub fn import_state_within(state: EngineState, sys: Box<dyn SysInfo>, max_slots: usize) -> (r:
        Result<Engine, StateError>)
        ensures
            match r {
                Ok(e) => state.valid() && state.tubes@.len() <= max_slots && e.valid()
                    && e.exports(state) && e@ == state.model()
                    && e.host() == (|s: SysSnapshot| sys.says(s)),
                Err(_) => !state.valid() || state.tubes@.len() > max_slots,
            },
            state.tubes@.len() > max_slots ==> r is Err && (r->Err_0).0@
                == "tube slab too large"@,
            r is Err && state.tubes@.len() <= max_slots ==> exists|f: Fault| #[trigger]
                f.found_in(state) && (r->Err_0).0@ == f.says(),
    {
        let held = Held { it: sys };
        Engine::take_over(state, held, max_slots)
    }

    /// As `import_state_within`, with the host already in hand.
    #[verifier::rlimit(40)]
    fn take_over(state: EngineState, sys: Held<Box<dyn SysInfo>>, max_slots: usize) -> (r: Result<
        Engine,
        StateError,
    >)
        ensures
            match r {
                Ok(e) => state.valid() && state.tubes@.len() <= max_slots && e.valid()
                    && e.exports(state) && e@ == state.model() && e.sys == sys,
                Err(_) => !state.valid() || state.tubes@.len() > max_slots,
            },
            state.tubes@.len() > max_slots ==> r is Err && (r->Err_0).0@
                == "tube slab too large"@,
            r is Err && state.tubes@.len() <= max_slots ==> exists|f: Fault| #[trigger]
                f.found_in(state) && (r->Err_0).0@ == f.says(),
    {
        broadcast use {crate::ordset::group_ordered, vstd::std_specs::btree::group_btree_axioms};

        let ghost s = state;
        if state.tubes.len() > max_slots {
            return Err(StateError::new("tube slab too large"));
        }
        match disorder(&state) {
            Some(f) => {
                return Err(StateError(f.text()));
            },
            None => {},
        }
        let jobs = jobs_by_id(state.jobs);
        let conns = conns_by_id(state.conns);
        let e = Engine {
            cfg: state.cfg,
            sys,
            start: state.start,
            draining: state.draining,
            next_job_id: state.next_job_id,
            jobs,
            tubes: state.tubes,
            free_tube_ids: state.free_tube_ids,
            tube_ids: state.tube_ids,
            tube_order: state.tube_order,
            conns,
            conn_ticks: state.conn_ticks,
            delay_heads: state.delay_heads,
            pauses: state.pauses,
            dispatchable: state.dispatchable,
            tallies: state.tallies,
            total_jobs_ct: state.total_jobs_ct,
            timeout_ct: state.timeout_ct,
            tot_conns: state.tot_conns,
            ops: state.ops,
            journal: Vec::new(),
            binlog: state.binlog,
        };
        proof {
            assert(e.exports(s));
            e.lemma_exported(s);
            assert(e@.journal =~= Seq::<EntryView>::empty());
            e.lemma_valid(s);
        }
        assert(e.parts() == s.parts());
        match e.validate() {
            Ok(()) => Ok(e),
            Err(f) => {
                proof {
                    f.lemma_found(s);
                }
                Err(StateError(f.text()))
            },
        }
    }
}

/// What is wrong with the order of a state's lists, if anything is.
fn disorder(state: &EngineState) -> (r: Option<Fault>)
    ensures
        r is None <==> sorted(by_id(state.jobs@)) && names_ascend(state.tube_ids@) && sorted(
            state.conns@,
        ),
        r is Some ==> (r->0).found_in(*state),
{
    match job_out_of_order(&state.jobs) {
        Some(id) => {
            return Some(Fault::JobsOrder { id });
        },
        None => {},
    }
    match name_out_of_order(&state.tube_ids) {
        Some(name) => {
            return Some(Fault::NamesOrder { name });
        },
        None => {},
    }
    match conn_out_of_order(&state.conns) {
        Some(conn) => {
            return Some(Fault::ConnsOrder { conn });
        },
        None => {},
    }
    None
}

/// The first job whose id is not above the one before it.
fn job_out_of_order(list: &Vec<JobRec>) -> (r: Option<JobId>)
    ensures
        r is None <==> sorted(by_id(list@)),
        r is Some ==> exists|i: int|
            0 < i < list@.len() && (#[trigger] list@[i]).id == r->0 && r->0 <= list@[i - 1].id
                && sorted(by_id(list@).take(i)),
{
    let ghost all = by_id(list@);
    let n: usize = list.len();
    let mut i: usize = 1;
    while i < n
        invariant
            1 <= i,
            n == list@.len(),
            all == by_id(list@),
            forall|a: int, b: int|
                #![trigger all[a], all[b]]
                0 <= a < b < i && b < n ==> all[a].0 < all[b].0,
        decreases n - i,
    {
        assert(all[i as int].0 == list@[i as int].id && all[i - 1].0 == list@[i - 1].id);
        if list[i].id <= list[i - 1].id {
            assert(sorted(all.take(i as int)));
            return Some(list[i].id);
        }
        assert forall|a: int, b: int|
            #![trigger all[a], all[b]]
            0 <= a < b < i + 1 && b < n implies all[a].0 < all[b].0 by {
            if b == i && a < i - 1 {
                assert(all[a].0 < all[i - 1].0);
            }
        }
        i = i + 1;
    }
    None
}

/// The first connection whose id is not above the one before it.
fn conn_out_of_order(list: &Vec<(ConnId, ConnState)>) -> (r: Option<ConnId>)
    ensures
        r is None <==> sorted(list@),
        r is Some ==> exists|i: int|
            0 < i < list@.len() && (#[trigger] list@[i]).0 == r->0 && r->0 <= list@[i - 1].0
                && sorted(list@.take(i)),
{
    let ghost all = list@;
    let n: usize = list.len();
    let mut i: usize = 1;
    while i < n
        invariant
            1 <= i,
            n == list@.len(),
            all == list@,
            forall|a: int, b: int|
                #![trigger all[a], all[b]]
                0 <= a < b < i && b < n ==> all[a].0 < all[b].0,
        decreases n - i,
    {
        assert(all[i as int].0 == list@[i as int].0 && all[i - 1].0 == list@[i - 1].0);
        if list[i].0 <= list[i - 1].0 {
            assert(sorted(all.take(i as int)));
            return Some(list[i].0);
        }
        assert forall|a: int, b: int|
            #![trigger all[a], all[b]]
            0 <= a < b < i + 1 && b < n implies all[a].0 < all[b].0 by {
            if b == i && a < i - 1 {
                assert(all[a].0 < all[i - 1].0);
            }
        }
        i = i + 1;
    }
    None
}

/// The first name that is not above the one before it.
fn name_out_of_order(list: &Vec<(TubeName, TubeId)>) -> (r: Option<TubeName>)
    ensures
        r is None <==> names_ascend(list@),
        r is Some ==> exists|i: int|
            0 < i < list@.len() && (#[trigger] list@[i]).0@ == (r->0)@ && !bytes_lt(
                list@[i - 1].0@,
                (r->0)@,
            ) && names_ascend(list@.take(i)),
{
    let ghost all = list@;
    let n: usize = list.len();
    let mut i: usize = 1;
    while i < n
        invariant
            1 <= i,
            n == list@.len(),
            all == list@,
            forall|a: int, b: int|
                #![trigger all[a], all[b]]
                0 <= a < b < i && b < n ==> bytes_lt(all[a].0@, all[b].0@),
        decreases n - i,
    {
        if !less(list[i - 1].0.as_str().as_bytes(), list[i].0.as_str().as_bytes()) {
            assert(!bytes_lt(all[i - 1].0@, all[i as int].0@));
            assert(names_ascend(all.take(i as int)));
            return Some(list[i].0.clone());
        }
        assert forall|a: int, b: int|
            #![trigger all[a], all[b]]
            0 <= a < b < i + 1 && b < n implies bytes_lt(all[a].0@, all[b].0@) by {
            if b == i && a < i - 1 {
                bytes_lt_is_a_strict_order(all[a].0@, all[i - 1].0@, all[b].0@);
                assert(bytes_lt(all[a].0@, all[i - 1].0@));
            }
        }
        i = i + 1;
    }
    None
}

/// The jobs by their ids, which ascend.
fn jobs_by_id(list: Vec<JobRec>) -> (r: BTreeMap<JobId, JobRec>)
    requires
        sorted(by_id(list@)),
    ensures
        r@ == listed(by_id(list@)),
{
    broadcast use {crate::ordset::group_ordered, vstd::std_specs::btree::group_btree_axioms};

    let ghost all = by_id(list@);
    let mut rest: Vec<JobRec> = list;
    let mut jobs: BTreeMap<JobId, JobRec> = BTreeMap::new();
    while rest.len() > 0
        invariant
            all == by_id(list@),
            by_id(rest@) == all.take(rest@.len() as int),
            rest@.len() <= all.len(),
            sorted(all.skip(rest@.len() as int)),
            jobs@ == listed(all.skip(rest@.len() as int)),
            sorted(all),
        decreases rest@.len(),
    {
        let ghost k = rest@.len() - 1;
        let ghost before = rest@;
        match rest.pop() {
            Some(j) => {
                proof {
                    assert(by_id(before)[k] == all[k]);
                    assert(all[k] == (j.id, j));
                    assert(by_id(rest@) =~= all.take(k));
                }
                proof {
                    lemma_one_more(all, k);
                }
                let _ = jobs.insert(j.id, j);
            },
            None => {},
        }
    }
    assert(all.skip(0) =~= all);
    jobs
}

/// The connections by their ids, which ascend.
fn conns_by_id(list: Vec<(ConnId, ConnState)>) -> (r: BTreeMap<ConnId, ConnState>)
    requires
        sorted(list@),
    ensures
        r@ == listed(list@),
{
    broadcast use {crate::ordset::group_ordered, vstd::std_specs::btree::group_btree_axioms};

    let ghost all = list@;
    let mut rest: Vec<(ConnId, ConnState)> = list;
    let mut conns: BTreeMap<ConnId, ConnState> = BTreeMap::new();
    while rest.len() > 0
        invariant
            all == list@,
            rest@ == all.take(rest@.len() as int),
            rest@.len() <= all.len(),
            sorted(all.skip(rest@.len() as int)),
            conns@ == listed(all.skip(rest@.len() as int)),
            sorted(all),
        decreases rest@.len(),
    {
        let ghost k = rest@.len() - 1;
        match rest.pop() {
            Some((c, x)) => {
                proof {
                    assert(all[k] == (c, x));
                    assert(rest@ =~= all.take(k));
                }
                proof {
                    lemma_one_more(all, k);
                }
                let _ = conns.insert(c, x);
            },
            None => {},
        }
    }
    assert(all.skip(0) =~= all);
    conns
}

/// Putting one more item in front of a list whose keys ascend.
proof fn lemma_one_more<T>(v: Seq<(u64, T)>, k: int)
    requires
        0 <= k < v.len(),
        sorted(v.skip(k + 1)),
        k + 1 < v.len() ==> v[k].0 < v[k + 1].0,
    ensures
        sorted(v.skip(k)),
        listed(v.skip(k)) == listed(v.skip(k + 1)).insert(v[k].0, v[k].1),
{
    let a = v.skip(k);
    let b = v.skip(k + 1);
    assert(a.drop_first() =~= b);
    assert forall|i: int, j: int| #![trigger a[i], a[j]] 0 <= i < j < a.len() implies a[i].0
        < a[j].0 by {
        assert(a[j] == b[j - 1]);
        if i > 0 {
            assert(a[i] == b[i - 1]);
        } else {
            assert(b[0] == v[k + 1]);
            assert(b[0].0 <= b[j - 1].0);
        }
    }
}

} // verus!
