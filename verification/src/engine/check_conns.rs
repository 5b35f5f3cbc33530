//! Checking that the connections in data from outside are consistent.

use super::check::looked_at;
use super::faults::{held_jobs, pending, sooner, ConnFault, Fault, HeldFault};
use super::jobs::conn_tickat;
use super::Engine;
use crate::api::{ConnId, Nanos};
use crate::inv::{live, pending_ok, tick_ok};
use crate::model::{ConnState, JobState, JobView, TubeId, TubeState};
use crate::ordset::{items, keys_of, lemma_pairs_ascend};
use crate::proto::JobId;
use crate::rules::{count_jobs, JobSel};
use std::collections::BTreeSet;
use vstd::prelude::*;

verus! {

/// Whether job `id` is reserved by connection `c`.
pub(super) open spec fn reserved_for(jobs: Map<JobId, JobView>, id: JobId, c: ConnId) -> bool {
    jobs.contains_key(id) && jobs[id].state == JobState::Reserved && jobs[id].reserver == Some(c)
}

/// Whether the jobs that connection `c` lists are its own, each listed once
/// and with its deadline.
pub(super) open spec fn lists_own(x: ConnState, c: ConnId, jobs: Map<JobId, JobView>) -> bool {
    &&& x.reserved_fifo@.no_duplicates()
    &&& forall|i: int|
        0 <= i < x.reserved_fifo@.len() ==> reserved_for(jobs, #[trigger] x.reserved_fifo@[i], c)
    &&& forall|i: int|
        0 <= i < x.reserved_fifo@.len() ==> x.reserved_by_deadline@.contains(
            (jobs[#[trigger] x.reserved_fifo@[i]].deadline_at, x.reserved_fifo@[i]),
        )
    &&& forall|p: (Nanos, JobId)| #[trigger]
        x.reserved_by_deadline@.contains(p) ==> x.reserved_fifo@.contains(p.1) && reserved_for(
            jobs,
            p.1,
            c,
        ) && jobs[p.1].deadline_at == p.0
}

/// Whether the connection watches some tubes, each once.
pub(super) open spec fn watches_some(x: ConnState, tubes: Seq<Option<TubeState>>) -> bool {
    &&& x.watch@.items.len() > 0
    &&& x.watch@.items.no_duplicates()
    &&& forall|i: int|
        0 <= i < x.watch@.items.len() ==> live(tubes, #[trigger] x.watch@.items[i])
}

/// Whether the id given to the connection's put can still be used.
pub(super) open spec fn pending_free(x: ConnState, next: JobId, jobs: Map<JobId, JobView>) -> bool {
    x.pending_put is Some && x.pending_put->0.id is Some ==> x.pending_put->0.id->0 < next
        && !jobs.contains_key(x.pending_put->0.id->0)
}

/// What holds of connection `c` by itself, whose data is `x`.
pub(super) open spec fn conn_sound(
    x: ConnState,
    c: ConnId,
    next: JobId,
    tubes: Seq<Option<TubeState>>,
    jobs: Map<JobId, JobView>,
) -> bool {
    &&& live(tubes, x.use_tube)
    &&& watches_some(x, tubes)
    &&& !x.waiting ==> x.wait_deadline is None
    &&& lists_own(x, c, jobs)
    &&& pending_free(x, next, jobs)
    &&& tick_ok(x)
}

impl Engine {
    /// Checks that connection `c` watches some tubes, each once.
    fn check_watch(&self, x: &ConnState, c: ConnId) -> (r: Result<(), ConnFault>)
        requires
            self.conns@.contains_key(c),
            self.conns@[c] == *x,
            ConnFault::clear_below(self.parts(), c, 1),
        ensures
            r is Ok ==> watches_some(*x, self.tubes@),
            r is Ok ==> ConnFault::clear_below(self.parts(), c, 3),
            r is Err ==> (r->Err_0).first_in(self.parts(), c),
    {
        broadcast use {crate::ordset::group_ordered, vstd::std_specs::btree::group_btree_axioms};

        if x.watch.items.len() == 0 {
            return Err(ConnFault::WatchesNone);
        }
        let n: usize = x.watch.items.len();
        let ghost w = x.watch@.items;
        let mut seen: BTreeSet<TubeId> = BTreeSet::new();
        let mut i: usize = 0;
        while i < n
            invariant
                i <= n,
                0 < n,
                w == x.watch@.items,
                n == w.len(),
                self.conns@.contains_key(c),
                self.conns@[c] == *x,
                ConnFault::clear_below(self.parts(), c, 1),
                forall|k: int| 0 <= k < i ==> live(self.tubes@, #[trigger] w[k]),
                looked_at(seen@, w, i as int),
            decreases n - i,
        {
            let t: TubeId = x.watch.items[i];
            assert(w[i as int] == t);
            if t >= self.tubes.len() || self.tubes[t].is_none() {
                return Err(ConnFault::WatchesMissing { index: i, tube: t });
            }
            if !seen.insert(t) {
                return Err(ConnFault::WatchesTwice { index: i, tube: t });
            }
            i = i + 1;
        }
        Ok(())
    }

    /// Where a connection lists its own jobs, each with its deadline, the list
    /// and the index of deadlines have one size.
    pub(super) proof fn lemma_one_size(&self, x: ConnState, c: ConnId)
        requires
            lists_own(x, c, self.jv()),
        ensures
            x.reserved_fifo@.len() == x.reserved_by_deadline@.len(),
    {
        let f = |id: JobId| (self.jv()[id].deadline_at, id);
        let own = x.reserved_fifo@.to_set();
        x.reserved_fifo@.unique_seq_to_set();
        assert(own.map(f) =~= x.reserved_by_deadline@) by {
            assert forall|p: (Nanos, JobId)| own.map(f).contains(p) implies
                x.reserved_by_deadline@.contains(p) by {
                let id = choose|id: JobId| own.contains(id) && p == f(id);
                assert(x.reserved_fifo@[x.reserved_fifo@.index_of(id)] == id);
            }
            assert forall|p: (Nanos, JobId)| x.reserved_by_deadline@.contains(p) implies own.map(
                f,
            ).contains(p) by {
                assert(own.contains(p.1));
                assert(f(p.1) == p);
            }
        }
        vstd::set_lib::lemma_map_size(own, x.reserved_by_deadline@, f);
    }

    /// Where the list and the index of deadlines have one size and the index
    /// has only jobs of the list, each with its deadline, it has them all.
    proof fn lemma_all_there(&self, x: ConnState)
        requires
            x.reserved_fifo@.no_duplicates(),
            x.reserved_by_deadline@.finite(),
            x.reserved_fifo@.len() == x.reserved_by_deadline@.len(),
            forall|p: (Nanos, JobId)| #[trigger]
                x.reserved_by_deadline@.contains(p) ==> x.reserved_fifo@.contains(p.1)
                    && self.jv()[p.1].deadline_at == p.0,
        ensures
            forall|i: int|
                0 <= i < x.reserved_fifo@.len() ==> x.reserved_by_deadline@.contains(
                    (self.jv()[#[trigger] x.reserved_fifo@[i]].deadline_at, x.reserved_fifo@[i]),
                ),
    {
        let f = |id: JobId| (self.jv()[id].deadline_at, id);
        let own = x.reserved_fifo@.to_set();
        x.reserved_fifo@.unique_seq_to_set();
        vstd::set_lib::lemma_map_size(own, own.map(f), f);
        assert(x.reserved_by_deadline@.subset_of(own.map(f))) by {
            assert forall|p: (Nanos, JobId)| x.reserved_by_deadline@.contains(p) implies own.map(
                f,
            ).contains(p) by {
                assert(own.contains(p.1));
                assert(f(p.1) == p);
            }
        }
        vstd::set_lib::lemma_subset_equality(x.reserved_by_deadline@, own.map(f));
        assert forall|i: int| 0 <= i < x.reserved_fifo@.len() implies
            x.reserved_by_deadline@.contains(
            (self.jv()[#[trigger] x.reserved_fifo@[i]].deadline_at, x.reserved_fifo@[i]),
        ) by {
            let id = x.reserved_fifo@[i];
            assert(own.contains(id));
            assert(own.map(f).contains(f(id)));
        }
    }

    /// Checks that the jobs that connection `c` lists are its own, each listed
    /// once.
    fn check_fifo(&self, x: &ConnState, c: ConnId) -> (r: Result<BTreeSet<JobId>, ConnFault>)
        requires
            self.conns@.contains_key(c),
            self.conns@[c] == *x,
            ConnFault::clear_below(self.parts(), c, 8),
        ensures
            r matches Ok(own) ==> own@ == x.reserved_fifo@.to_set()
                && x.reserved_fifo@.no_duplicates() && forall|k: int|
                0 <= k < x.reserved_fifo@.len() ==> reserved_for(
                    self.jv(),
                    #[trigger] x.reserved_fifo@[k],
                    c,
                ),
            r is Ok ==> ConnFault::clear_below(self.parts(), c, 9),
            r is Err ==> (r->Err_0).first_in(self.parts(), c),
    {
        broadcast use {crate::ordset::group_ordered, vstd::std_specs::btree::group_btree_axioms};

        let n: usize = x.reserved_fifo.len();
        let ghost f = x.reserved_fifo@;
        let mut own: BTreeSet<JobId> = BTreeSet::new();
        let mut i: usize = 0;
        while i < n
            invariant
                i <= n,
                n == f.len(),
                f == x.reserved_fifo@,
                self.conns@.contains_key(c),
                self.conns@[c] == *x,
                ConnFault::clear_below(self.parts(), c, 8),
                forall|k: int| 0 <= k < i ==> reserved_for(self.jv(), #[trigger] f[k], c),
                looked_at(own@, f, i as int),
            decreases n - i,
        {
            let id: JobId = x.reserved_fifo[i];
            assert(f[i as int] == id);
            if !own.insert(id) {
                return Err(ConnFault::ReservesTwice { index: i, id });
            }
            match self.jobs.get(&id) {
                Some(j) => {
                    let held = match j.reserver {
                        Some(k) => k == c,
                        None => false,
                    };
                    if j.state != JobState::Reserved || !held {
                        return Err(ConnFault::NotReserved { index: i, id });
                    }
                },
                None => {
                    return Err(ConnFault::ReservesMissing { index: i, id });
                },
            }
            i = i + 1;
        }
        assert(own@ =~= f.to_set()) by {
            assert forall|id: JobId| f.to_set().contains(id) implies own@.contains(id) by {
                assert(f[f.index_of(id)] == id);
            }
        }
        Ok(own)
    }

    /// Checks that the jobs that connection `c` lists are its own, each listed
    /// once and with its deadline.
    fn check_reserved(&self, x: &ConnState, c: ConnId) -> (r: Result<(), ConnFault>)
        requires
            self.conns@.contains_key(c),
            self.conns@[c] == *x,
            ConnFault::clear_below(self.parts(), c, 7),
        ensures
            r is Ok ==> lists_own(*x, c, self.jv()),
            r is Ok ==> ConnFault::clear_below(self.parts(), c, 10),
            r is Err ==> (r->Err_0).first_in(self.parts(), c),
    {
        broadcast use {crate::ordset::group_ordered, vstd::std_specs::btree::group_btree_axioms};

        proof {
            crate::ordset::lemma_finite(&x.reserved_by_deadline);
        }
        if x.reserved_fifo.len() != x.reserved_by_deadline.len() {
            return Err(ConnFault::ListsDiffer);
        }
        let own = match self.check_fifo(x, c) {
            Ok(own) => own,
            Err(f) => {
                return Err(f);
            },
        };
        let listed: Vec<(Nanos, JobId)> = items(&x.reserved_by_deadline);
        proof {
            lemma_pairs_ascend(listed@);
        }
        let m: usize = listed.len();
        let mut k: usize = 0;
        while k < m
            invariant
                k <= m,
                m == listed@.len(),
                listed@.to_set() == x.reserved_by_deadline@,
                forall|i: int, j: int|
                    #![trigger listed@[i], listed@[j]]
                    0 <= i < j < listed@.len() ==> listed@[i].0 < listed@[j].0 || (listed@[i].0
                        == listed@[j].0 && listed@[i].1 < listed@[j].1),
                self.conns@.contains_key(c),
                self.conns@[c] == *x,
                ConnFault::clear_below(self.parts(), c, 9),
                own@ == x.reserved_fifo@.to_set(),
                forall|a: int|
                    0 <= a < k ==> x.reserved_fifo@.contains((#[trigger] listed@[a]).1)
                        && self.jv().contains_key(listed@[a].1)
                        && self.jv()[listed@[a].1].deadline_at == listed@[a].0,
            decreases m - k,
        {
            let p: (Nanos, JobId) = listed[k];
            assert(listed@.to_set().contains(listed@[k as int]));
            assert(x.reserved_by_deadline@.contains((p.0, p.1)));
            proof {
                assert forall|g: ConnFault| #[trigger] g.upsets(self.parts(), c) implies !sooner(
                    g.place(),
                    (9, p.0 as int, p.1 as int, 0),
                ) by {
                    match g {
                        ConnFault::DeadlineOnly { due, id } => {
                            assert(listed@.to_set().contains((due, id)));
                            assert(listed@[listed@.index_of((due, id))] == (due, id));
                        },
                        ConnFault::DeadlineStale { due, id } => {
                            assert(listed@.to_set().contains((due, id)));
                            assert(listed@[listed@.index_of((due, id))] == (due, id));
                        },
                        _ => {},
                    }
                }
            }
            if !own.contains(&p.1) {
                return Err(ConnFault::DeadlineOnly { due: p.0, id: p.1 });
            }
            let same = match self.jobs.get(&p.1) {
                Some(j) => j.deadline_at == p.0,
                None => false,
            };
            if !same {
                let f = ConnFault::DeadlineStale { due: p.0, id: p.1 };
                proof {
                    assert forall|g: ConnFault| #[trigger]
                        g.upsets(self.parts(), c) implies !sooner(g.place(), f.place()) by {
                        assert(!sooner(g.place(), (9, p.0 as int, p.1 as int, 0)));
                    }
                }
                return Err(f);
            }
            k = k + 1;
        }
        proof {
            assert forall|p: (Nanos, JobId)| #[trigger]
                x.reserved_by_deadline@.contains(p) implies x.reserved_fifo@.contains(p.1)
                && reserved_for(self.jv(), p.1, c) && self.jv()[p.1].deadline_at == p.0 by {
                assert(listed@.to_set().contains(p));
                assert(listed@[listed@.index_of(p)] == p);
                let a = x.reserved_fifo@.index_of(p.1);
                assert(x.reserved_fifo@[a] == p.1);
            }
            self.lemma_all_there(*x);
        }
        Ok(())
    }

    /// Checks connection `c`. What was given to the puts of earlier connections
    /// is in `seen`.
    fn check_conn(&self, x: &ConnState, c: ConnId, seen: &BTreeSet<JobId>) -> (r: Result<
        (),
        ConnFault,
    >)
        requires
            self.conns@.contains_key(c),
            self.conns@[c] == *x,
            forall|id: JobId| #[trigger] seen@.contains(id) <==> self.given_before(c, id),
        ensures
            r is Ok ==> conn_sound(*x, c, self.next_job_id, self.tubes@, self.jv()),
            r is Ok ==> forall|id: JobId| #[trigger]
                self.given_before(c, id) ==> !pending(*x, id),
            r is Ok ==> forall|g: ConnFault| !(#[trigger] g.upsets(self.parts(), c)),
            r is Err ==> (r->Err_0).first_in(self.parts(), c),
    {
        broadcast use {crate::ordset::group_ordered, vstd::std_specs::btree::group_btree_axioms};

        if x.use_tube >= self.tubes.len() || self.tubes[x.use_tube].is_none() {
            return Err(ConnFault::UsesMissing { tube: x.use_tube });
        }
        assert(ConnFault::clear_below(self.parts(), c, 1));
        match self.check_watch(x, c) {
            Ok(()) => {},
            Err(f) => {
                return Err(f);
            },
        }
        if !x.waiting && x.wait_deadline.is_some() {
            return Err(ConnFault::IdleDeadline);
        }
        assert(ConnFault::clear_below(self.parts(), c, 4));
        match &x.pending_put {
            Some(p) => match p.id {
                Some(id) => {
                    if id >= self.next_job_id {
                        return Err(ConnFault::PendingHigh { id, next: self.next_job_id });
                    }
                    if self.jobs.contains_key(&id) {
                        return Err(ConnFault::PendingLive { id });
                    }
                    if seen.contains(&id) {
                        assert(self.given_before(c, id));
                        return Err(ConnFault::PendingShared { id });
                    }
                    assert(!self.given_before(c, id));
                },
                None => {},
            },
            None => {},
        }
        assert(ConnFault::clear_below(self.parts(), c, 7)) by {
            assert forall|g: ConnFault| #[trigger] g.upsets(self.parts(), c) implies g.place().0
                >= 7 by {
                if let ConnFault::PendingShared { id } = g {
                    assert(self.given_before(c, id));
                }
            }
        }
        match self.check_reserved(x, c) {
            Ok(()) => {},
            Err(f) => {
                return Err(f);
            },
        }
        let tick = conn_tickat(x);
        let same_tick = match (tick, x.tick_key) {
            (Some(a), Some(b)) => a == b,
            (None, None) => true,
            _ => false,
        };
        if !same_tick {
            return Err(ConnFault::TickKey);
        }
        Ok(())
    }

    /// Whether `id` was given to the put of a connection before `c`.
    pub(super) open spec fn given_before(&self, c: ConnId, id: JobId) -> bool {
        exists|b: ConnId|
            b < c && #[trigger] self.conns@.contains_key(b) && pending(self.conns@[b], id)
    }

    /// Checks every connection.
    pub(super) fn check_each_conn(&self) -> (r: Result<(), Fault>)
        requires
            Fault::clear_before(self.parts(), 1),
        ensures
            r is Ok ==> forall|c: ConnId| #[trigger]
                self.conns@.contains_key(c) ==> conn_sound(
                    self.conns@[c],
                    c,
                    self.next_job_id,
                    self.tubes@,
                    self.jv(),
                ),
            r is Ok ==> pending_ok(self.cv()),
            r is Ok ==> Fault::clear_before(self.parts(), 2),
            r is Err ==> (r->Err_0).first_in(self.parts()),
    {
        broadcast use {crate::ordset::group_ordered, vstd::std_specs::btree::group_btree_axioms};

        let keys: Vec<ConnId> = keys_of(&self.conns);
        let n: usize = keys.len();
        let mut seen: BTreeSet<JobId> = BTreeSet::new();
        let mut i: usize = 0;
        while i < n
            invariant
                i <= n,
                n == keys@.len(),
                keys@.to_set() == self.conns@.dom(),
                forall|a: int, b: int| 0 <= a < b < keys@.len() ==> keys@[a] < keys@[b],
                Fault::clear_before(self.parts(), 1),
                forall|id: JobId| #[trigger]
                    seen@.contains(id) <==> exists|a: int|
                        0 <= a < i && pending(self.conns@[#[trigger] keys@[a]], id),
                forall|k: int|
                    0 <= k < i ==> conn_sound(
                        self.conns@[#[trigger] keys@[k]],
                        keys@[k],
                        self.next_job_id,
                        self.tubes@,
                        self.jv(),
                    ),
                forall|k: int, g: ConnFault|
                    #![trigger g.upsets(self.parts(), keys@[k])]
                    0 <= k < i ==> !g.upsets(self.parts(), keys@[k]),
            decreases n - i,
        {
            let c: ConnId = keys[i];
            let ghost before = seen@;
            assert(keys@.to_set().contains(keys@[i as int]));
            assert(self.conns@.contains_key(c));
            proof {
                assert forall|id: JobId| #[trigger]
                    seen@.contains(id) <==> self.given_before(c, id) by {
                    if seen@.contains(id) {
                        let a = choose|a: int|
                            0 <= a < i && pending(self.conns@[#[trigger] keys@[a]], id);
                        assert(keys@.to_set().contains(keys@[a]));
                        assert(self.conns@.contains_key(keys@[a]));
                    }
                    if self.given_before(c, id) {
                        let b = choose|b: ConnId|
                            b < c && #[trigger] self.conns@.contains_key(b) && pending(
                                self.conns@[b],
                                id,
                            );
                        assert(keys@.to_set().contains(b));
                        assert(keys@[keys@.index_of(b)] == b);
                    }
                }
            }
            match self.conns.get(&c) {
                Some(x) => {
                    match self.check_conn(x, c, &seen) {
                        Ok(()) => {},
                        Err(what) => {
                            let f = Fault::Conn { conn: c, what };
                            proof {
                                assert forall|g: Fault| #[trigger]
                                    g.upsets(self.parts()) implies !g.comes_before(f) by {
                                    if let Fault::Conn { conn: k, what: w } = g {
                                        assert(self.conns@.contains_key(k));
                                        assert(keys@.to_set().contains(k));
                                        let a = keys@.index_of(k);
                                        assert(keys@[a] == k);
                                        assert(w.upsets(self.parts(), keys@[a]));
                                    }
                                }
                            }
                            return Err(f);
                        },
                    }
                    match &x.pending_put {
                        Some(p) => match p.id {
                            Some(id) => {
                                let _ = seen.insert(id);
                            },
                            None => {},
                        },
                        None => {},
                    }
                    proof {
                        assert forall|id: JobId| #[trigger]
                            seen@.contains(id) <==> exists|a: int|
                                0 <= a < i + 1 && pending(
                                    self.conns@[#[trigger] keys@[a]],
                                    id,
                                ) by {
                            assert(seen@.contains(id) == (before.contains(id) || pending(*x, id)));
                            if pending(*x, id) {
                                assert(pending(self.conns@[keys@[i as int]], id));
                            }
                        }
                    }
                },
                None => {},
            }
            i = i + 1;
        }
        proof {
            assert forall|g: Fault| #[trigger] g.upsets(self.parts()) implies g.part().0 >= 2 by {
                if let Fault::Conn { conn: k, what: w } = g {
                    assert(self.conns@.contains_key(k));
                    assert(keys@.to_set().contains(k));
                    let a = keys@.index_of(k);
                    assert(keys@[a] == k);
                    assert(w.upsets(self.parts(), keys@[a]));
                }
            }
            assert forall|c: ConnId| #[trigger] self.conns@.contains_key(c) implies conn_sound(
                self.conns@[c],
                c,
                self.next_job_id,
                self.tubes@,
                self.jv(),
            ) by {
                assert(keys@.to_set().contains(c));
                assert(keys@[keys@.index_of(c)] == c);
            }
            self.lemma_none_shared();
        }
        Ok(())
    }

    /// Where no fault of a connection is found, no two connections have been given
    /// the same id for a put.
    proof fn lemma_none_shared(&self)
        requires
            Fault::clear_before(self.parts(), 2),
        ensures
            pending_ok(self.cv()),
    {
        let cv = self.cv();
        assert forall|a: ConnId, b: ConnId|
            #![trigger cv[a], cv[b]]
            a != b && cv.contains_key(a) && cv.contains_key(b) && cv[a].pending_put is Some
                && cv[b].pending_put is Some && cv[a].pending_put->0.id is Some implies
            cv[a].pending_put->0.id != cv[b].pending_put->0.id by {
            let (lo, hi) = if a < b {
                (a, b)
            } else {
                (b, a)
            };
            assert(self.conns@.contains_key(lo) && self.conns@.contains_key(hi));
            assert(cv[lo] == self.conns@[lo]@ && cv[hi] == self.conns@[hi]@);
            if cv[a].pending_put->0.id == cv[b].pending_put->0.id {
                let id = cv[a].pending_put->0.id->0;
                let what = ConnFault::PendingShared { id };
                assert(what.upsets(self.parts(), hi));
                assert((Fault::Conn { conn: hi, what }).upsets(self.parts()));
            }
        }
    }

    /// Every job that some connection lists as reserved.
    fn listed_jobs(&self) -> (r: BTreeSet<JobId>)
        ensures
            forall|id: JobId| #[trigger]
                r@.contains(id) <==> exists|c: ConnId| #[trigger]
                    self.conns@.contains_key(c) && self.conns@[c].reserved_fifo@.contains(id),
    {
        broadcast use {crate::ordset::group_ordered, vstd::std_specs::btree::group_btree_axioms};

        let keys: Vec<ConnId> = keys_of(&self.conns);
        let n: usize = keys.len();
        let mut held: BTreeSet<JobId> = BTreeSet::new();
        let mut i: usize = 0;
        while i < n
            invariant
                i <= n,
                n == keys@.len(),
                keys@.to_set() == self.conns@.dom(),
                forall|id: JobId| #[trigger]
                    held@.contains(id) <==> exists|a: int|
                        0 <= a < i && self.conns@[#[trigger] keys@[a]].reserved_fifo@.contains(id),
            decreases n - i,
        {
            let c: ConnId = keys[i];
            let ghost before = held@;
            assert(keys@.to_set().contains(keys@[i as int]));
            assert(self.conns@.contains_key(c));
            match self.conns.get(&c) {
                Some(x) => {
                    let m: usize = x.reserved_fifo.len();
                    let mut k: usize = 0;
                    while k < m
                        invariant
                            k <= m,
                            m == x.reserved_fifo@.len(),
                            forall|id: JobId| #[trigger]
                                held@.contains(id) <==> before.contains(id) || exists|b: int|
                                    0 <= b < k && #[trigger] x.reserved_fifo@[b] == id,
                        decreases m - k,
                    {
                        let ghost held0 = held@;
                        let id: JobId = x.reserved_fifo[k];
                        let _ = held.insert(id);
                        proof {
                            assert forall|q: JobId| #[trigger] held@.contains(q) implies
                                before.contains(q) || exists|b: int|
                                0 <= b < k + 1 && #[trigger] x.reserved_fifo@[b] == q by {
                                if q == id {
                                    assert(x.reserved_fifo@[k as int] == q);
                                } else {
                                    assert(held0.contains(q));
                                }
                            }
                            assert forall|q: JobId|
                                before.contains(q) || exists|b: int|
                                    0 <= b < k + 1 && #[trigger] x.reserved_fifo@[b] == q implies
                                #[trigger] held@.contains(q) by {
                                if q != id {
                                    assert(held0.contains(q));
                                }
                            }
                        }
                        k = k + 1;
                    }
                    proof {
                        let f = x.reserved_fifo@;
                        assert(self.conns@[keys@[i as int]].reserved_fifo@ == f);
                        assert forall|id: JobId| #[trigger] held@.contains(id) implies exists|
                            a: int,
                        |
                            0 <= a < i + 1 && self.conns@[#[trigger] keys@[a]].reserved_fifo@.contains(
                                id,
                            ) by {
                            if !before.contains(id) {
                                let b = choose|b: int| 0 <= b < f.len() && #[trigger] f[b] == id;
                                assert(f.contains(id));
                                assert(self.conns@[keys@[i as int]].reserved_fifo@.contains(id));
                            }
                        }
                        assert forall|id: JobId|
                            (exists|a: int|
                                0 <= a < i + 1
                                    && self.conns@[#[trigger] keys@[a]].reserved_fifo@.contains(id))
                            implies #[trigger] held@.contains(id) by {
                            let a = choose|a: int|
                                0 <= a < i + 1
                                    && self.conns@[#[trigger] keys@[a]].reserved_fifo@.contains(id);
                            if a == i {
                                assert(f[f.index_of(id)] == id);
                            } else {
                                assert(before.contains(id));
                            }
                        }
                    }
                },
                None => {
                    assert(false);
                },
            }
            i = i + 1;
        }
        assert forall|id: JobId| #[trigger]
            held@.contains(id) <==> exists|c: ConnId| #[trigger]
                self.conns@.contains_key(c) && self.conns@[c].reserved_fifo@.contains(id) by {
            if held@.contains(id) {
                let a = choose|a: int|
                    0 <= a < i && self.conns@[#[trigger] keys@[a]].reserved_fifo@.contains(id);
                assert(keys@.to_set().contains(keys@[a]));
                assert(self.conns@.contains_key(keys@[a]));
            }
            if exists|c: ConnId| #[trigger]
                self.conns@.contains_key(c) && self.conns@[c].reserved_fifo@.contains(id) {
                let c = choose|c: ConnId| #[trigger]
                    self.conns@.contains_key(c) && self.conns@[c].reserved_fifo@.contains(id);
                assert(keys@.to_set().contains(c));
                assert(keys@[keys@.index_of(c)] == c);
            }
        }
        held
    }

    /// Checks that every reserved job is in its connection's list, and how many
    /// there are.
    pub(super) fn check_held(&self) -> (r: Result<(), HeldFault>)
        requires
            forall|id: JobId| #[trigger]
                self.jv().contains_key(id) ==> live(self.tubes@, self.jv()[id].tube),
            forall|id: JobId| #[trigger]
                self.jv().contains_key(id) && self.jv()[id].state == JobState::Reserved
                    ==> self.jv()[id].reserver is Some && self.conns@.contains_key(
                    self.jv()[id].reserver->0,
                ),
            forall|c: ConnId| #[trigger]
                self.conns@.contains_key(c) ==> lists_own(self.conns@[c], c, self.jv()),
        ensures
            r is Ok ==> forall|id: JobId, c: ConnId| #[trigger]
                reserved_for(self.jv(), id, c) && self.conns@.contains_key(c)
                    ==> self.conns@[c].reserved_fifo@.contains(id),
            r is Ok ==> self.tallies.reserved_ct == count_jobs(self.jv(), JobSel::Reserved),
            r is Ok ==> forall|g: HeldFault| !(#[trigger] g.upsets(self.parts())),
            r is Err ==> (r->Err_0).first_in(self.parts()),
    {
        broadcast use {crate::ordset::group_ordered, vstd::std_specs::btree::group_btree_axioms};

        let held: BTreeSet<JobId> = self.listed_jobs();
        let keys: Vec<JobId> = keys_of(&self.jobs);
        let n: usize = keys.len();
        let mut i: usize = 0;
        while i < n
            invariant
                i <= n,
                n == keys@.len(),
                keys@.to_set() == self.jobs@.dom(),
                forall|id: JobId| #[trigger]
                    self.jv().contains_key(id) ==> live(self.tubes@, self.jv()[id].tube),
                forall|id: JobId| #[trigger]
                    held@.contains(id) <==> exists|c: ConnId| #[trigger]
                        self.conns@.contains_key(c) && self.conns@[c].reserved_fifo@.contains(id),
                forall|c: ConnId| #[trigger]
                    self.conns@.contains_key(c) ==> lists_own(self.conns@[c], c, self.jv()),
                forall|k: int, c: ConnId|
                    0 <= k < i && #[trigger] reserved_for(self.jv(), keys@[k], c)
                        && self.conns@.contains_key(c)
                        ==> self.conns@[c].reserved_fifo@.contains(keys@[k]),
            decreases n - i,
        {
            let id: JobId = keys[i];
            assert(keys@[i as int] == id);
            match self.jobs.get(&id) {
                Some(j) => {
                    if j.state == JobState::Reserved {
                        match j.reserver {
                            Some(c) => match self.conns.get(&c) {
                                Some(x) => {
                                    assert(reserved_for(self.jv(), id, c));
                                    assert(self.conns@.contains_key(c));
                                    if !held.contains(&id) {
                                        proof {
                                            assert(held@ =~= held_jobs(self.conns@));
                                            assert(self.jv().contains_key(id));
                                            assert(!held_jobs(self.conns@).contains(id));
                                        }
                                        let jobs: u64 = self.count_reserved();
                                        return Err(
                                            HeldFault::Entries { entries: held.len(), jobs },
                                        );
                                    }
                                    proof {
                                        let k = choose|k: ConnId| #[trigger]
                                            self.conns@.contains_key(k)
                                                && self.conns@[k].reserved_fifo@.contains(id);
                                        assert(lists_own(self.conns@[k], k, self.jv()));
                                        let b = self.conns@[k].reserved_fifo@.index_of(id);
                                        assert(self.conns@[k].reserved_fifo@[b] == id);
                                        assert(reserved_for(self.jv(), id, k));
                                    }
                                },
                                None => {},
                            },
                            None => {},
                        }
                    }
                },
                None => {},
            }
            i = i + 1;
        }
        assert forall|id: JobId, c: ConnId| #[trigger]
            reserved_for(self.jv(), id, c) && self.conns@.contains_key(c) implies
        self.conns@[c].reserved_fifo@.contains(id) by {
            assert(keys@.to_set().contains(id));
            assert(keys@[keys@.index_of(id)] == id);
        }
        let found: u64 = self.count_reserved();
        proof {
            assert forall|id: JobId| #[trigger]
                self.jv().contains_key(id) && self.jv()[id].state == JobState::Reserved implies
            held_jobs(self.conns@).contains(id) by {
                assert(reserved_for(self.jv(), id, self.jv()[id].reserver->0));
            }
        }
        if self.tallies.reserved_ct != found {
            return Err(HeldFault::Total { count: self.tallies.reserved_ct, found });
        }
        Ok(())
    }
}

} // verus!
