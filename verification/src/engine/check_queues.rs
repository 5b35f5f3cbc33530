//! Checking that the tubes in data from outside list the jobs and the waiting
//! connections that belong to them.

use super::check::looked_at;
use super::check_counts::TubeCount;
use super::faults::{buried_jobs, in_state, sooner, waits_on, Fault, SumFault, TubeFault};
use super::Engine;
use crate::api::{ConnId, Nanos};
use crate::inv::{at, flag_ok, is_head, live};
use crate::model::{ConnView, JobState, JobView, TubeId, TubeState};
use crate::ordset::{items, keys_of, lemma_pairs_ascend, lemma_small_pairs_ascend};
use crate::proto::JobId;
use std::collections::BTreeSet;
use vstd::prelude::*;

verus! {

/// Whether what tube `t` lists as ready is that.
pub(super) open spec fn ready_sound(x: TubeState, t: TubeId, jobs: Map<JobId, JobView>) -> bool {
    forall|p: (u32, JobId)| #[trigger]
        x.ready@.contains(p) ==> in_state(jobs, p.1, JobState::Ready, t) && jobs[p.1].pri == p.0
}

/// Whether what tube `t` lists as delayed is that.
pub(super) open spec fn delayed_sound(x: TubeState, t: TubeId, jobs: Map<JobId, JobView>) -> bool {
    forall|p: (Nanos, JobId)| #[trigger]
        x.delayed@.contains(p) ==> in_state(jobs, p.1, JobState::Delayed, t)
            && jobs[p.1].deadline_at == p.0
}

/// Whether what tube `t` lists as buried is that, each job once.
pub(super) open spec fn buried_sound(x: TubeState, t: TubeId, jobs: Map<JobId, JobView>) -> bool {
    &&& x.buried@.no_duplicates()
    &&& forall|i: int|
        0 <= i < x.buried@.len() ==> in_state(
            jobs,
            #[trigger] x.buried@[i],
            JobState::Buried,
            t,
        )
}

/// Whether what tube `t`, whose data is `x`, lists of the jobs is so.
pub(super) open spec fn lists_sound(x: TubeState, t: TubeId, jobs: Map<JobId, JobView>) -> bool {
    &&& ready_sound(x, t, jobs)
    &&& delayed_sound(x, t, jobs)
    &&& buried_sound(x, t, jobs)
}

/// Whether what a tube records of its own lists is so.
pub(super) open spec fn marks_sound(x: TubeState) -> bool {
    &&& x.stat.buried_ct == x.buried@.len()
    &&& x.stat.waiting_ct == x.waiting_conns@.items.len()
    &&& is_head(x.delayed@, x.delay_head)
    &&& flag_ok(x)
}

/// What holds of tube `t` by itself, whose data is `x`.
pub(super) open spec fn tube_sound(x: TubeState, t: TubeId, jobs: Map<JobId, JobView>) -> bool {
    &&& lists_sound(x, t, jobs)
    &&& x.waiting_conns@.items.no_duplicates()
    &&& marks_sound(x)
}

/// Whether job `id` stands in the list of its tube that its state asks for.
pub(super) open spec fn queued(
    jobs: Map<JobId, JobView>,
    tubes: Seq<Option<TubeState>>,
    id: JobId,
) -> bool {
    let j = jobs[id];
    let x = at(tubes, j.tube);
    match j.state {
        JobState::Ready => x.ready@.contains((j.pri, id)),
        JobState::Delayed => x.delayed@.contains((j.deadline_at, id)),
        JobState::Buried => x.buried@.contains(id),
        JobState::Reserved => true,
    }
}

/// The connections that wait, each with a tube that it watches.
pub(super) open spec fn wait_pairs(conns: Map<ConnId, ConnView>) -> Set<(ConnId, TubeId)> {
    Set::new(
        |p: (ConnId, TubeId)|
            conns.contains_key(p.0) && conns[p.0].waiting && conns[p.0].watch.items.contains(p.1),
    )
}

/// The connections that tubes list as waiting, each with the tube.
pub(super) open spec fn queue_pairs(tubes: Seq<Option<TubeState>>) -> Set<(ConnId, TubeId)> {
    Set::new(
        |p: (ConnId, TubeId)|
            live(tubes, p.1) && at(tubes, p.1).waiting_conns@.items.contains(p.0),
    )
}

impl Engine {
    /// Whether job `id` is in tube `t` and in state `s`.
    fn is_in_state(&self, id: JobId, s: JobState, t: TubeId) -> (r: bool)
        ensures
            r == in_state(self.jv(), id, s, t),
    {
        broadcast use {crate::ordset::group_ordered, vstd::std_specs::btree::group_btree_axioms};

        match self.jobs.get(&id) {
            Some(j) => j.state == s && j.tube == t,
            None => false,
        }
    }

    /// Checks that what tube `t` lists as ready is that.
    fn check_tube_ready(&self, x: &TubeState, t: TubeId) -> (r: Result<(), TubeFault>)
        requires
            live(self.tubes@, t),
            at(self.tubes@, t) == *x,
            TubeFault::clear_below(self.parts(), t, 0),
        ensures
            r is Ok ==> ready_sound(*x, t, self.jv()),
            r is Ok ==> TubeFault::clear_below(self.parts(), t, 1),
            r is Err ==> (r->Err_0).first_in(self.parts(), t),
    {
        broadcast use {crate::ordset::group_ordered, vstd::std_specs::btree::group_btree_axioms};

        let ready: Vec<(u32, JobId)> = items(&x.ready);
        proof {
            lemma_small_pairs_ascend(ready@);
        }
        let n: usize = ready.len();
        let mut i: usize = 0;
        while i < n
            invariant
                i <= n,
                n == ready@.len(),
                ready@.to_set() == x.ready@,
                forall|a: int, b: int|
                    #![trigger ready@[a], ready@[b]]
                    0 <= a < b < ready@.len() ==> ready@[a].0 < ready@[b].0 || (ready@[a].0
                        == ready@[b].0 && ready@[a].1 < ready@[b].1),
                live(self.tubes@, t),
                at(self.tubes@, t) == *x,
                TubeFault::clear_below(self.parts(), t, 0),
                forall|k: int|
                    0 <= k < i ==> in_state(
                        self.jv(),
                        (#[trigger] ready@[k]).1,
                        JobState::Ready,
                        t,
                    ) && self.jv()[ready@[k].1].pri == ready@[k].0,
            decreases n - i,
        {
            let p: (u32, JobId) = ready[i];
            assert(ready@.to_set().contains(ready@[i as int]));
            let same = match self.jobs.get(&p.1) {
                Some(j) => j.pri == p.0,
                None => false,
            };
            if !same || !self.is_in_state(p.1, JobState::Ready, t) {
                let f = TubeFault::ReadyStale { pri: p.0, id: p.1 };
                proof {
                    assert(x.ready@.contains((p.0, p.1)));
                    assert forall|g: TubeFault| #[trigger] g.upsets(self.parts(), t) implies !sooner(
                        g.place(),
                        f.place(),
                    ) by {
                        if let TubeFault::ReadyStale { pri, id } = g {
                            assert(ready@.to_set().contains((pri, id)));
                            assert(ready@[ready@.index_of((pri, id))] == (pri, id));
                        }
                    }
                }
                return Err(f);
            }
            i = i + 1;
        }
        assert forall|p: (u32, JobId)| #[trigger] x.ready@.contains(p) implies in_state(
            self.jv(),
            p.1,
            JobState::Ready,
            t,
        ) && self.jv()[p.1].pri == p.0 by {
            assert(ready@.to_set().contains(p));
            assert(ready@[ready@.index_of(p)] == p);
        }
        Ok(())
    }

    /// Checks that what tube `t` lists as delayed is that.
    fn check_tube_delayed(&self, x: &TubeState, t: TubeId) -> (r: Result<(), TubeFault>)
        requires
            live(self.tubes@, t),
            at(self.tubes@, t) == *x,
            TubeFault::clear_below(self.parts(), t, 1),
        ensures
            r is Ok ==> delayed_sound(*x, t, self.jv()),
            r is Ok ==> TubeFault::clear_below(self.parts(), t, 2),
            r is Err ==> (r->Err_0).first_in(self.parts(), t),
    {
        broadcast use {crate::ordset::group_ordered, vstd::std_specs::btree::group_btree_axioms};

        let delayed: Vec<(Nanos, JobId)> = items(&x.delayed);
        proof {
            lemma_pairs_ascend(delayed@);
        }
        let n: usize = delayed.len();
        let mut i: usize = 0;
        while i < n
            invariant
                i <= n,
                n == delayed@.len(),
                delayed@.to_set() == x.delayed@,
                forall|a: int, b: int|
                    #![trigger delayed@[a], delayed@[b]]
                    0 <= a < b < delayed@.len() ==> delayed@[a].0 < delayed@[b].0 || (delayed@[a].0
                        == delayed@[b].0 && delayed@[a].1 < delayed@[b].1),
                live(self.tubes@, t),
                at(self.tubes@, t) == *x,
                TubeFault::clear_below(self.parts(), t, 1),
                forall|k: int|
                    0 <= k < i ==> in_state(
                        self.jv(),
                        (#[trigger] delayed@[k]).1,
                        JobState::Delayed,
                        t,
                    ) && self.jv()[delayed@[k].1].deadline_at == delayed@[k].0,
            decreases n - i,
        {
            let p: (Nanos, JobId) = delayed[i];
            assert(delayed@.to_set().contains(delayed@[i as int]));
            let same = match self.jobs.get(&p.1) {
                Some(j) => j.deadline_at == p.0,
                None => false,
            };
            if !same || !self.is_in_state(p.1, JobState::Delayed, t) {
                let f = TubeFault::DelayedStale { due: p.0, id: p.1 };
                proof {
                    assert(x.delayed@.contains((p.0, p.1)));
                    assert forall|g: TubeFault| #[trigger] g.upsets(self.parts(), t) implies !sooner(
                        g.place(),
                        f.place(),
                    ) by {
                        if let TubeFault::DelayedStale { due, id } = g {
                            assert(delayed@.to_set().contains((due, id)));
                            assert(delayed@[delayed@.index_of((due, id))] == (due, id));
                        }
                    }
                }
                return Err(f);
            }
            i = i + 1;
        }
        assert forall|p: (Nanos, JobId)| #[trigger] x.delayed@.contains(p) implies in_state(
            self.jv(),
            p.1,
            JobState::Delayed,
            t,
        ) && self.jv()[p.1].deadline_at == p.0 by {
            assert(delayed@.to_set().contains(p));
            assert(delayed@[delayed@.index_of(p)] == p);
        }
        Ok(())
    }

    /// Checks that what tube `t` lists as buried is that, each job once.
    fn check_tube_buried(&self, x: &TubeState, t: TubeId) -> (r: Result<(), TubeFault>)
        requires
            live(self.tubes@, t),
            at(self.tubes@, t) == *x,
            TubeFault::clear_below(self.parts(), t, 2),
        ensures
            r is Ok ==> buried_sound(*x, t, self.jv()),
            r is Ok ==> TubeFault::clear_below(self.parts(), t, 3),
            r is Err ==> (r->Err_0).first_in(self.parts(), t),
    {
        broadcast use {crate::ordset::group_ordered, vstd::std_specs::btree::group_btree_axioms};

        let n: usize = x.buried.len();
        let ghost f = x.buried@;
        let mut seen: BTreeSet<JobId> = BTreeSet::new();
        let mut i: usize = 0;
        while i < n
            invariant
                i <= n,
                n == f.len(),
                f == x.buried@,
                live(self.tubes@, t),
                at(self.tubes@, t) == *x,
                TubeFault::clear_below(self.parts(), t, 2),
                forall|k: int|
                    0 <= k < i ==> in_state(self.jv(), #[trigger] f[k], JobState::Buried, t),
                looked_at(seen@, f, i as int),
            decreases n - i,
        {
            let id: JobId = x.buried[i];
            assert(f[i as int] == id);
            if !self.is_in_state(id, JobState::Buried, t) {
                return Err(TubeFault::BuriedStale { index: i, id });
            }
            if !seen.insert(id) {
                return Err(TubeFault::BuriedTwice { index: i, id });
            }
            i = i + 1;
        }
        Ok(())
    }

    /// Checks that what tube `t` lists as waiting waits there, each connection
    /// once. The connections that wait are in `waits`, each with a tube.
    fn check_tube_waiting(
        &self,
        x: &TubeState,
        t: TubeId,
        waits: &BTreeSet<(ConnId, TubeId)>,
    ) -> (r: Result<(), TubeFault>)
        requires
            live(self.tubes@, t),
            at(self.tubes@, t) == *x,
            waits@ == wait_pairs(self.cv()),
            TubeFault::clear_below(self.parts(), t, 3),
        ensures
            r is Ok ==> x.waiting_conns@.items.no_duplicates(),
            r is Ok ==> TubeFault::clear_below(self.parts(), t, 4),
            r is Err ==> (r->Err_0).first_in(self.parts(), t),
    {
        broadcast use {crate::ordset::group_ordered, vstd::std_specs::btree::group_btree_axioms};

        let n: usize = x.waiting_conns.items.len();
        let ghost f = x.waiting_conns@.items;
        let mut seen: BTreeSet<ConnId> = BTreeSet::new();
        let mut i: usize = 0;
        while i < n
            invariant
                i <= n,
                n == f.len(),
                f == x.waiting_conns@.items,
                live(self.tubes@, t),
                at(self.tubes@, t) == *x,
                waits@ == wait_pairs(self.cv()),
                TubeFault::clear_below(self.parts(), t, 3),
                forall|k: int| 0 <= k < i ==> waits_on(self.conns@, #[trigger] f[k], t),
                looked_at(seen@, f, i as int),
            decreases n - i,
        {
            let conn: ConnId = x.waiting_conns.items[i];
            proof {
                assert(f[i as int] == conn);
                self.lemma_waits(conn, t);
            }
            if !waits.contains(&(conn, t)) {
                return Err(TubeFault::NotWaiting { index: i, conn });
            }
            if !seen.insert(conn) {
                return Err(TubeFault::WaitsTwice { index: i, conn });
            }
            i = i + 1;
        }
        Ok(())
    }

    /// A connection waits on a tube in the engine's data if it does so in what
    /// the data says.
    pub(super) proof fn lemma_waits(&self, c: ConnId, t: TubeId)
        ensures
            waits_on(self.conns@, c, t) == wait_pairs(self.cv()).contains((c, t)),
    {
        assert(self.conns@.contains_key(c) ==> self.cv()[c] == self.conns@[c]@);
    }

    /// The tubes that miss a connection among `waits`.
    fn missed_tubes(&self, waits: &BTreeSet<(ConnId, TubeId)>) -> (r: BTreeSet<TubeId>)
        ensures
            forall|t: TubeId| #[trigger]
                r@.contains(t) <==> exists|c: ConnId|
                    waits@.contains((c, t)) && !(#[trigger] queue_pairs(self.tubes@).contains(
                        (c, t),
                    )),
    {
        broadcast use {crate::ordset::group_ordered, vstd::std_specs::btree::group_btree_axioms};

        let lists = self.queue_set();
        let ghost q = queue_pairs(self.tubes@);
        let pairs: Vec<(ConnId, TubeId)> = items(waits);
        let n: usize = pairs.len();
        let mut r: BTreeSet<TubeId> = BTreeSet::new();
        let mut i: usize = 0;
        while i < n
            invariant
                i <= n,
                n == pairs@.len(),
                q == queue_pairs(self.tubes@),
                lists@ == q,
                forall|t: TubeId| #[trigger]
                    r@.contains(t) <==> exists|a: int|
                        0 <= a < i && (#[trigger] pairs@[a]).1 == t && !q.contains(pairs@[a]),
            decreases n - i,
        {
            let ghost before = r@;
            let p: (ConnId, TubeId) = pairs[i];
            if !lists.contains(&p) {
                let _ = r.insert(p.1);
            }
            proof {
                assert(pairs@[i as int] == p);
                assert forall|t: TubeId| #[trigger]
                    r@.contains(t) <==> exists|a: int|
                        0 <= a < i + 1 && (#[trigger] pairs@[a]).1 == t && !q.contains(pairs@[a]) by {
                    assert(r@.contains(t) == (before.contains(t) || (t == p.1 && !q.contains(p))));
                }
            }
            i = i + 1;
        }
        proof {
            assert forall|t: TubeId| #[trigger]
                r@.contains(t) <==> exists|c: ConnId|
                    waits@.contains((c, t)) && !(#[trigger] queue_pairs(self.tubes@).contains(
                        (c, t),
                    )) by {
                if r@.contains(t) {
                    let a = choose|a: int|
                        0 <= a < n && (#[trigger] pairs@[a]).1 == t && !q.contains(pairs@[a]);
                    assert(pairs@.to_set().contains(pairs@[a]));
                    assert(pairs@[a] == (pairs@[a].0, t));
                }
                if exists|c: ConnId|
                    waits@.contains((c, t)) && !(#[trigger] queue_pairs(self.tubes@).contains(
                        (c, t),
                    )) {
                    let c = choose|c: ConnId|
                        waits@.contains((c, t)) && !(#[trigger] queue_pairs(self.tubes@).contains(
                            (c, t),
                        ));
                    assert(pairs@.to_set().contains((c, t)));
                    assert(pairs@[pairs@.index_of((c, t))] == (c, t));
                }
            }
        }
        r
    }

    /// Checks tube `t`. The connections that wait are in `waits`, each with a
    /// tube, and the tubes that miss one of them in `missed`.
    fn check_tube(
        &self,
        x: &TubeState,
        t: TubeId,
        waits: &BTreeSet<(ConnId, TubeId)>,
        missed: &BTreeSet<TubeId>,
        count: &TubeCount,
    ) -> (r: Result<(), TubeFault>)
        requires
            live(self.tubes@, t),
            at(self.tubes@, t) == *x,
            waits@ == wait_pairs(self.cv()),
            forall|u: TubeId| #[trigger]
                missed@.contains(u) <==> exists|c: ConnId|
                    waits@.contains((c, u)) && !(#[trigger] queue_pairs(self.tubes@).contains(
                        (c, u),
                    )),
            self.is_count_of(*count, t),
        ensures
            r is Ok ==> tube_sound(*x, t, self.jv()) && self.tube_counted(t),
            r is Ok ==> forall|g: TubeFault| !(#[trigger] g.upsets(self.parts(), t)),
            r is Err ==> (r->Err_0).first_in(self.parts(), t),
    {
        broadcast use {crate::ordset::group_ordered, vstd::std_specs::btree::group_btree_axioms};

        match self.check_tube_ready(x, t) {
            Ok(()) => {},
            Err(f) => {
                return Err(f);
            },
        }
        match self.check_tube_delayed(x, t) {
            Ok(()) => {},
            Err(f) => {
                return Err(f);
            },
        }
        match self.check_tube_buried(x, t) {
            Ok(()) => {},
            Err(f) => {
                return Err(f);
            },
        }
        match self.check_tube_waiting(x, t, waits) {
            Ok(()) => {},
            Err(f) => {
                return Err(f);
            },
        }
        if missed.contains(&t) {
            proof {
                let c = choose|c: ConnId|
                    waits@.contains((c, t)) && !(#[trigger] queue_pairs(self.tubes@).contains(
                        (c, t),
                    ));
                self.lemma_waits(c, t);
                assert(waits_on(self.parts().conns, c, t));
                assert(!x.waiting_conns@.items.contains(c));
            }
            return Err(TubeFault::MissesWaiting);
        }
        assert(TubeFault::clear_below(self.parts(), t, 5)) by {
            assert forall|g: TubeFault| #[trigger] g.upsets(self.parts(), t) implies g.place().0
                >= 5 by {
                if g is MissesWaiting {
                    let c = choose|c: ConnId| #[trigger]
                        waits_on(self.conns@, c, t) && !x.waiting_conns@.items.contains(c);
                    self.lemma_waits(c, t);
                    assert(!queue_pairs(self.tubes@).contains((c, t)));
                }
            }
        }
        self.check_tube_counts(x, t, count)
    }

    /// Where no fault of a tube is found, exactly the connections that wait are
    /// listed by the tubes that they watch.
    proof fn lemma_none_missed(&self)
        requires
            Fault::clear_before(self.parts(), 6),
            forall|c: ConnId, i: int|
                self.conns@.contains_key(c) && 0 <= i < self.conns@[c].watch@.items.len() ==> live(
                    self.tubes@,
                    #[trigger] self.conns@[c].watch@.items[i],
                ),
        ensures
            wait_pairs(self.cv()) == queue_pairs(self.tubes@),
    {
        let (w, q) = (wait_pairs(self.cv()), queue_pairs(self.tubes@));
        assert forall|p: (ConnId, TubeId)| w.contains(p) == q.contains(p) by {
            let (c, t) = p;
            assert(p == (c, t));
            self.lemma_waits(c, t);
            if w.contains(p) && !q.contains(p) {
                let f = self.conns@[c].watch@.items;
                assert(f[f.index_of(t)] == t);
                assert(live(self.tubes@, t));
                assert(waits_on(self.parts().conns, c, t));
                assert(!at(self.tubes@, t).waiting_conns@.items.contains(c));
                assert(TubeFault::MissesWaiting.upsets(self.parts(), t));
                assert((Fault::Tube { tube: t, what: TubeFault::MissesWaiting }).upsets(
                    self.parts(),
                ));
            }
            if q.contains(p) && !w.contains(p) {
                let f = at(self.tubes@, t).waiting_conns@.items;
                let i = f.index_of(c);
                assert(f[i] == c);
                assert(at(self.tubes@, t).waiting_conns.items.len() == f.len());
                let what = TubeFault::NotWaiting { index: i as usize, conn: c };
                assert(what.upsets(self.parts(), t));
                assert((Fault::Tube { tube: t, what }).upsets(self.parts()));
            }
        }
        assert(w =~= q);
    }

    /// Checks every tube.
    pub(super) fn check_each_tube(&self) -> (r: Result<(), Fault>)
        requires
            Fault::clear_before(self.parts(), 5),
            forall|id: JobId| #[trigger]
                self.jv().contains_key(id) ==> live(self.tubes@, self.jv()[id].tube),
            forall|c: ConnId| #[trigger]
                self.conns@.contains_key(c) ==> live(self.tubes@, self.conns@[c].use_tube)
                    && self.conns@[c].watch@.items.no_duplicates(),
            forall|c: ConnId, i: int|
                self.conns@.contains_key(c) && 0 <= i < self.conns@[c].watch@.items.len() ==> live(
                    self.tubes@,
                    #[trigger] self.conns@[c].watch@.items[i],
                ),
        ensures
            r is Ok ==> forall|t: TubeId| #[trigger]
                live(self.tubes@, t) ==> tube_sound(at(self.tubes@, t), t, self.jv())
                    && self.tube_counted(t),
            r is Ok ==> wait_pairs(self.cv()) == queue_pairs(self.tubes@),
            r is Ok ==> Fault::clear_before(self.parts(), 6),
            r is Err ==> (r->Err_0).first_in(self.parts()),
    {
        broadcast use crate::ordset::group_ordered;

        let waits = self.wait_set();
        let missed = self.missed_tubes(&waits);
        let counts: Vec<TubeCount> = self.tube_counts();
        let n: usize = self.tubes.len();
        let mut i: usize = 0;
        while i < n
            invariant
                i <= n,
                n == self.tubes@.len(),
                counts@.len() == n,
                forall|t: TubeId|
                    t < counts@.len() ==> self.is_count_of(#[trigger] counts@[t as int], t),
                waits@ == wait_pairs(self.cv()),
                forall|u: TubeId| #[trigger]
                    missed@.contains(u) <==> exists|c: ConnId|
                        waits@.contains((c, u)) && !(#[trigger] queue_pairs(self.tubes@).contains(
                            (c, u),
                        )),
                Fault::clear_before(self.parts(), 5),
                forall|t: TubeId|
                    t < i && #[trigger] live(self.tubes@, t) ==> tube_sound(
                        at(self.tubes@, t),
                        t,
                        self.jv(),
                    ) && self.tube_counted(t),
                forall|t: TubeId, g: TubeFault|
                    t < i ==> !(#[trigger] g.upsets(self.parts(), t)),
            decreases n - i,
        {
            match &self.tubes[i] {
                Some(x) => {
                    assert(live(self.tubes@, i));
                    assert(self.is_count_of(counts@[i as int], i));
                    match self.check_tube(x, i, &waits, &missed, &counts[i]) {
                        Ok(()) => {},
                        Err(what) => {
                            return Err(Fault::Tube { tube: i, what });
                        },
                    }
                },
                None => {
                    assert(!live(self.tubes@, i));
                },
            }
            i = i + 1;
        }
        proof {
            assert forall|g: Fault| #[trigger] g.upsets(self.parts()) implies g.part().0 >= 6 by {
                if let Fault::Tube { tube, what } = g {
                    assert(what.upsets(self.parts(), tube));
                    assert(live(self.tubes@, tube));
                }
            }
            self.lemma_none_missed();
        }
        Ok(())
    }

    /// Every job that some tube lists as buried.
    fn buried_ids(&self) -> (r: BTreeSet<JobId>)
        ensures
            forall|id: JobId| #[trigger]
                r@.contains(id) <==> exists|t: TubeId| #[trigger]
                    live(self.tubes@, t) && at(self.tubes@, t).buried@.contains(id),
    {
        broadcast use {crate::ordset::group_ordered, vstd::std_specs::btree::group_btree_axioms};

        let n: usize = self.tubes.len();
        let mut all: BTreeSet<JobId> = BTreeSet::new();
        let mut i: usize = 0;
        while i < n
            invariant
                i <= n,
                n == self.tubes@.len(),
                forall|id: JobId| #[trigger]
                    all@.contains(id) <==> exists|t: TubeId| #[trigger]
                        live(self.tubes@, t) && t < i && at(self.tubes@, t).buried@.contains(id),
            decreases n - i,
        {
            let ghost before = all@;
            match &self.tubes[i] {
                Some(x) => {
                    let m: usize = x.buried.len();
                    let mut k: usize = 0;
                    while k < m
                        invariant
                            k <= m,
                            m == x.buried@.len(),
                            forall|id: JobId| #[trigger]
                                all@.contains(id) <==> before.contains(id) || exists|b: int|
                                    0 <= b < k && #[trigger] x.buried@[b] == id,
                        decreases m - k,
                    {
                        let ghost all0 = all@;
                        let id: JobId = x.buried[k];
                        let _ = all.insert(id);
                        proof {
                            assert forall|q: JobId| #[trigger] all@.contains(q) implies
                                before.contains(q) || exists|b: int|
                                0 <= b < k + 1 && #[trigger] x.buried@[b] == q by {
                                if q == id {
                                    assert(x.buried@[k as int] == q);
                                } else {
                                    assert(all0.contains(q));
                                }
                            }
                            assert forall|q: JobId|
                                before.contains(q) || exists|b: int|
                                    0 <= b < k + 1 && #[trigger] x.buried@[b] == q implies
                                #[trigger] all@.contains(q) by {
                                if q != id {
                                    assert(all0.contains(q));
                                }
                            }
                        }
                        k = k + 1;
                    }
                    proof {
                        let f = x.buried@;
                        assert(live(self.tubes@, i));
                        assert forall|id: JobId| #[trigger] all@.contains(id) implies exists|
                            t: TubeId,
                        | #[trigger]
                            live(self.tubes@, t) && t < i + 1 && at(
                                self.tubes@,
                                t,
                            ).buried@.contains(id) by {
                            if !before.contains(id) {
                                let b = choose|b: int| 0 <= b < f.len() && #[trigger] f[b] == id;
                                assert(f.contains(id));
                            }
                        }
                        assert forall|id: JobId|
                            (exists|t: TubeId| #[trigger]
                                live(self.tubes@, t) && t < i + 1 && at(
                                    self.tubes@,
                                    t,
                                ).buried@.contains(id)) implies #[trigger] all@.contains(id) by {
                            let t = choose|t: TubeId| #[trigger]
                                live(self.tubes@, t) && t < i + 1 && at(
                                    self.tubes@,
                                    t,
                                ).buried@.contains(id);
                            if t == i {
                                assert(f[f.index_of(id)] == id);
                            } else {
                                assert(before.contains(id));
                            }
                        }
                    }
                },
                None => {
                    assert(!live(self.tubes@, i));
                },
            }
            i = i + 1;
        }
        all
    }

    /// Checks that every buried job stands in the list of its tube.
    pub(super) fn check_buried(&self) -> (r: Result<(), SumFault>)
        requires
            forall|id: JobId| #[trigger]
                self.jv().contains_key(id) ==> live(self.tubes@, self.jv()[id].tube),
            forall|t: TubeId| #[trigger]
                live(self.tubes@, t) ==> lists_sound(at(self.tubes@, t), t, self.jv()),
        ensures
            r is Ok ==> forall|id: JobId| #[trigger]
                self.jv().contains_key(id) && self.jv()[id].state == JobState::Buried ==> queued(
                    self.jv(),
                    self.tubes@,
                    id,
                ),
            r is Ok ==> SumFault::clear_below(self.parts(), 1),
            r is Err ==> (r->Err_0).first_in(self.parts()),
    {
        broadcast use {crate::ordset::group_ordered, vstd::std_specs::btree::group_btree_axioms};

        let buried: BTreeSet<JobId> = self.buried_ids();
        assert(buried@ =~= buried_jobs(self.tubes@));
        let keys: Vec<JobId> = keys_of(&self.jobs);
        let n: usize = keys.len();
        let mut i: usize = 0;
        while i < n
            invariant
                i <= n,
                n == keys@.len(),
                keys@.to_set() == self.jobs@.dom(),
                forall|id: JobId| #[trigger]
                    self.jv().contains_key(id) ==> live(self.tubes@, self.jv()[id].tube),
                forall|t: TubeId| #[trigger]
                    live(self.tubes@, t) ==> lists_sound(at(self.tubes@, t), t, self.jv()),
                buried@ == buried_jobs(self.tubes@),
                forall|k: int|
                    0 <= k < i && self.jv()[#[trigger] keys@[k]].state == JobState::Buried
                        ==> queued(self.jv(), self.tubes@, keys@[k]),
            decreases n - i,
        {
            let id: JobId = keys[i];
            assert(keys@.to_set().contains(keys@[i as int]));
            assert(self.jv().contains_key(id));
            match self.jobs.get(&id) {
                Some(j) => {
                    if j.state == JobState::Buried {
                        if !buried.contains(&id) {
                            let jobs: u64 = self.count_buried();
                            proof {
                                assert(live(self.tubes@, j.tube));
                                if queued(self.jv(), self.tubes@, id) {
                                    assert(buried_jobs(self.tubes@).contains(id));
                                }
                            }
                            return Err(SumFault::BuriedEntries { entries: buried.len(), jobs });
                        }
                        proof {
                            let t = choose|t: TubeId| #[trigger]
                                live(self.tubes@, t) && at(self.tubes@, t).buried@.contains(id);
                            let f = at(self.tubes@, t).buried@;
                            assert(lists_sound(at(self.tubes@, t), t, self.jv()));
                            assert(f[f.index_of(id)] == id);
                            assert(in_state(self.jv(), id, JobState::Buried, t));
                        }
                    }
                },
                None => {},
            }
            i = i + 1;
        }
        assert forall|id: JobId| #[trigger]
            self.jv().contains_key(id) && self.jv()[id].state == JobState::Buried implies queued(
            self.jv(),
            self.tubes@,
            id,
        ) by {
            assert(keys@.to_set().contains(id));
            assert(keys@[keys@.index_of(id)] == id);
        }
        assert forall|id: JobId| #[trigger]
            self.jv().contains_key(id) && self.jv()[id].state == JobState::Buried implies
        buried_jobs(self.tubes@).contains(id) by {
            assert(live(self.tubes@, self.jv()[id].tube));
        }
        Ok(())
    }

    /// The connections that tubes list as waiting, each with the tube.
    fn queue_set(&self) -> (r: BTreeSet<(ConnId, TubeId)>)
        ensures
            r@ == queue_pairs(self.tubes@),
    {
        broadcast use {crate::ordset::group_ordered, vstd::std_specs::btree::group_btree_axioms};

        let n: usize = self.tubes.len();
        let mut all: BTreeSet<(ConnId, TubeId)> = BTreeSet::new();
        let mut i: usize = 0;
        while i < n
            invariant
                i <= n,
                n == self.tubes@.len(),
                forall|p: (ConnId, TubeId)| #[trigger]
                    all@.contains(p) <==> p.1 < i && queue_pairs(self.tubes@).contains(p),
            decreases n - i,
        {
            let ghost before = all@;
            match &self.tubes[i] {
                Some(x) => {
                    let ghost f = x.waiting_conns@.items;
                    let m: usize = x.waiting_conns.items.len();
                    let mut k: usize = 0;
                    while k < m
                        invariant
                            k <= m,
                            f == x.waiting_conns@.items,
                            m == f.len(),
                            forall|p: (ConnId, TubeId)| #[trigger]
                                all@.contains(p) <==> before.contains(p) || (p.1 == i && exists|
                                    b: int,
                                |
                                    0 <= b < k && #[trigger] f[b] == p.0),
                        decreases m - k,
                    {
                        let ghost all0 = all@;
                        let c: ConnId = x.waiting_conns.items[k];
                        let _ = all.insert((c, i));
                        proof {
                            assert(f[k as int] == c);
                            assert forall|p: (ConnId, TubeId)| #[trigger]
                                all@.contains(p) <==> before.contains(p) || (p.1 == i && exists|
                                    b: int,
                                |
                                    0 <= b < k + 1 && #[trigger] f[b] == p.0) by {
                                assert(all@.contains(p) == (all0.contains(p) || p == (c, i)));
                                if p.1 == i && exists|b: int| 0 <= b < k + 1 && #[trigger] f[b] == p.0
                                {
                                    let b = choose|b: int|
                                        0 <= b < k + 1 && #[trigger] f[b] == p.0;
                                    if b == k {
                                        assert(p == (c, i));
                                    }
                                }
                            }
                        }
                        k = k + 1;
                    }
                    proof {
                        assert(live(self.tubes@, i));
                        assert forall|p: (ConnId, TubeId)| #[trigger]
                            all@.contains(p) <==> p.1 < i + 1 && queue_pairs(
                                self.tubes@,
                            ).contains(p) by {
                            if p.1 == i {
                                if queue_pairs(self.tubes@).contains(p) {
                                    assert(f[f.index_of(p.0)] == p.0);
                                }
                            }
                        }
                    }
                },
                None => {
                    assert(!live(self.tubes@, i));
                },
            }
            i = i + 1;
        }
        assert(all@ =~= queue_pairs(self.tubes@));
        all
    }

    /// The connections that wait, each with a tube that it watches.
    fn wait_set(&self) -> (r: BTreeSet<(ConnId, TubeId)>)
        ensures
            r@ == wait_pairs(self.cv()),
    {
        broadcast use {crate::ordset::group_ordered, vstd::std_specs::btree::group_btree_axioms};

        let keys: Vec<ConnId> = keys_of(&self.conns);
        let n: usize = keys.len();
        let mut all: BTreeSet<(ConnId, TubeId)> = BTreeSet::new();
        let mut i: usize = 0;
        while i < n
            invariant
                i <= n,
                n == keys@.len(),
                keys@.to_set() == self.conns@.dom(),
                forall|a: int, b: int| 0 <= a < b < keys@.len() ==> keys@[a] < keys@[b],
                forall|p: (ConnId, TubeId)| #[trigger]
                    all@.contains(p) <==> wait_pairs(self.cv()).contains(p) && keys@.take(
                        i as int,
                    ).contains(p.0),
            decreases n - i,
        {
            let ghost before = all@;
            let c: ConnId = keys[i];
            proof {
                assert(keys@.to_set().contains(keys@[i as int]));
                assert(self.conns@.contains_key(c));
                let now = keys@.take(i + 1);
                let was = keys@.take(i as int);
                assert forall|k: ConnId| now.contains(k) == (was.contains(k) || k == c) by {
                    if was.contains(k) {
                        assert(now[was.index_of(k)] == k);
                    }
                    assert(now[i as int] == c);
                    if now.contains(k) && k != c {
                        assert(was[now.index_of(k)] == k);
                    }
                }
                assert(!was.contains(c));
            }
            match self.conns.get(&c) {
                Some(x) => {
                    let ghost f = x.watch@.items;
                    assert(self.cv()[c] == x@);
                    let m: usize = if x.waiting {
                        x.watch.items.len()
                    } else {
                        0
                    };
                    let mut k: usize = 0;
                    while k < m
                        invariant
                            k <= m,
                            f == x.watch@.items,
                            m <= f.len(),
                            forall|p: (ConnId, TubeId)| #[trigger]
                                all@.contains(p) <==> before.contains(p) || (p.0 == c && exists|
                                    b: int,
                                |
                                    0 <= b < k && #[trigger] f[b] == p.1),
                        decreases m - k,
                    {
                        let ghost all0 = all@;
                        let t: TubeId = x.watch.items[k];
                        let _ = all.insert((c, t));
                        proof {
                            assert(f[k as int] == t);
                            assert forall|p: (ConnId, TubeId)| #[trigger]
                                all@.contains(p) <==> before.contains(p) || (p.0 == c && exists|
                                    b: int,
                                |
                                    0 <= b < k + 1 && #[trigger] f[b] == p.1) by {
                                assert(all@.contains(p) == (all0.contains(p) || p == (c, t)));
                                if p.0 == c && exists|b: int| 0 <= b < k + 1 && #[trigger] f[b] == p.1
                                {
                                    let b = choose|b: int|
                                        0 <= b < k + 1 && #[trigger] f[b] == p.1;
                                    if b == k {
                                        assert(p == (c, t));
                                    }
                                }
                            }
                        }
                        k = k + 1;
                    }
                    proof {
                        assert forall|p: (ConnId, TubeId)| #[trigger]
                            all@.contains(p) <==> wait_pairs(self.cv()).contains(p) && keys@.take(
                                i + 1,
                            ).contains(p.0) by {
                            if p.0 == c {
                                if wait_pairs(self.cv()).contains(p) {
                                    assert(f[f.index_of(p.1)] == p.1);
                                }
                            }
                        }
                    }
                },
                None => {
                    assert(false);
                },
            }
            i = i + 1;
        }
        assert(all@ =~= wait_pairs(self.cv())) by {
            assert forall|p: (ConnId, TubeId)| wait_pairs(self.cv()).contains(p) implies keys@.take(
                i as int,
            ).contains(p.0) by {
                assert(keys@.to_set().contains(p.0));
                assert(keys@.take(i as int) =~= keys@);
            }
        }
        all
    }
}

} // verus!
