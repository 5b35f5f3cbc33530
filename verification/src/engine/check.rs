//! Checking that data from outside is consistent.

use super::check_conns::{conn_sound, lists_own, reserved_for};
use super::check_counts::counts_sound;
use super::check_queues::{queue_pairs, queued, tube_sound, wait_pairs};
use super::tubes::name_position;
use super::faults::{in_state, live_count, Fault, JobFault, SlabFault};
use super::state::names_ascend;
use super::{tallies_ok, Engine};
use crate::api::{ConnId, Nanos};
use crate::inv::{
    at, conn_jobs_ok, conn_ok, default_ok, dispatchable_of, free_ok, heads_of, job_ok, live,
    names_ok, order_ok, pauses_of, pending_ok, ticks_of, tube_ok,
};
use crate::model::{JobRec, JobState, TubeId, TubeState};
use crate::ordset::keys_of;
use crate::proto::{JobId, TubeName};
use crate::rules::{delayed_set, ready_set, reserved_set};
use crate::settle::{anchored, quiet, watching};
use crate::text::{bytes_lt, bytes_lt_is_a_strict_order};
use std::collections::BTreeSet;
use vstd::prelude::*;

verus! {

/// The slots that hold no tube.
pub(super) open spec fn free_slots(tubes: Seq<Option<TubeState>>) -> Set<TubeId> {
    Set::new(|t: TubeId| t < tubes.len() && !live(tubes, t))
}

/// A slot that holds no tube is one of those that are left.
pub(super) proof fn lemma_free_slots(tubes: Seq<Option<TubeState>>)
    requires
        tubes.len() <= usize::MAX,
    ensures
        free_slots(tubes).finite(),
        free_slots(tubes).len() == tubes.len() - live_count(tubes),
    decreases tubes.len(),
{
    if tubes.len() == 0 {
        assert(free_slots(tubes) =~= Set::empty());
    } else {
        let rest = tubes.drop_last();
        let last = (tubes.len() - 1) as usize;
        lemma_free_slots(rest);
        if tubes.last() is Some {
            assert(free_slots(tubes) =~= free_slots(rest));
        } else {
            assert(free_slots(tubes) =~= free_slots(rest).insert(last));
        }
    }
}

/// Whether `seen` is what stands in the first `k` entries of `s`, each once.
pub(super) open spec fn looked_at<T>(seen: Set<T>, s: Seq<T>, k: int) -> bool {
    &&& forall|x: T| #[trigger]
        seen.contains(x) <==> exists|a: int| 0 <= a < k && #[trigger] s[a] == x
    &&& forall|a: int, b: int| #![trigger s[a], s[b]] 0 <= a < b < k ==> s[a] != s[b]
}

impl Engine {
    /// What holds of the job stored under `id` by itself.
    pub(super) open spec fn job_sound(&self, id: JobId) -> bool {
        &&& job_ok(self.jv()[id], id, self.next_job_id, self.tubes@, self.cv())
        &&& self.jv()[id].state != JobState::Buried ==> queued(self.jv(), self.tubes@, id)
    }

    /// Whether slot `tid` holds a tube.
    fn is_live(&self, tid: TubeId) -> (r: bool)
        ensures
            r == live(self.tubes@, tid),
    {
        tid < self.tubes.len() && self.tubes[tid].is_some()
    }

    /// Checks that tube 0 is "default", first in the list.
    fn check_default(&self) -> (r: Result<(), SlabFault>)
        ensures
            r is Ok <==> default_ok(self.tubes@),
            r is Ok ==> SlabFault::clear_below(self.parts(), 3),
            r is Err ==> (r->Err_0).first_in(self.parts()),
    {
        if self.tubes.len() == 0 {
            return Err(SlabFault::NoDefault);
        }
        match &self.tubes[0] {
            Some(t) => {
                if !t.name.same(&TubeName::default_tube()) {
                    return Err(SlabFault::DefaultName { name: t.name.clone() });
                }
                if t.pos != 0 {
                    return Err(SlabFault::DefaultPlace);
                }
                Ok(())
            },
            None => Err(SlabFault::NoDefault),
        }
    }

    /// How many slots hold a tube.
    fn count_live(&self) -> (r: usize)
        ensures
            r == live_count(self.tubes@),
            r <= self.tubes@.len(),
    {
        let n: usize = self.tubes.len();
        let mut r: usize = 0;
        let mut i: usize = 0;
        assert(self.tubes@.take(0) =~= Seq::empty());
        while i < n
            invariant
                i <= n,
                n == self.tubes@.len(),
                r == live_count(self.tubes@.take(i as int)),
                r <= i,
            decreases n - i,
        {
            assert(self.tubes@.take(i + 1).drop_last() =~= self.tubes@.take(i as int));
            if self.tubes[i].is_some() {
                r = r + 1;
            }
            i = i + 1;
        }
        assert(self.tubes@.take(n as int) =~= self.tubes@);
        r
    }

    /// Whether the index of names leads to tube `t`.
    spec fn mapped(&self, t: TubeId) -> bool {
        exists|k: int|
            0 <= k < self.tube_ids@.len() && (#[trigger] self.tube_ids@[k]).0@ == at(
                self.tubes@,
                t,
            ).name@ && self.tube_ids@[k].1 == t
    }

    /// Whether the list names tube `t` at its position.
    spec fn placed(&self, t: TubeId) -> bool {
        let o = self.tube_order@.items;
        at(self.tubes@, t).pos < o.len() && o[at(self.tubes@, t).pos as int] == t
    }

    /// Checks for each tube that the index of names leads to it and that the list
    /// names it at its position.
    fn check_slots(&self) -> (r: Result<(), SlabFault>)
        requires
            names_ascend(self.tube_ids@),
            SlabFault::clear_below(self.parts(), 3),
        ensures
            r is Ok ==> forall|t: TubeId| #[trigger]
                live(self.tubes@, t) ==> self.mapped(t) && self.placed(t),
            r is Ok ==> SlabFault::clear_below(self.parts(), 4),
            r is Err ==> (r->Err_0).first_in(self.parts()),
    {
        let ghost names = self.tube_ids@;
        let n: usize = self.tubes.len();
        let m: usize = self.tube_order.items.len();
        let mut i: usize = 0;
        while i < n
            invariant
                i <= n,
                n == self.tubes@.len(),
                m == self.tube_order@.items.len(),
                names == self.tube_ids@,
                names_ascend(names),
                SlabFault::clear_below(self.parts(), 3),
                forall|t: TubeId|
                    t < i && #[trigger] live(self.tubes@, t) ==> self.mapped(t) && self.placed(t),
            decreases n - i,
        {
            match &self.tubes[i] {
                Some(t) => {
                    assert(live(self.tubes@, i));
                    let p: usize = name_position(&self.tube_ids, &t.name);
                    if p >= self.tube_ids.len() || !self.tube_ids[p].0.same(&t.name)
                        || self.tube_ids[p].1 != i {
                        proof {
                            assert forall|k: int| 0 <= k < names.len() implies !((
                            #[trigger] names[k]).0@ == t.name@ && names[k].1 == i) by {
                                bytes_lt_is_a_strict_order(t.name@, t.name@, t.name@);
                                if k < p {
                                    assert(bytes_lt(names[k].0@, t.name@));
                                } else if k > p {
                                    assert(bytes_lt(names[p as int].0@, names[k].0@));
                                }
                            }
                        }
                        return Err(SlabFault::NotMapped { name: t.name.clone(), tube: i });
                    }
                    assert(names[p as int].1 == i);
                    assert(self.mapped(i));
                    if t.pos >= m || self.tube_order.items[t.pos] != i {
                        return Err(SlabFault::NotPlaced { tube: i, pos: t.pos });
                    }
                },
                None => {},
            }
            i = i + 1;
        }
        Ok(())
    }

    /// Checks that the index of names has no other entries.
    fn check_names(&self) -> (r: Result<(), SlabFault>)
        requires
            names_ascend(self.tube_ids@),
            forall|t: TubeId| #[trigger] live(self.tubes@, t) ==> self.mapped(t),
            SlabFault::clear_below(self.parts(), 4),
        ensures
            r is Ok ==> names_ok(self.tubes@, self.tube_ids@),
            r is Ok ==> SlabFault::clear_below(self.parts(), 5),
            r is Err ==> (r->Err_0).first_in(self.parts()),
    {
        let ghost names = self.tube_ids@;
        let m: usize = self.tube_ids.len();
        let mut k: usize = 0;
        while k < m
            invariant
                k <= m,
                m == names.len(),
                names == self.tube_ids@,
                SlabFault::clear_below(self.parts(), 4),
                forall|i: int|
                    0 <= i < k ==> live(self.tubes@, (#[trigger] names[i]).1) && at(
                        self.tubes@,
                        names[i].1,
                    ).name@ == names[i].0@,
            decreases m - k,
        {
            let tid: TubeId = self.tube_ids[k].1;
            assert(names[k as int].1 == tid);
            let named = if tid < self.tubes.len() {
                match &self.tubes[tid] {
                    Some(t) => t.name.same(&self.tube_ids[k].0),
                    None => false,
                }
            } else {
                false
            };
            if !named {
                return Err(SlabFault::NameCount { entries: m, tubes: self.count_live() });
            }
            k = k + 1;
        }
        Ok(())
    }

    /// Checks that the list has no other entries.
    fn check_order(&self) -> (r: Result<(), SlabFault>)
        requires
            forall|t: TubeId| #[trigger] live(self.tubes@, t) ==> self.placed(t),
            SlabFault::clear_below(self.parts(), 5),
        ensures
            r is Ok ==> order_ok(self.tubes@, self.tube_order@.items),
            r is Ok ==> SlabFault::clear_below(self.parts(), 6),
            r is Err ==> (r->Err_0).first_in(self.parts()),
    {
        let m: usize = self.tube_order.items.len();
        let ghost o = self.tube_order@.items;
        let mut k: usize = 0;
        while k < m
            invariant
                k <= m,
                m == o.len(),
                o == self.tube_order@.items,
                SlabFault::clear_below(self.parts(), 5),
                forall|j: int|
                    0 <= j < k ==> live(self.tubes@, #[trigger] o[j]) && at(self.tubes@, o[j]).pos
                        == j,
            decreases m - k,
        {
            let tid: TubeId = self.tube_order.items[k];
            assert(o[k as int] == tid);
            let placed = if tid < self.tubes.len() {
                match &self.tubes[tid] {
                    Some(t) => t.pos == k,
                    None => false,
                }
            } else {
                false
            };
            if !placed {
                return Err(SlabFault::ListCount { entries: m, tubes: self.count_live() });
            }
            k = k + 1;
        }
        Ok(())
    }

    /// Checks that the free list names each free slot once.
    fn check_free(&self) -> (r: Result<(), SlabFault>)
        requires
            SlabFault::clear_below(self.parts(), 6),
        ensures
            r is Ok ==> free_ok(self.tubes@, self.free_tube_ids@),
            r is Ok ==> SlabFault::clear_below(self.parts(), 8),
            r is Err ==> (r->Err_0).first_in(self.parts()),
    {
        broadcast use {crate::ordset::group_ordered, vstd::std_specs::btree::group_btree_axioms};

        let ghost f = self.free_tube_ids@;
        let m: usize = self.free_tube_ids.len();
        let slots: usize = self.tubes.len() - self.count_live();
        if m != slots {
            return Err(SlabFault::FreeCount { entries: m, slots });
        }
        let mut seen: BTreeSet<TubeId> = BTreeSet::new();
        let mut k: usize = 0;
        while k < m
            invariant
                k <= m,
                m == f.len(),
                f == self.free_tube_ids@,
                m == self.tubes@.len() - live_count(self.tubes@),
                SlabFault::clear_below(self.parts(), 6),
                forall|j: int|
                    0 <= j < k ==> (#[trigger] f[j]) < self.tubes@.len() && !live(
                        self.tubes@,
                        f[j],
                    ),
                looked_at(seen@, f, k as int),
            decreases m - k,
        {
            let tid: TubeId = self.free_tube_ids[k];
            assert(f[k as int] == tid);
            if tid >= self.tubes.len() || self.is_live(tid) {
                return Err(SlabFault::FreeWrong { index: k, tube: tid });
            }
            if !seen.insert(tid) {
                return Err(SlabFault::FreeTwice { index: k, tube: tid });
            }
            k = k + 1;
        }
        proof {
            lemma_free_slots(self.tubes@);
            f.unique_seq_to_set();
            assert(f.to_set().subset_of(free_slots(self.tubes@))) by {
                assert forall|t: TubeId| f.to_set().contains(t) implies free_slots(
                    self.tubes@,
                ).contains(t) by {
                    assert(f[f.index_of(t)] == t);
                }
            }
            vstd::set_lib::lemma_subset_equality(f.to_set(), free_slots(self.tubes@));
            assert forall|t: TubeId| t < self.tubes@.len() && !(#[trigger] live(
                self.tubes@,
                t,
            )) implies f.contains(t) by {
                assert(free_slots(self.tubes@).contains(t));
                assert(f.to_set().contains(t));
            }
            assert forall|t: TubeId| #[trigger] f.contains(t) implies t < self.tubes@.len()
                && !live(self.tubes@, t) by {
                assert(f[f.index_of(t)] == t);
            }
        }
        Ok(())
    }

    /// Checks how the tubes are laid out, and the next number.
    fn check_slab(&self) -> (r: Result<(), SlabFault>)
        requires
            names_ascend(self.tube_ids@),
        ensures
            r is Ok ==> self.laid_out(),
            r is Ok ==> forall|g: SlabFault| !(#[trigger] g.upsets(self.parts())),
            r is Err ==> (r->Err_0).first_in(self.parts()),
    {
        match self.check_default() {
            Ok(()) => {},
            Err(f) => {
                return Err(f);
            },
        }
        match self.check_slots() {
            Ok(()) => {},
            Err(f) => {
                return Err(f);
            },
        }
        match self.check_names() {
            Ok(()) => {},
            Err(f) => {
                return Err(f);
            },
        }
        match self.check_order() {
            Ok(()) => {},
            Err(f) => {
                return Err(f);
            },
        }
        match self.check_free() {
            Ok(()) => {},
            Err(f) => {
                return Err(f);
            },
        }
        if self.next_job_id < 1 {
            return Err(SlabFault::NextZero);
        }
        Ok(())
    }

    /// Checks job `j`, stored under `id`.
    fn check_job(&self, j: &JobRec, id: JobId) -> (r: Result<(), JobFault>)
        requires
            self.jobs@.contains_key(id),
            self.jobs@[id] == *j,
        ensures
            r is Ok ==> self.job_sound(id),
            r is Ok ==> forall|g: JobFault| !(#[trigger] g.upsets(self.parts(), id)),
            r is Err ==> (r->Err_0).first_in(self.parts(), id),
    {
        broadcast use {crate::ordset::group_ordered, vstd::std_specs::btree::group_btree_axioms};

        assert(self.jv().contains_key(id));
        assert(self.jv()[id] == j@);
        if j.id != id {
            return Err(JobFault::StoredUnder { own: j.id });
        }
        if id >= self.next_job_id {
            return Err(JobFault::High { next: self.next_job_id });
        }
        if j.ttr < 1 {
            return Err(JobFault::NoTtr);
        }
        if !self.is_live(j.tube) {
            return Err(JobFault::NoTube { tube: j.tube });
        }
        if j.state == JobState::Reserved {
            match j.reserver {
                Some(c) => {
                    if !self.conns.contains_key(&c) {
                        return Err(JobFault::ReserverMissing { conn: c });
                    }
                },
                None => {
                    return Err(JobFault::NoReserver);
                },
            }
        } else if j.reserver.is_some() {
            return Err(JobFault::HasReserver);
        }
        match &self.tubes[j.tube] {
            Some(x) => match j.state {
                JobState::Ready => {
                    if !x.ready.contains(&(j.pri, id)) {
                        return Err(JobFault::ReadyUnlisted);
                    }
                },
                JobState::Delayed => {
                    if !x.delayed.contains(&(j.deadline_at, id)) {
                        return Err(JobFault::DelayedUnlisted);
                    }
                },
                _ => {},
            },
            None => {},
        }
        Ok(())
    }

    /// Checks every job.
    fn check_jobs(&self) -> (r: Result<(), Fault>)
        requires
            Fault::clear_before(self.parts(), 3),
        ensures
            r is Ok ==> forall|id: JobId| #[trigger]
                self.jv().contains_key(id) ==> self.job_sound(id),
            r is Ok ==> Fault::clear_before(self.parts(), 4),
            r is Err ==> (r->Err_0).first_in(self.parts()),
    {
        broadcast use {crate::ordset::group_ordered, vstd::std_specs::btree::group_btree_axioms};

        let keys: Vec<JobId> = keys_of(&self.jobs);
        let n: usize = keys.len();
        let mut i: usize = 0;
        while i < n
            invariant
                i <= n,
                n == keys@.len(),
                keys@.to_set() == self.jobs@.dom(),
                forall|a: int, b: int| 0 <= a < b < keys@.len() ==> keys@[a] < keys@[b],
                Fault::clear_before(self.parts(), 3),
                forall|k: int| 0 <= k < i ==> self.job_sound(#[trigger] keys@[k]),
                forall|k: int, g: JobFault|
                    #![trigger g.upsets(self.parts(), keys@[k])]
                    0 <= k < i ==> !g.upsets(self.parts(), keys@[k]),
            decreases n - i,
        {
            let id: JobId = keys[i];
            assert(keys@.to_set().contains(keys@[i as int]));
            assert(self.jv().contains_key(id));
            match self.jobs.get(&id) {
                Some(j) => match self.check_job(j, id) {
                    Ok(()) => {},
                    Err(what) => {
                        let f = Fault::Job { id, what };
                        proof {
                            assert forall|g: Fault| #[trigger]
                                g.upsets(self.parts()) implies !g.comes_before(f) by {
                                if let Fault::Job { id: k, what: w } = g {
                                    assert(self.jv().contains_key(k));
                                    assert(keys@.to_set().contains(k));
                                    let a = keys@.index_of(k);
                                    assert(keys@[a] == k);
                                    assert(w.upsets(self.parts(), keys@[a]));
                                }
                            }
                        }
                        return Err(f);
                    },
                },
                None => {},
            }
            i = i + 1;
        }
        proof {
            assert forall|id: JobId| #[trigger] self.jv().contains_key(id) implies self.job_sound(
                id,
            ) by {
                assert(keys@.to_set().contains(id));
                let k = keys@.index_of(id);
                assert(keys@[k] == id);
            }
            assert forall|g: Fault| #[trigger] g.upsets(self.parts()) implies g.part().0 >= 4 by {
                if let Fault::Job { id: k, what: w } = g {
                    assert(self.jv().contains_key(k));
                    assert(keys@.to_set().contains(k));
                    let a = keys@.index_of(k);
                    assert(keys@[a] == k);
                    assert(w.upsets(self.parts(), keys@[a]));
                }
            }
        }
        Ok(())
    }

    /// What connection `c` lists is what the jobs say, where every reserved job
    /// is listed.
    proof fn lemma_conn_listed(&self, c: ConnId)
        requires
            self.conns@.contains_key(c),
            lists_own(self.conns@[c], c, self.jv()),
            forall|id: JobId, c: ConnId| #[trigger]
                reserved_for(self.jv(), id, c) && self.conns@.contains_key(c)
                    ==> self.conns@[c].reserved_fifo@.contains(id),
        ensures
            conn_jobs_ok(self.conns@[c], c, self.jv()),
    {
        let x = self.conns@[c];
        let jv = self.jv();
        assert forall|id: JobId| #[trigger]
            x.reserved_fifo@.contains(id) <==> jv.contains_key(id) && jv[id].state
                == JobState::Reserved && jv[id].reserver == Some(c) by {
            if x.reserved_fifo@.contains(id) {
                assert(x.reserved_fifo@[x.reserved_fifo@.index_of(id)] == id);
                assert(reserved_for(jv, id, c));
            }
            if jv.contains_key(id) && jv[id].state == JobState::Reserved && jv[id].reserver
                == Some(c) {
                assert(reserved_for(jv, id, c));
            }
        }
        assert(x.reserved_by_deadline@ =~= reserved_set(jv, c)) by {
            assert forall|p: (Nanos, JobId)| reserved_set(jv, c).contains(p) implies
                x.reserved_by_deadline@.contains(p) by {
                assert(reserved_for(jv, p.1, c));
                assert(x.reserved_fifo@.contains(p.1));
                let i = x.reserved_fifo@.index_of(p.1);
                assert(x.reserved_fifo@[i] == p.1);
                assert(p == (jv[p.1].deadline_at, p.1));
            }
        }
    }

    /// A connection that is as it should be is sound by itself.
    proof fn lemma_conn_sound(&self, c: ConnId)
        requires
            self.conns@.contains_key(c),
            conn_ok(self.conns@[c], c, self.next_job_id, self.tubes@, self.jv()),
            self.conns@[c].watch@.items.len() > 0,
        ensures
            conn_sound(self.conns@[c], c, self.next_job_id, self.tubes@, self.jv()),
    {
        let x = self.conns@[c];
        let jv = self.jv();
        assert forall|i: int| 0 <= i < x.reserved_fifo@.len() implies reserved_for(
            jv,
            #[trigger] x.reserved_fifo@[i],
            c,
        ) by {
            assert(x.reserved_fifo@.contains(x.reserved_fifo@[i]));
        }
        assert forall|i: int| 0 <= i < x.reserved_fifo@.len() implies
            x.reserved_by_deadline@.contains(
            (jv[#[trigger] x.reserved_fifo@[i]].deadline_at, x.reserved_fifo@[i]),
        ) by {
            assert(reserved_for(jv, x.reserved_fifo@[i], c));
        }
    }

    /// What tube `t` lists is what the jobs and the connections say, where
    /// every job and every waiting connection is listed.
    proof fn lemma_tube_listed(&self, t: TubeId)
        requires
            live(self.tubes@, t),
            tube_sound(at(self.tubes@, t), t, self.jv()),
            counts_sound(at(self.tubes@, t), t, self.jv(), self.cv()),
            wait_pairs(self.cv()) == queue_pairs(self.tubes@),
            forall|id: JobId| #[trigger]
                self.jv().contains_key(id) ==> queued(self.jv(), self.tubes@, id),
        ensures
            tube_ok(at(self.tubes@, t), t, self.jv(), self.cv()),
    {
        let x = at(self.tubes@, t);
        let jv = self.jv();
        let cv = self.cv();
        assert(x.ready@ =~= ready_set(jv, t)) by {
            assert forall|p: (u32, JobId)| ready_set(jv, t).contains(p) implies x.ready@.contains(
                p,
            ) by {
                assert(queued(jv, self.tubes@, p.1));
                assert(p == (jv[p.1].pri, p.1));
            }
        }
        assert(x.delayed@ =~= delayed_set(jv, t)) by {
            assert forall|p: (Nanos, JobId)| delayed_set(jv, t).contains(p) implies
                x.delayed@.contains(p) by {
                assert(queued(jv, self.tubes@, p.1));
                assert(p == (jv[p.1].deadline_at, p.1));
            }
        }
        assert forall|id: JobId| #[trigger]
            x.buried@.contains(id) <==> jv.contains_key(id) && jv[id].state == JobState::Buried
                && jv[id].tube == t by {
            if x.buried@.contains(id) {
                assert(x.buried@[x.buried@.index_of(id)] == id);
                assert(in_state(jv, id, JobState::Buried, t));
            }
            if jv.contains_key(id) && jv[id].state == JobState::Buried && jv[id].tube == t {
                assert(queued(jv, self.tubes@, id));
            }
        }
        assert forall|c: ConnId| #[trigger]
            x.waiting_conns@.items.contains(c) <==> cv.contains_key(c) && cv[c].waiting
                && cv[c].watch.items.contains(t) by {
            assert(queue_pairs(self.tubes@).contains((c, t)) == wait_pairs(cv).contains((c, t)));
        }
    }

    /// A tube that is as it should be is sound by itself.
    proof fn lemma_tube_sound(&self, t: TubeId)
        requires
            live(self.tubes@, t),
            tube_ok(at(self.tubes@, t), t, self.jv(), self.cv()),
        ensures
            tube_sound(at(self.tubes@, t), t, self.jv()),
            counts_sound(at(self.tubes@, t), t, self.jv(), self.cv()),
    {
        let x = at(self.tubes@, t);
        let jv = self.jv();
        assert forall|i: int| 0 <= i < x.buried@.len() implies in_state(
            jv,
            #[trigger] x.buried@[i],
            JobState::Buried,
            t,
        ) by {
            assert(x.buried@.contains(x.buried@[i]));
        }
    }

    /// Where the tubes are as they should be, no job could be handed out at
    /// once exactly when every tube with both waiting connections and ready
    /// jobs is paused.
    proof fn lemma_paused(&self)
        requires
            forall|t: TubeId| #[trigger]
                live(self.tubes@, t) ==> tube_ok(at(self.tubes@, t), t, self.jv(), self.cv()),
        ensures
            quiet(self@) <==> forall|t: TubeId| #[trigger]
                live(self.tubes@, t) && at(self.tubes@, t).dispatchable ==> at(
                    self.tubes@,
                    t,
                ).pause > 0,
    {
        let jv = self.jv();
        if quiet(self@) {
            assert forall|t: TubeId| #[trigger]
                live(self.tubes@, t) && at(self.tubes@, t).dispatchable implies at(
                self.tubes@,
                t,
            ).pause > 0 by {
                let x = at(self.tubes@, t);
                assert(tube_ok(x, t, jv, self.cv()));
                if x.pause == 0 {
                    let p = x.ready@.choose();
                    assert(x.ready@.contains(p));
                    assert(ready_set(jv, t).contains(p));
                    assert(self@.tubes[t as int] == Some(x@));
                    assert(self@.awaited(p.1));
                }
            }
        }
        if forall|t: TubeId| #[trigger]
            live(self.tubes@, t) && at(self.tubes@, t).dispatchable ==> at(self.tubes@, t).pause
                > 0 {
            assert forall|id: JobId| !self@.awaited(id) by {
                if self@.awaited(id) {
                    let t = jv[id].tube;
                    assert(live(self.tubes@, t));
                    let x = at(self.tubes@, t);
                    assert(tube_ok(x, t, jv, self.cv()));
                    assert(self@.tubes[t as int] == Some(x@));
                    assert(ready_set(jv, t).contains((jv[id].pri, id)));
                }
            }
        }
    }

    /// Whether the tubes are laid out as they should be.
    pub(super) open spec fn laid_out(&self) -> bool {
        &&& default_ok(self.tubes@)
        &&& order_ok(self.tubes@, self.tube_order@.items)
        &&& free_ok(self.tubes@, self.free_tube_ids@)
        &&& names_ok(self.tubes@, self.tube_ids@)
        &&& self.next_job_id >= 1
    }

    /// Whether every job, connection and tube is sound by itself.
    pub(super) open spec fn sound(&self) -> bool {
        &&& forall|id: JobId| #[trigger] self.jv().contains_key(id) ==> self.job_sound(id)
        &&& forall|c: ConnId| #[trigger]
            self.conns@.contains_key(c) ==> conn_sound(
                self.conns@[c],
                c,
                self.next_job_id,
                self.tubes@,
                self.jv(),
            )
        &&& forall|t: TubeId| #[trigger]
            live(self.tubes@, t) ==> tube_sound(at(self.tubes@, t), t, self.jv())
    }

    /// Whether everything is listed where it belongs.
    pub(super) open spec fn listed(&self) -> bool {
        &&& pending_ok(self.cv())
        &&& forall|id: JobId, c: ConnId| #[trigger]
            reserved_for(self.jv(), id, c) && self.conns@.contains_key(c)
                ==> self.conns@[c].reserved_fifo@.contains(id)
        &&& forall|id: JobId| #[trigger]
            self.jv().contains_key(id) ==> queued(self.jv(), self.tubes@, id)
        &&& wait_pairs(self.cv()) == queue_pairs(self.tubes@)
    }

    /// Whether every counter and index is what counting and collecting gives.
    pub(super) open spec fn counted(&self) -> bool {
        &&& tallies_ok(self.tallies, self.jv(), self.cv())
        &&& self.tot_conns >= self.tallies.cur_conns
        &&& forall|t: TubeId| #[trigger]
            live(self.tubes@, t) ==> counts_sound(at(self.tubes@, t), t, self.jv(), self.cv())
        &&& forall|t: TubeId| #[trigger]
            live(self.tubes@, t) && t != 0 ==> self@.referenced(t)
        &&& self.conn_ticks@ == ticks_of(self.conns@)
        &&& self.delay_heads@ == heads_of(self.tubes@)
        &&& self.pauses@ == pauses_of(self.tubes@)
        &&& self.dispatchable@ == dispatchable_of(self.tubes@)
        &&& forall|t: TubeId| #[trigger]
            live(self.tubes@, t) && at(self.tubes@, t).dispatchable ==> at(self.tubes@, t).pause
                > 0
    }

    /// What the checks find, together, is all that holds between events.
    proof fn lemma_checked(&self)
        requires
            self.laid_out(),
            self.sound(),
            self.listed(),
            self.counted(),
        ensures
            self.valid(),
    {
        assert forall|t: TubeId| #[trigger] live(self.tubes@, t) implies tube_ok(
            at(self.tubes@, t),
            t,
            self.jv(),
            self.cv(),
        ) by {
            self.lemma_tube_listed(t);
        }
        assert forall|c: ConnId| #[trigger] self.conns@.contains_key(c) implies conn_ok(
            self.conns@[c],
            c,
            self.next_job_id,
            self.tubes@,
            self.jv(),
        ) by {
            assert(conn_sound(self.conns@[c], c, self.next_job_id, self.tubes@, self.jv()));
            self.lemma_conn_listed(c);
        }
        self.lemma_paused();
        assert(self.wf());
        assert(watching(self@)) by {
            assert forall|c: ConnId| #[trigger] self@.conns.contains_key(c) implies
                self@.conns[c].watch.items.len() > 0 by {
                assert(conn_sound(self.conns@[c], c, self.next_job_id, self.tubes@, self.jv()));
            }
        }
        assert(anchored(self@)) by {
            assert forall|u: TubeId| #[trigger] self@.live(u) && u != 0 implies self@.referenced(
                u,
            ) by {
                assert(live(self.tubes@, u));
            }
        }
    }

    /// Whatever holds between events, the checks find.
    proof fn lemma_found(&self)
        requires
            self.valid(),
        ensures
            self.laid_out(),
            self.sound(),
            self.listed(),
            self.counted(),
    {
        self.lemma_paused();
        assert forall|c: ConnId| #[trigger] self.conns@.contains_key(c) implies conn_sound(
            self.conns@[c],
            c,
            self.next_job_id,
            self.tubes@,
            self.jv(),
        ) by {
            assert(self@.conns.contains_key(c));
            assert(self@.conns[c] == self.conns@[c]@);
            self.lemma_conn_sound(c);
        }
        assert forall|t: TubeId| #[trigger] live(self.tubes@, t) implies tube_sound(
            at(self.tubes@, t),
            t,
            self.jv(),
        ) && counts_sound(at(self.tubes@, t), t, self.jv(), self.cv()) by {
            self.lemma_tube_sound(t);
        }
        assert forall|id: JobId, c: ConnId| #[trigger]
            reserved_for(self.jv(), id, c) && self.conns@.contains_key(c) implies
        self.conns@[c].reserved_fifo@.contains(id) by {
            assert(conn_ok(self.conns@[c], c, self.next_job_id, self.tubes@, self.jv()));
        }
        assert forall|id: JobId| #[trigger] self.jv().contains_key(id) implies queued(
            self.jv(),
            self.tubes@,
            id,
        ) by {
            let j = self.jv()[id];
            assert(job_ok(j, id, self.next_job_id, self.tubes@, self.cv()));
            assert(live(self.tubes@, j.tube));
            let x = at(self.tubes@, j.tube);
            assert(tube_ok(x, j.tube, self.jv(), self.cv()));
            if j.state == JobState::Ready {
                assert(ready_set(self.jv(), j.tube).contains((j.pri, id)));
            } else if j.state == JobState::Delayed {
                assert(delayed_set(self.jv(), j.tube).contains((j.deadline_at, id)));
            }
        }
        assert(wait_pairs(self.cv()) =~= queue_pairs(self.tubes@)) by {
            assert forall|p: (ConnId, TubeId)| wait_pairs(self.cv()).contains(p) == queue_pairs(
                self.tubes@,
            ).contains(p) by {
                if wait_pairs(self.cv()).contains(p) {
                    let x = self.conns@[p.0];
                    assert(conn_ok(x, p.0, self.next_job_id, self.tubes@, self.jv()));
                    let i = x.watch@.items.index_of(p.1);
                    assert(x.watch@.items[i] == p.1);
                    assert(live(self.tubes@, p.1));
                    assert(tube_ok(at(self.tubes@, p.1), p.1, self.jv(), self.cv()));
                    assert(at(self.tubes@, p.1).waiting_conns@.items.contains(p.0));
                }
                if queue_pairs(self.tubes@).contains(p) {
                    assert(tube_ok(at(self.tubes@, p.1), p.1, self.jv(), self.cv()));
                    assert(at(self.tubes@, p.1).waiting_conns@.items.contains(p.0));
                }
            }
        }
        assert forall|t: TubeId| #[trigger] live(self.tubes@, t) && t != 0 implies self@.referenced(
            t,
        ) by {
            assert(self@.live(t));
        }
    }

    /// Checks everything that the engine relies on, recomputing each index and
    /// each counter and comparing it with the stored value. What cannot be
    /// recomputed is taken as it is: the configuration, the figures of the log,
    /// how often each command ran, and other counts of past events. Of several
    /// faults, the one that is looked for first is told.
    pub(super) fn validate(&self) -> (r: Result<(), Fault>)
        requires
            names_ascend(self.tube_ids@),
        ensures
            r is Ok <==> self.valid(),
            r is Err ==> (r->Err_0).first_in(self.parts()),
    {
        proof {
            if self.valid() {
                self.lemma_found();
                self.lemma_no_fault();
            }
        }
        match self.check_slab() {
            Ok(()) => {},
            Err(what) => {
                let f = Fault::Slab(what);
                assert(f.upsets(self.parts()));
                return Err(f);
            },
        }
        assert(Fault::clear_before(self.parts(), 1));
        match self.check_each_conn() {
            Ok(()) => {},
            Err(f) => {
                return Err(f);
            },
        }
        match self.check_conns() {
            Ok(()) => {},
            Err(what) => {
                let f = Fault::Conns(what);
                assert(f.upsets(self.parts()));
                return Err(f);
            },
        }
        assert(Fault::clear_before(self.parts(), 3));
        match self.check_jobs() {
            Ok(()) => {},
            Err(f) => {
                return Err(f);
            },
        }
        match self.check_held() {
            Ok(()) => {},
            Err(what) => {
                let f = Fault::Held(what);
                assert(f.upsets(self.parts()));
                return Err(f);
            },
        }
        assert(Fault::clear_before(self.parts(), 5));
        match self.check_each_tube() {
            Ok(()) => {},
            Err(f) => {
                return Err(f);
            },
        }
        match self.check_sum() {
            Ok(()) => {},
            Err(what) => {
                let f = Fault::Sum(what);
                assert(f.upsets(self.parts()));
                return Err(f);
            },
        }
        proof {
            self.lemma_checked();
        }
        Ok(())
    }
}

} // verus!
