//! An engine that is as it should be has no fault.

use super::check::{free_slots, lemma_free_slots};
use super::check_conns::{conn_sound, reserved_for};
use super::check_queues::{queue_pairs, queued, tube_sound, wait_pairs};
use super::faults::{
    buried_jobs, held_jobs, pending, waits_on, ConnFault, ConnsFault, Fault, HeldFault, JobFault,
    SlabFault, SumFault, TubeFault,
};
use super::Engine;
use crate::api::ConnId;
use crate::inv::{at, live};
use crate::model::{JobState, TubeId};
use crate::proto::JobId;
use vstd::prelude::*;

verus! {

impl Engine {
    /// Where the tubes are laid out as they should be, nothing is wrong with that.
    proof fn lemma_no_slab_fault(&self, g: SlabFault)
        requires
            self.laid_out(),
        ensures
            !g.upsets(self.parts()),
    {
        let (tubes, free) = (self.tubes@, self.free_tube_ids@);
        match g {
            SlabFault::NotMapped { name, tube } => {
                if live(tubes, tube) {
                    let i = choose|i: int|
                        0 <= i < self.tube_ids@.len() && (#[trigger] self.tube_ids@[i]).1 == tube;
                    assert(self.tube_ids@[i].1 == tube);
                }
            },
            SlabFault::FreeCount { entries, slots } => {
                assert(self.tubes.len() == tubes.len());
                lemma_free_slots(tubes);
                assert(free.to_set() =~= free_slots(tubes)) by {
                    assert forall|t: TubeId| free.contains(t) == free_slots(tubes).contains(t) by {
                        if t < tubes.len() && !live(tubes, t) {
                            assert(free.contains(t));
                        }
                    }
                }
                free.unique_seq_to_set();
            },
            SlabFault::FreeWrong { index, tube } => {
                if index < free.len() {
                    assert(free.contains(free[index as int]));
                }
            },
            _ => {},
        }
    }

    /// A connection that is sound has no fault.
    proof fn lemma_no_conn_fault(&self, g: ConnFault, c: ConnId)
        requires
            self.sound(),
            self.listed(),
        ensures
            !g.upsets(self.parts(), c),
    {
        if self.conns@.contains_key(c) {
            let x = self.conns@[c];
            assert(conn_sound(x, c, self.next_job_id, self.tubes@, self.jv()));
            match g {
                ConnFault::PendingShared { id } => {
                    if pending(x, id) && self.given_before(c, id) {
                        let b = choose|b: ConnId|
                            b < c && #[trigger] self.conns@.contains_key(b) && pending(
                                self.conns@[b],
                                id,
                            );
                        assert(self.cv()[b] == self.conns@[b]@);
                        assert(self.cv()[c] == x@);
                    }
                },
                ConnFault::ListsDiffer => {
                    self.lemma_one_size(x, c);
                },
                _ => {},
            }
        }
    }

    /// Where the counts of connections and the index of ticks are right, nothing
    /// is wrong with that.
    proof fn lemma_no_conns_fault(&self, g: ConnsFault)
        requires
            self.counted(),
        ensures
            !g.upsets(self.parts()),
    {
        assert(self.cv().dom() =~= self.conns@.dom());
    }

    /// A job that is sound has no fault.
    proof fn lemma_no_job_fault(&self, g: JobFault, id: JobId)
        requires
            self.sound(),
            self.listed(),
        ensures
            !g.upsets(self.parts(), id),
    {
        if self.jv().contains_key(id) {
            assert(self.job_sound(id));
            assert(queued(self.jv(), self.tubes@, id));
        }
    }

    /// Where every reserved job is listed and counted, nothing is wrong with
    /// that.
    proof fn lemma_no_held_fault(&self, g: HeldFault)
        requires
            self.sound(),
            self.listed(),
            self.counted(),
        ensures
            !g.upsets(self.parts()),
    {
        assert forall|id: JobId| #[trigger]
            self.jv().contains_key(id) && self.jv()[id].state == JobState::Reserved implies
        held_jobs(self.conns@).contains(id) by {
            assert(self.job_sound(id));
            assert(reserved_for(self.jv(), id, self.jv()[id].reserver->0));
        }
    }

    /// A tube that is sound, and counted as it should be, has no fault.
    proof fn lemma_no_tube_fault(&self, g: TubeFault, t: TubeId)
        requires
            self.sound(),
            self.listed(),
            self.counted(),
        ensures
            !g.upsets(self.parts(), t),
    {
        if live(self.tubes@, t) {
            let x = at(self.tubes@, t);
            assert(tube_sound(x, t, self.jv()));
            match g {
                TubeFault::NotWaiting { index, conn } => {
                    self.lemma_waits(conn, t);
                    let f = x.waiting_conns@.items;
                    if index < f.len() && f[index as int] == conn {
                        assert(queue_pairs(self.tubes@).contains((conn, t)));
                        assert(wait_pairs(self.cv()).contains((conn, t)));
                    }
                },
                TubeFault::MissesWaiting => {
                    assert forall|c: ConnId| #[trigger] waits_on(self.conns@, c, t) implies
                        x.waiting_conns@.items.contains(c) by {
                        self.lemma_waits(c, t);
                        assert(queue_pairs(self.tubes@).contains((c, t)));
                    }
                },
                TubeFault::Unreferenced => {
                    if t != 0 {
                        assert(self@.referenced(t));
                    }
                },
                _ => {},
            }
        }
    }

    /// Where every buried job is listed, and all counts and indexes are right,
    /// nothing is wrong with that.
    proof fn lemma_no_sum_fault(&self, g: SumFault)
        requires
            self.sound(),
            self.listed(),
            self.counted(),
        ensures
            !g.upsets(self.parts()),
    {
        assert forall|id: JobId| #[trigger]
            self.jv().contains_key(id) && self.jv()[id].state == JobState::Buried implies
        buried_jobs(self.tubes@).contains(id) by {
            assert(self.job_sound(id));
            assert(queued(self.jv(), self.tubes@, id));
            assert(live(self.tubes@, self.jv()[id].tube));
        }
    }

    /// An engine that is as it should be has no fault.
    pub(super) proof fn lemma_no_fault(&self)
        requires
            self.laid_out(),
            self.sound(),
            self.listed(),
            self.counted(),
        ensures
            forall|g: Fault| !(#[trigger] g.upsets(self.parts())),
    {
        assert forall|g: Fault| !(#[trigger] g.upsets(self.parts())) by {
            match g {
                Fault::Slab(what) => self.lemma_no_slab_fault(what),
                Fault::Conn { conn, what } => self.lemma_no_conn_fault(what, conn),
                Fault::Conns(what) => self.lemma_no_conns_fault(what),
                Fault::Job { id, what } => self.lemma_no_job_fault(what, id),
                Fault::Held(what) => self.lemma_no_held_fault(what),
                Fault::Tube { tube, what } => self.lemma_no_tube_fault(what, tube),
                Fault::Sum(what) => self.lemma_no_sum_fault(what),
                _ => {},
            }
        }
    }
}

} // verus!
