//! A consistent engine is in order.

use super::Engine;
use crate::api::ConnId;
use crate::inv::{at, conn_ok, job_ok, live, tube_ok};
use crate::model::TubeId;
use crate::proto::JobId;
use crate::settle::{conns_in_order, jobs_in_order, orderly, tubes_in_order};
use crate::text::bytes_lt_is_a_strict_order;
use vstd::prelude::*;

verus! {

impl Engine {
    /// Whatever happened to an engine, everything in it is in order: each job
    /// stands in exactly one place, a reserved job's holder is connected, and
    /// the lists name what they should, once.
    pub proof fn engine_is_orderly(self)
        requires
            self.wf(),
        ensures
            orderly(self@),
    {
        let m = self@;
        assert forall|t: TubeId| #[trigger] m.live(t) implies live(self.tubes@, t) && tube_ok(
            at(self.tubes@, t),
            t,
            m.jobs,
            m.conns,
        ) && m.tube(t) == at(self.tubes@, t)@ by {
            assert(live(self.tubes@, t));
        }
        assert forall|t: TubeId| live(self.tubes@, t) implies #[trigger] m.live(t) by {}
        assert forall|id: JobId| #[trigger] m.jobs.contains_key(id) implies job_ok(
            m.jobs[id],
            id,
            m.next_job_id,
            self.tubes@,
            m.conns,
        ) by {
            assert(self.jv().contains_key(id));
        }
        assert forall|c: ConnId| #[trigger] m.conns.contains_key(c) implies conn_ok(
            self.conns@[c],
            c,
            m.next_job_id,
            self.tubes@,
            m.jobs,
        ) && m.conns[c] == self.conns@[c]@ by {
            assert(self.conns@.contains_key(c));
        }
        let o = m.order.items;
        assert forall|t: TubeId| #[trigger] o.contains(t) <==> m.live(t) by {
            if m.live(t) {
                assert(live(self.tubes@, t));
                assert(o[at(self.tubes@, t).pos as int] == t);
            }
            if o.contains(t) {
                let i = o.index_of(t);
                assert(live(self.tubes@, o[i]));
            }
        }
        assert(o.no_duplicates());
        assert forall|t: TubeId| #[trigger] m.free.contains(t) <==> t < m.tubes.len() && !m.live(
            t,
        ) by {
            assert(m.live(t) == live(self.tubes@, t));
        }
        assert(self.jobs@.dom().finite());
        assert(self.conns@.dom().finite());
        assert(m.jobs.dom() =~= self.jobs@.dom());
        assert(m.conns.dom() =~= self.conns@.dom());
        assert forall|id: JobId| #[trigger] m.jobs.contains_key(id) implies m.live(
            m.jobs[id].tube,
        ) by {
            assert(live(self.tubes@, m.jobs[id].tube));
        }
        assert(jobs_in_order(m));
        assert forall|t: TubeId, u: TubeId|
            #![trigger m.live(t), m.live(u)]
            m.live(t) && m.live(u) && m.tube(t).name == m.tube(u).name implies t == u by {
            let names = self.tube_ids@;
            assert(live(self.tubes@, t) && live(self.tubes@, u));
            let i = choose|i: int| 0 <= i < names.len() && (#[trigger] names[i]).1 == t;
            let j = choose|j: int| 0 <= j < names.len() && (#[trigger] names[j]).1 == u;
            bytes_lt_is_a_strict_order(names[i].0@, names[i].0@, names[i].0@);
        }
        assert(tubes_in_order(m));
        assert forall|c: ConnId| #[trigger] m.conns.contains_key(c) implies forall|t: TubeId|
            #[trigger] m.conns[c].watch.items.contains(t) ==> m.live(t) by {
            let w = self.conns@[c].watch@.items;
            assert forall|t: TubeId| #[trigger] w.contains(t) implies m.live(t) by {
                assert(live(self.tubes@, w[w.index_of(t)]));
            }
        }
        assert forall|c: ConnId| #[trigger] m.conns.contains_key(c) implies m.live(
            m.conns[c].use_tube,
        ) by {
            assert(live(self.tubes@, m.conns[c].use_tube));
        }
        assert(conns_in_order(m));
    }
}

} // verus!
