//! What connections use, watch and wait for.

use super::jobs::unclaimed;
use super::{tallies_ok, Engine, Tallies};
use crate::api::{ConnId, Nanos};
use crate::inv::{
    at, conn_ok, default_ok, dispatchable_of, flag_ok, free_ok, heads_of, job_ok, lemma_conns_bound,
    lemma_conns_insert, lemma_conns_remove, lemma_least_empty, lemma_tube_conns_frame, live,
    names_ok, order_ok, pauses_of, pending_ok, same_for_tubes, ticks_of, tube_conns_ok,
    tube_jobs_ok, tube_ok,
};
use crate::model::{ConnState, ConnView, PendingPut, TubeId, TubeState};
use crate::ms::{lemma_swap_remove, swap_remove, MsView};
use crate::proto::JobId;
use crate::rules::{count_conns, picked_conns, reserved_set, ConnSel, Model};
use vstd::prelude::*;

verus! {

/// What of a tube the connections do not decide.
pub(super) open spec fn same_but_conns(a: TubeState, b: TubeState) -> bool {
    b == (TubeState {
        waiting_conns: b.waiting_conns,
        using_ct: b.using_ct,
        watching_ct: b.watching_ct,
        stat: crate::model::TubeStat { waiting_ct: b.stat.waiting_ct, ..a.stat },
        dispatchable: b.dispatchable,
        ..a
    })
}

/// Connections with the same puts in flight.
pub(super) proof fn lemma_pending_same(a: Map<ConnId, ConnView>, b: Map<ConnId, ConnView>)
    requires
        pending_ok(a),
        forall|c: ConnId|
            #![trigger b[c]]
            b.contains_key(c) ==> a.contains_key(c) && a[c].pending_put == b[c].pending_put,
    ensures
        pending_ok(b),
{
    assert forall|x: ConnId, y: ConnId|
        #![trigger b[x], b[y]]
        x != y && b.contains_key(x) && b.contains_key(y) && b[x].pending_put is Some
            && b[y].pending_put is Some && b[x].pending_put->0.id is Some implies b[x].pending_put->0.id
        != b[y].pending_put->0.id by {
        assert(a[x].pending_put == b[x].pending_put);
        assert(a[y].pending_put == b[y].pending_put);
    }
}

impl Engine {
    /// All is well after connection `c` has changed, come or gone and the
    /// tubes have taken note.
    pub(super) proof fn lemma_conn_changed(self, old: Engine, c: ConnId)
        requires
            old.wf(),
            self.jobs@ == old.jobs@,
            self.next_job_id == old.next_job_id,
            self.free_tube_ids@ == old.free_tube_ids@,
            self.tube_ids@ == old.tube_ids@,
            self.tube_order@ == old.tube_order@,
            self.delay_heads@ == old.delay_heads@,
            self.pauses@ == old.pauses@,
            self.tubes@.len() == old.tubes@.len(),
            forall|u: TubeId|
                #![trigger live(self.tubes@, u)]
                #![trigger live(old.tubes@, u)]
                live(self.tubes@, u) == live(old.tubes@, u),
            forall|u: TubeId| #[trigger]
                live(self.tubes@, u) ==> same_but_conns(at(old.tubes@, u), at(self.tubes@, u))
                    && tube_conns_ok(at(self.tubes@, u), u, self.cv()) && flag_ok(
                    at(self.tubes@, u),
                ),
            self.dispatchable@ == dispatchable_of(self.tubes@),
            self.conns@.remove(c) == old.conns@.remove(c),
            self.conns@.contains_key(c) ==> conn_ok(
                self.conns@[c],
                c,
                old.next_job_id,
                old.tubes@,
                old.jv(),
            ),
            self.conns@.contains_key(c) || forall|id: JobId| #[trigger]
                old.jv().contains_key(id) ==> old.jv()[id].reserver != Some(c),
            pending_ok(self.cv()),
            tallies_ok(self.tallies, self.jv(), self.cv()),
            self.tot_conns >= self.tallies.cur_conns,
            self.conn_ticks@ == ticks_of(self.conns@),
        ensures
            self.wf(),
    {
        assert forall|k: ConnId| k != c implies (#[trigger] self.conns@.contains_key(k)
            <==> old.conns@.contains_key(k)) && (old.conns@.contains_key(k) ==> self.conns@[k]
            == old.conns@[k]) by {
            assert(self.conns@.remove(c).contains_key(k) == self.conns@.contains_key(k));
            assert(old.conns@.remove(c).contains_key(k) == old.conns@.contains_key(k));
            if old.conns@.contains_key(k) {
                assert(self.conns@.remove(c)[k] == self.conns@[k]);
                assert(old.conns@.remove(c)[k] == old.conns@[k]);
            }
        }
        assert forall|u: TubeId| #[trigger] live(self.tubes@, u) implies tube_ok(
            at(self.tubes@, u),
            u,
            self.jv(),
            self.cv(),
        ) by {
            assert(live(old.tubes@, u));
            assert(tube_jobs_ok(at(old.tubes@, u), u, old.jv()));
        }
        assert forall|id: JobId| #[trigger] self.jv().contains_key(id) implies job_ok(
            self.jv()[id],
            id,
            self.next_job_id,
            self.tubes@,
            self.cv(),
        ) by {
            assert(old.jv().contains_key(id));
            assert(live(old.tubes@, old.jv()[id].tube));
            if old.jv()[id].reserver is Some {
                let r = old.jv()[id].reserver->0;
                assert(old.conns@.contains_key(r));
            }
        }
        assert forall|k: ConnId| #[trigger] self.conns@.contains_key(k) implies conn_ok(
            self.conns@[k],
            k,
            self.next_job_id,
            self.tubes@,
            self.jv(),
        ) by {
            let x = self.conns@[k];
            if k != c {
                assert(old.conns@.contains_key(k));
            }
            assert(conn_ok(x, k, old.next_job_id, old.tubes@, old.jv()));
            assert(live(old.tubes@, x.use_tube));
            assert forall|i: int| 0 <= i < x.watch@.items.len() implies live(
                self.tubes@,
                #[trigger] x.watch@.items[i],
            ) by {
                assert(live(old.tubes@, x.watch@.items[i]));
            }
        }
        assert(default_ok(self.tubes@)) by {
            assert(live(old.tubes@, 0));
            assert(live(self.tubes@, 0));
        }
        assert(order_ok(self.tubes@, self.tube_order@.items)) by {
            assert forall|i: int| 0 <= i < self.tube_order@.items.len() implies live(
                self.tubes@,
                #[trigger] self.tube_order@.items[i],
            ) && at(self.tubes@, self.tube_order@.items[i]).pos == i by {
                assert(live(old.tubes@, old.tube_order@.items[i]));
            }
        }
        assert(free_ok(self.tubes@, self.free_tube_ids@)) by {
            assert forall|t: TubeId| t < self.tubes@.len() && !(#[trigger] live(
                self.tubes@,
                t,
            )) implies self.free_tube_ids@.contains(t) by {
                assert(!live(old.tubes@, t));
            }
        }
        assert(names_ok(self.tubes@, self.tube_ids@)) by {
            let n = self.tube_ids@;
            assert forall|i: int| 0 <= i < n.len() implies live(self.tubes@, (#[trigger] n[i]).1)
                && at(self.tubes@, n[i].1).name@ == n[i].0@ by {
                assert(live(old.tubes@, n[i].1));
            }
            assert forall|t: TubeId| #[trigger] live(self.tubes@, t) implies exists|i: int|
                0 <= i < n.len() && (#[trigger] n[i]).1 == t by {
                assert(live(old.tubes@, t));
            }
        }
        assert(self.delay_heads@ =~= heads_of(self.tubes@));
        assert(self.pauses@ =~= pauses_of(self.tubes@));
    }

    /// All is well after something of connection `c` has changed that no tube
    /// notices and that does not bear on when it needs attention.
    proof fn lemma_conn_noted(self, old: Engine, c: ConnId)
        requires
            old.wf(),
            self.jobs@ == old.jobs@,
            self.next_job_id == old.next_job_id,
            self.free_tube_ids@ == old.free_tube_ids@,
            self.tube_ids@ == old.tube_ids@,
            self.tube_order@ == old.tube_order@,
            self.delay_heads@ == old.delay_heads@,
            self.pauses@ == old.pauses@,
            self.tubes@ == old.tubes@,
            self.dispatchable@ == old.dispatchable@,
            self.conn_ticks@ == old.conn_ticks@,
            self.tot_conns == old.tot_conns,
            old.conns@.contains_key(c),
            self.conns@ == old.conns@.insert(c, self.conns@[c]),
            self.conns@[c] == (ConnState {
                is_producer: self.conns@[c].is_producer,
                is_worker: self.conns@[c].is_worker,
                pending_put: self.conns@[c].pending_put,
                ..old.conns@[c]
            }),
            self.conns@[c].pending_put is Some && self.conns@[c].pending_put->0.id is Some
                ==> self.conns@[c].pending_put->0.id->0 < old.next_job_id && !old.jv().contains_key(
                self.conns@[c].pending_put->0.id->0,
            ),
            pending_ok(self.cv()),
            self.tallies == (Tallies {
                cur_producers: self.tallies.cur_producers,
                cur_workers: self.tallies.cur_workers,
                ..old.tallies
            }),
            self.tallies.cur_producers == count_conns(self.cv(), ConnSel::Producer),
            self.tallies.cur_workers == count_conns(self.cv(), ConnSel::Worker),
        ensures
            self.wf(),
    {
        assert(conn_ok(old.conns@[c], c, old.next_job_id, old.tubes@, old.jv()));
        assert(same_for_tubes(old.cv(), self.cv())) by {
            assert(old.cv().dom() =~= self.cv().dom());
        }
        assert(picked_conns(old.cv(), ConnSel::Waiting) =~= picked_conns(
            self.cv(),
            ConnSel::Waiting,
        ));
        assert forall|u: TubeId| #[trigger] live(self.tubes@, u) implies tube_conns_ok(
            at(self.tubes@, u),
            u,
            self.cv(),
        ) by {
            lemma_tube_conns_frame(at(old.tubes@, u), u, old.cv(), self.cv());
        }
        assert(self.conns@.remove(c) =~= old.conns@.remove(c));
        assert(self.conn_ticks@ =~= ticks_of(self.conns@));
        self.lemma_conn_changed(old, c);
    }

    /// Notes that connection `cid` puts jobs.
    pub(super) fn connsetproducer(&mut self, cid: ConnId)
        requires
            old(self).wf(),
            old(self)@.conns.contains_key(cid),
        ensures
            final(self).host() == old(self).host(),
            final(self).wf(),
            final(self)@ == old(self)@.producer(cid),
    {
        broadcast use {crate::ordset::group_ordered, vstd::std_specs::btree::group_btree_axioms};

        let ghost conns = self.cv();
        assert(self.conns@.dom().finite());
        assert(conns.dom() =~= self.conns@.dom());
        if let Some(mut c) = self.conns.remove(&cid) {
            let ghost v = ConnView { is_producer: true, ..c@ };
            proof {
                lemma_conns_insert(conns, cid, v, ConnSel::Producer);
                lemma_conns_insert(conns, cid, v, ConnSel::Worker);
                lemma_conns_bound(conns.insert(cid, v), ConnSel::Producer);
                assert(conns.insert(cid, v).dom() =~= conns.dom());
            }
            if !c.is_producer {
                c.is_producer = true;
                self.tallies.cur_producers = self.tallies.cur_producers + 1;
            }
            let _ = self.conns.insert(cid, c);
            assert(self.conns@ =~= old(self).conns@.insert(cid, self.conns@[cid]));
            assert(self.cv() =~= conns.insert(cid, v));
        }
        proof {
            lemma_pending_same(conns, self.cv());
            self.lemma_conn_noted(*old(self), cid);
            assert(self@ =~= old(self)@.producer(cid));
        }
    }

    /// Notes that connection `cid` reserves jobs.
    pub(super) fn connsetworker(&mut self, cid: ConnId)
        requires
            old(self).wf(),
            old(self)@.conns.contains_key(cid),
        ensures
            final(self).host() == old(self).host(),
            final(self).wf(),
            final(self)@ == old(self)@.worker(cid),
    {
        broadcast use {crate::ordset::group_ordered, vstd::std_specs::btree::group_btree_axioms};

        let ghost conns = self.cv();
        assert(self.conns@.dom().finite());
        assert(conns.dom() =~= self.conns@.dom());
        if let Some(mut c) = self.conns.remove(&cid) {
            let ghost v = ConnView { is_worker: true, ..c@ };
            proof {
                lemma_conns_insert(conns, cid, v, ConnSel::Producer);
                lemma_conns_insert(conns, cid, v, ConnSel::Worker);
                lemma_conns_bound(conns.insert(cid, v), ConnSel::Worker);
                assert(conns.insert(cid, v).dom() =~= conns.dom());
            }
            if !c.is_worker {
                c.is_worker = true;
                self.tallies.cur_workers = self.tallies.cur_workers + 1;
            }
            let _ = self.conns.insert(cid, c);
            assert(self.conns@ =~= old(self).conns@.insert(cid, self.conns@[cid]));
            assert(self.cv() =~= conns.insert(cid, v));
        }
        proof {
            lemma_pending_same(conns, self.cv());
            self.lemma_conn_noted(*old(self), cid);
            assert(self@ =~= old(self)@.worker(cid));
        }
    }

    /// Notes the put that connection `cid` has in flight, and returns the one
    /// that it had.
    pub(super) fn set_pending(&mut self, cid: ConnId, p: Option<PendingPut>) -> (r: Option<
        PendingPut,
    >)
        requires
            old(self).wf(),
            old(self)@.conns.contains_key(cid),
            p is Some && p->0.id is Some ==> p->0.id->0 < old(self)@.next_job_id && !old(
                self,
            )@.jobs.contains_key(p->0.id->0) && unclaimed(old(self)@.conns, p->0.id->0),
        ensures
            final(self).host() == old(self).host(),
            final(self).wf(),
            r == old(self)@.conns[cid].pending_put,
            final(self)@ == old(self)@.with_conn(
                cid,
                ConnView { pending_put: p, ..old(self)@.conns[cid] },
            ),
    {
        broadcast use {crate::ordset::group_ordered, vstd::std_specs::btree::group_btree_axioms};

        let ghost conns = self.cv();
        assert(self.conns@.dom().finite());
        assert(conns.dom() =~= self.conns@.dom());
        let mut r: Option<PendingPut> = None;
        if let Some(mut c) = self.conns.remove(&cid) {
            let ghost v = ConnView { pending_put: p, ..c@ };
            proof {
                lemma_conns_insert(conns, cid, v, ConnSel::Producer);
                lemma_conns_insert(conns, cid, v, ConnSel::Worker);
            }
            r = c.pending_put;
            c.pending_put = p;
            let _ = self.conns.insert(cid, c);
            assert(self.conns@ =~= old(self).conns@.insert(cid, self.conns@[cid]));
            assert(self.cv() =~= conns.insert(cid, v));
        }
        proof {
            assert(pending_ok(self.cv())) by {
                let b = self.cv();
                assert forall|x: ConnId, y: ConnId|
                    #![trigger b[x], b[y]]
                    x != y && b.contains_key(x) && b.contains_key(y) && b[x].pending_put is Some
                        && b[y].pending_put is Some && b[x].pending_put->0.id is Some implies b[x].pending_put->0.id
                    != b[y].pending_put->0.id by {
                    assert(conns[x] == conns[x] && conns[y] == conns[y]);
                }
            }
            self.lemma_conn_noted(*old(self), cid);
            assert(self@ =~= old(self)@.with_conn(
                cid,
                ConnView { pending_put: p, ..old(self)@.conns[cid] },
            ));
        }
        r
    }

    /// Has connection `cid` use tube `tid`.
    pub(super) fn set_use(&mut self, cid: ConnId, tid: TubeId)
        requires
            old(self).wf(),
            old(self)@.conns.contains_key(cid),
            old(self)@.live(tid),
        ensures
            final(self).host() == old(self).host(),
            final(self).wf(),
            final(self)@ == old(self)@.with_conn(
                cid,
                ConnView { use_tube: tid, ..old(self)@.conns[cid] },
            ),
    {
        broadcast use {crate::ordset::group_ordered, vstd::std_specs::btree::group_btree_axioms};

        let ghost ca = self.cv();
        assert(self.conns@.dom().finite());
        assert(ca.dom() =~= self.conns@.dom());
        assert(self.conns@.contains_key(cid));
        assert(live(self.tubes@, tid));
        if let Some(mut c) = self.conns.remove(&cid) {
            let ghost v = ConnView { use_tube: tid, ..c@ };
            let ghost cb = ca.insert(cid, v);
            let from: TubeId = c.use_tube;
            assert(live(self.tubes@, from));
            proof {
                assert(cb.dom() =~= ca.dom());
                lemma_conns_insert(ca, cid, v, ConnSel::Uses(from));
                lemma_conns_insert(ca, cid, v, ConnSel::Uses(tid));
                lemma_conns_bound(cb, ConnSel::Uses(tid));
                lemma_conns_insert(ca, cid, v, ConnSel::Waiting);
                lemma_conns_insert(ca, cid, v, ConnSel::Producer);
                lemma_conns_insert(ca, cid, v, ConnSel::Worker);
            }
            if from != tid {
                if let Some(t) = &mut self.tubes[from] {
                    t.using_ct = t.using_ct - 1;
                }
                if let Some(t) = &mut self.tubes[tid] {
                    t.using_ct = t.using_ct + 1;
                }
            }
            c.use_tube = tid;
            let _ = self.conns.insert(cid, c);
            assert(self.conns@ =~= old(self).conns@.insert(cid, self.conns@[cid]));
            assert(self.cv() =~= cb);
            proof {
                assert forall|u: TubeId| #[trigger] live(self.tubes@, u) implies tube_conns_ok(
                    at(self.tubes@, u),
                    u,
                    cb,
                ) && same_but_conns(at(old(self).tubes@, u), at(self.tubes@, u)) && flag_ok(at(self.tubes@, u)) by {
                    assert(live(old(self).tubes@, u));
                    assert(tube_ok(at(old(self).tubes@, u), u, self.jv(), ca));
                    lemma_conns_insert(ca, cid, v, ConnSel::Uses(u));
                    lemma_conns_insert(ca, cid, v, ConnSel::Watches(u));
                }
            }
        }
        proof {
            lemma_pending_same(ca, self.cv());
            assert(self.conns@.remove(cid) =~= old(self).conns@.remove(cid));
            assert(conn_ok(old(self).conns@[cid], cid, self.next_job_id, old(self).tubes@, self.jv()));
            assert(self.conn_ticks@ =~= ticks_of(self.conns@));
            assert(self.dispatchable@ =~= dispatchable_of(self.tubes@));
            self.lemma_conn_changed(*old(self), cid);
            assert(self@ =~= old(self)@.with_conn(
                cid,
                ConnView { use_tube: tid, ..old(self)@.conns[cid] },
            ));
        }
    }

    /// Has connection `cid`, which is not waiting, watch tube `tid` too.
    pub(super) fn add_watch(&mut self, cid: ConnId, tid: TubeId)
        requires
            old(self).wf(),
            old(self)@.conns.contains_key(cid),
            !old(self)@.conns[cid].waiting,
            !old(self)@.conns[cid].watch.items.contains(tid),
            old(self)@.live(tid),
        ensures
            final(self).host() == old(self).host(),
            final(self).wf(),
            final(self)@ == old(self)@.with_conn(
                cid,
                ConnView {
                    watch: old(self)@.conns[cid].watch.append(tid),
                    ..old(self)@.conns[cid]
                },
            ),
    {
        broadcast use {crate::ordset::group_ordered, vstd::std_specs::btree::group_btree_axioms};

        let ghost ca = self.cv();
        assert(self.conns@.dom().finite());
        assert(ca.dom() =~= self.conns@.dom());
        assert(self.conns@.contains_key(cid));
        assert(live(self.tubes@, tid));
        if let Some(mut c) = self.conns.remove(&cid) {
            let ghost v = ConnView { watch: c@.watch.append(tid), ..c@ };
            let ghost cb = ca.insert(cid, v);
            let ghost w = c@.watch.items;
            proof {
                assert(cb.dom() =~= ca.dom());
                assert(v.watch.items[w.len() as int] == tid);
                lemma_conns_insert(ca, cid, v, ConnSel::Watches(tid));
                lemma_conns_bound(cb, ConnSel::Watches(tid));
                lemma_conns_insert(ca, cid, v, ConnSel::Waiting);
                lemma_conns_insert(ca, cid, v, ConnSel::Producer);
                lemma_conns_insert(ca, cid, v, ConnSel::Worker);
            }
            if let Some(t) = &mut self.tubes[tid] {
                t.watching_ct = t.watching_ct + 1;
            }
            c.watch.append(tid);
            let _ = self.conns.insert(cid, c);
            assert(self.conns@ =~= old(self).conns@.insert(cid, self.conns@[cid]));
            assert(self.cv() =~= cb);
            proof {
                assert forall|u: TubeId| v.watch.items.contains(u) == (w.contains(u) || u
                    == tid) by {
                    if w.contains(u) {
                        assert(v.watch.items[w.index_of(u)] == u);
                    }
                    if v.watch.items.contains(u) && u != tid {
                        assert(w[v.watch.items.index_of(u)] == u);
                    }
                }
                assert forall|u: TubeId| #[trigger] live(self.tubes@, u) implies tube_conns_ok(
                    at(self.tubes@, u),
                    u,
                    cb,
                ) && same_but_conns(at(old(self).tubes@, u), at(self.tubes@, u)) && flag_ok(at(self.tubes@, u)) by {
                    assert(live(old(self).tubes@, u));
                    assert(tube_ok(at(old(self).tubes@, u), u, self.jv(), ca));
                    lemma_conns_insert(ca, cid, v, ConnSel::Uses(u));
                    lemma_conns_insert(ca, cid, v, ConnSel::Watches(u));
                }
            }
        }
        proof {
            lemma_pending_same(ca, self.cv());
            assert(self.conns@.remove(cid) =~= old(self).conns@.remove(cid));
            assert(conn_ok(old(self).conns@[cid], cid, self.next_job_id, old(self).tubes@, self.jv()));
            assert(self.conn_ticks@ =~= ticks_of(self.conns@));
            assert(self.dispatchable@ =~= dispatchable_of(self.tubes@));
            self.lemma_conn_changed(*old(self), cid);
            assert(self@ =~= old(self)@.with_conn(
                cid,
                ConnView {
                    watch: old(self)@.conns[cid].watch.append(tid),
                    ..old(self)@.conns[cid]
                },
            ));
        }
    }

    /// Has connection `cid`, which is not waiting, watch the tube at `i` of its
    /// watch list no longer.
    pub(super) fn remove_watch(&mut self, cid: ConnId, i: usize) -> (tid: TubeId)
        requires
            old(self).wf(),
            old(self)@.conns.contains_key(cid),
            !old(self)@.conns[cid].waiting,
            i < old(self)@.conns[cid].watch.items.len(),
        ensures
            final(self).host() == old(self).host(),
            final(self).wf(),
            tid == old(self)@.conns[cid].watch.items[i as int],
            final(self)@ == old(self)@.with_conn(
                cid,
                ConnView {
                    watch: MsView {
                        items: swap_remove(old(self)@.conns[cid].watch.items, i as int),
                        ..old(self)@.conns[cid].watch
                    },
                    ..old(self)@.conns[cid]
                },
            ),
    {
        broadcast use {crate::ordset::group_ordered, vstd::std_specs::btree::group_btree_axioms};

        let ghost ca = self.cv();
        assert(self.conns@.dom().finite());
        assert(ca.dom() =~= self.conns@.dom());
        assert(self.conns@.contains_key(cid));
        let ghost w = ca[cid].watch.items;
        let ghost v = ConnView {
            watch: MsView { items: swap_remove(w, i as int), ..ca[cid].watch },
            ..ca[cid]
        };
        let ghost cb = ca.insert(cid, v);
        let taken = self.conns.remove(&cid);
        let mut c: ConnState = taken.unwrap();
        let tid: TubeId = c.watch.remove_at(i);
        assert(conn_ok(old(self).conns@[cid], cid, self.next_job_id, old(self).tubes@, self.jv()));
        assert(live(self.tubes@, tid));
        proof {
            assert(cb.dom() =~= ca.dom());
            lemma_swap_remove(w, i as int);
            assert(w.contains(tid));
            lemma_conns_insert(ca, cid, v, ConnSel::Watches(tid));
            lemma_conns_insert(ca, cid, v, ConnSel::Waiting);
            lemma_conns_insert(ca, cid, v, ConnSel::Producer);
            lemma_conns_insert(ca, cid, v, ConnSel::Worker);
        }
        if let Some(t) = &mut self.tubes[tid] {
            t.watching_ct = t.watching_ct - 1;
        }
        let _ = self.conns.insert(cid, c);
        assert(self.conns@ =~= old(self).conns@.insert(cid, self.conns@[cid]));
        assert(self.cv() =~= cb);
        proof {
            assert forall|u: TubeId| #[trigger] live(self.tubes@, u) implies tube_conns_ok(
                at(self.tubes@, u),
                u,
                cb,
            ) && same_but_conns(at(old(self).tubes@, u), at(self.tubes@, u)) && flag_ok(at(self.tubes@, u)) by {
                assert(live(old(self).tubes@, u));
                assert(tube_ok(at(old(self).tubes@, u), u, self.jv(), ca));
                lemma_conns_insert(ca, cid, v, ConnSel::Uses(u));
                lemma_conns_insert(ca, cid, v, ConnSel::Watches(u));
            }
            lemma_pending_same(ca, self.cv());
            assert(self.conns@.remove(cid) =~= old(self).conns@.remove(cid));
            let x = self.conns@[cid];
            assert forall|k: int| 0 <= k < x.watch@.items.len() implies live(
                old(self).tubes@,
                #[trigger] x.watch@.items[k],
            ) by {
                if k == i {
                    assert(live(old(self).tubes@, w[w.len() - 1]));
                } else {
                    assert(live(old(self).tubes@, w[k]));
                }
            }
            assert(self.conn_ticks@ =~= ticks_of(self.conns@));
            assert(self.dispatchable@ =~= dispatchable_of(self.tubes@));
            self.lemma_conn_changed(*old(self), cid);
            assert(self@ =~= old(self)@.with_conn(cid, v));
        }
        tid
    }

    /// Adds connection `cid`, which uses and watches "default".
    pub(super) fn add_conn(&mut self, cid: ConnId)
        requires
            old(self).wf(),
            !old(self)@.conns.contains_key(cid),
            old(self)@.tot_conns < u32::MAX,
        ensures
            final(self).host() == old(self).host(),
            final(self).wf(),
            final(self)@ == (Model {
                conns: old(self)@.conns.insert(cid, ConnView::fresh()),
                tot_conns: (old(self)@.tot_conns + 1) as u32,
                ..old(self)@
            }),
    {
        broadcast use {crate::ordset::group_ordered, vstd::std_specs::btree::group_btree_axioms};

        let ghost ca = self.cv();
        let ghost v = ConnView::fresh();
        let ghost cb = ca.insert(cid, v);
        let c = ConnState::new(0);
        proof {
            assert(self.conns@.dom().finite());
            assert(ca.dom() =~= self.conns@.dom());
            assert(cb.dom() =~= ca.dom().insert(cid));
            assert(live(self.tubes@, 0));
            assert(c@ =~= v);
            lemma_conns_bound(ca, ConnSel::Uses(0));
            lemma_conns_bound(ca, ConnSel::Watches(0));
            lemma_conns_insert(ca, cid, v, ConnSel::Waiting);
            lemma_conns_insert(ca, cid, v, ConnSel::Producer);
            lemma_conns_insert(ca, cid, v, ConnSel::Worker);
        }
        if let Some(t) = &mut self.tubes[0] {
            t.using_ct = t.using_ct + 1;
            t.watching_ct = t.watching_ct + 1;
        }
        let _ = self.conns.insert(cid, c);
        self.tallies.cur_conns = self.tallies.cur_conns + 1;
        self.tot_conns = self.tot_conns + 1;
        proof {
            assert(self.cv() =~= cb);
            assert(v.watch.items[0] == 0);
            assert forall|u: TubeId| #[trigger] v.watch.items.contains(u) <==> u == 0 by {
                assert(v.watch.items[0] == 0);
            }
            assert forall|u: TubeId| #[trigger] live(self.tubes@, u) implies tube_conns_ok(
                at(self.tubes@, u),
                u,
                cb,
            ) && same_but_conns(at(old(self).tubes@, u), at(self.tubes@, u)) && flag_ok(
                at(self.tubes@, u),
            ) by {
                assert(live(old(self).tubes@, u));
                assert(tube_ok(at(old(self).tubes@, u), u, self.jv(), ca));
                lemma_conns_insert(ca, cid, v, ConnSel::Uses(u));
                lemma_conns_insert(ca, cid, v, ConnSel::Watches(u));
            }
            assert forall|x: ConnId, y: ConnId|
                #![trigger cb[x], cb[y]]
                x != y && cb.contains_key(x) && cb.contains_key(y) && cb[x].pending_put is Some
                    && cb[y].pending_put is Some && cb[x].pending_put->0.id is Some implies cb[x].pending_put->0.id
                != cb[y].pending_put->0.id by {
                assert(ca[x] == cb[x] && ca[y] == cb[y]);
            }
            assert(self.conns@.remove(cid) =~= old(self).conns@.remove(cid));
            let x = self.conns@[cid];
            assert(forall|id: JobId|
                self.jv().contains_key(id) ==> self.jv()[id].reserver != Some(cid)) by {
                assert forall|id: JobId| self.jv().contains_key(id) implies self.jv()[id].reserver
                    != Some(cid) by {
                    assert(old(self).jv().contains_key(id));
                }
            }
            assert(x.reserved_by_deadline@ =~= reserved_set(self.jv(), cid));
            lemma_least_empty(x.reserved_by_deadline@);
            assert(conn_ok(x, cid, self.next_job_id, old(self).tubes@, self.jv()));
            assert(self.conn_ticks@ =~= ticks_of(self.conns@)) by {
                assert forall|p: (Nanos, ConnId)| self.conn_ticks@.contains(p) == ticks_of(
                    self.conns@,
                ).contains(p) by {
                    assert(old(self).conn_ticks@.contains(p) == ticks_of(
                        old(self).conns@,
                    ).contains(p));
                }
            }
            assert(self.dispatchable@ =~= dispatchable_of(self.tubes@));
            self.lemma_conn_changed(*old(self), cid);
            assert(self@.tubes =~= old(self)@.tubes);
            assert(self@ =~= (Model {
                conns: old(self)@.conns.insert(cid, ConnView::fresh()),
                tot_conns: (old(self)@.tot_conns + 1) as u32,
                ..old(self)@
            }));
        }
    }

    /// Drops connection `cid`, which neither waits, nor watches a tube, nor
    /// holds a job.
    pub(super) fn drop_conn(&mut self, cid: ConnId) -> (use_tube: TubeId)
        requires
            old(self).wf(),
            old(self)@.conns.contains_key(cid),
            !old(self)@.conns[cid].waiting,
            old(self)@.conns[cid].watch.items.len() == 0,
            old(self)@.conns[cid].reserved.len() == 0,
        ensures
            final(self).host() == old(self).host(),
            final(self).wf(),
            use_tube == old(self)@.conns[cid].use_tube,
            final(self)@ == (Model { conns: old(self)@.conns.remove(cid), ..old(self)@ }),
    {
        broadcast use {crate::ordset::group_ordered, vstd::std_specs::btree::group_btree_axioms};

        let ghost ca = self.cv();
        let ghost cb = ca.remove(cid);
        let ghost was = self.conns@[cid];
        proof {
            assert(self.conns@.contains_key(cid));
            assert(self.conns@.dom().finite());
            assert(ca.dom() =~= self.conns@.dom());
            assert(conn_ok(was, cid, self.next_job_id, self.tubes@, self.jv()));
            assert forall|id: JobId| #[trigger] self.jv().contains_key(id) implies self.jv()[id].reserver
                != Some(cid) by {
                assert(!was.reserved_fifo@.contains(id));
            }
            assert(was.reserved_by_deadline@ =~= Set::empty());
            lemma_least_empty(was.reserved_by_deadline@);
            lemma_conns_remove(ca, cid, ConnSel::Waiting);
            lemma_conns_remove(ca, cid, ConnSel::Producer);
            lemma_conns_remove(ca, cid, ConnSel::Worker);
            lemma_conns_remove(ca, cid, ConnSel::Uses(was.use_tube));
            assert(live(self.tubes@, was.use_tube));
        }
        let taken = self.conns.remove(&cid);
        let c: ConnState = taken.unwrap();
        let use_tube: TubeId = c.use_tube;
        if let Some(t) = &mut self.tubes[use_tube] {
            t.using_ct = t.using_ct - 1;
        }
        if c.is_producer {
            self.tallies.cur_producers = self.tallies.cur_producers - 1;
        }
        if c.is_worker {
            self.tallies.cur_workers = self.tallies.cur_workers - 1;
        }
        self.tallies.cur_conns = self.tallies.cur_conns - 1;
        proof {
            assert(self.cv() =~= cb);
            assert(cb.dom() =~= ca.dom().remove(cid));
            assert forall|u: TubeId| #[trigger] live(self.tubes@, u) implies tube_conns_ok(
                at(self.tubes@, u),
                u,
                cb,
            ) && same_but_conns(at(old(self).tubes@, u), at(self.tubes@, u)) && flag_ok(
                at(self.tubes@, u),
            ) by {
                assert(live(old(self).tubes@, u));
                assert(tube_ok(at(old(self).tubes@, u), u, self.jv(), ca));
                lemma_conns_remove(ca, cid, ConnSel::Uses(u));
                lemma_conns_remove(ca, cid, ConnSel::Watches(u));
            }
            lemma_pending_same(ca, cb);
            assert(self.conns@.remove(cid) =~= old(self).conns@.remove(cid));
            assert(self.conn_ticks@ =~= ticks_of(self.conns@));
            assert(self.dispatchable@ =~= dispatchable_of(self.tubes@));
            self.lemma_conn_changed(*old(self), cid);
            assert(self@.tubes =~= old(self)@.tubes);
            assert(self@ =~= (Model { conns: old(self)@.conns.remove(cid), ..old(self)@ }));
        }
        use_tube
    }
}

} // verus!
