//! Connections that wait for a job, and the tubes that they wait on.

use super::conns::{lemma_pending_same, same_but_conns};
use super::jobs::{refresh_conn_tick, refresh_dispatchable, relisted};
use super::{Engine, Tallies};
use crate::api::{ConnId, Nanos};
use crate::inv::{
    at, conn_ok, dispatchable_of, flag_ok, lemma_conns_bound, lemma_conns_insert, lemma_conns_none,
    live, tick_ok, ticks_of,
    tube_conns_ok, tube_ok,
};
use crate::model::{ConnState, ConnView, TubeId, TubeState, TubeView};
use crate::ms::{lemma_position, lemma_swap_remove, position};
use crate::rules::ConnSel;
use vstd::prelude::*;

verus! {

/// What tube `a` becomes when connection `c` joins those that wait on it, or
/// leaves them.
spec fn waiter_moved(a: TubeState, b: TubeState, c: ConnId, join: bool) -> bool {
    &&& same_but_conns(a, b)
    &&& b.waiting_conns@ == (if join {
        a.waiting_conns@.append(c)
    } else {
        a.waiting_conns@.remove(c)
    })
    &&& b.stat.waiting_ct == b.waiting_conns@.items.len()
    &&& b.using_ct == a.using_ct
    &&& b.watching_ct == a.watching_ct
    &&& flag_ok(b)
}

impl Engine {
    /// Has connection `c` join (or leave) those that wait on each of the tubes
    /// `watch`.
    fn move_waiter(&mut self, c: ConnId, watch: &Vec<TubeId>, join: bool)
        requires
            watch@.no_duplicates(),
            forall|i: int| 0 <= i < watch@.len() ==> live(old(self).tubes@, #[trigger] watch@[i]),
            old(self).dispatchable@ == dispatchable_of(old(self).tubes@),
        ensures
            final(self).host() == old(self).host(),
            *final(self) == (Engine {
                tubes: final(self).tubes,
                dispatchable: final(self).dispatchable,
                ..*old(self)
            }),
            final(self).tubes@.len() == old(self).tubes@.len(),
            forall|u: TubeId|
                #![trigger live(final(self).tubes@, u)]
                #![trigger live(old(self).tubes@, u)]
                live(final(self).tubes@, u) == live(old(self).tubes@, u),
            forall|u: TubeId| #[trigger]
                live(final(self).tubes@, u) ==> (if watch@.contains(u) {
                    waiter_moved(at(old(self).tubes@, u), at(final(self).tubes@, u), c, join)
                } else {
                    at(final(self).tubes@, u) == at(old(self).tubes@, u)
                }),
            final(self).dispatchable@ == dispatchable_of(final(self).tubes@),
    {
        broadcast use vstd::laws_eq::group_laws_eq;

        let n: usize = watch.len();
        let mut i: usize = 0;
        while i < n
            invariant
                self.host() == old(self).host(),
                i <= n,
                n == watch@.len(),
                watch@.no_duplicates(),
                forall|k: int| 0 <= k < n ==> live(old(self).tubes@, #[trigger] watch@[k]),
                *self == (Engine {
                    tubes: self.tubes,
                    dispatchable: self.dispatchable,
                    ..*old(self)
                }),
                self.tubes@.len() == old(self).tubes@.len(),
                forall|u: TubeId|
                    #![trigger live(self.tubes@, u)]
                    #![trigger live(old(self).tubes@, u)]
                    live(self.tubes@, u) == live(old(self).tubes@, u),
                forall|u: TubeId| #[trigger]
                    live(self.tubes@, u) ==> (if watch@.take(i as int).contains(u) {
                        waiter_moved(at(old(self).tubes@, u), at(self.tubes@, u), c, join)
                    } else {
                        at(self.tubes@, u) == at(old(self).tubes@, u)
                    }),
                self.dispatchable@ == dispatchable_of(self.tubes@),
            decreases n - i,
        {
            let ghost before = self.tubes@;
            let tid: TubeId = watch[i];
            assert(live(self.tubes@, tid));
            assert(!watch@.take(i as int).contains(tid)) by {
                if watch@.take(i as int).contains(tid) {
                    let k = watch@.take(i as int).index_of(tid);
                    assert(watch@[k] == watch@[i as int]);
                }
            }
            if let Some(t) = &mut self.tubes[tid] {
                if join {
                    t.waiting_conns.append(c);
                } else {
                    let _ = t.waiting_conns.remove(&c);
                }
                t.stat.waiting_ct = t.waiting_conns.len() as u64;
                refresh_dispatchable(t, tid, &mut self.dispatchable);
            }
            proof {
                let now = watch@.take(i + 1);
                assert forall|u: TubeId| now.contains(u) == (watch@.take(i as int).contains(u) || u
                    == tid) by {
                    if watch@.take(i as int).contains(u) {
                        let k = watch@.take(i as int).index_of(u);
                        assert(now[k] == u);
                    }
                    assert(now[i as int] == tid);
                    if now.contains(u) && u != tid {
                        let k = now.index_of(u);
                        assert(watch@.take(i as int)[k] == u);
                    }
                }
                assert forall|u: TubeId|
                    #![trigger live(self.tubes@, u)]
                    #![trigger live(old(self).tubes@, u)]
                    live(self.tubes@, u) == live(old(self).tubes@, u) by {
                    assert(live(before, u) == live(old(self).tubes@, u));
                }
                assert forall|u: TubeId| #[trigger] live(self.tubes@, u) implies (if now.contains(
                    u,
                ) {
                    waiter_moved(at(old(self).tubes@, u), at(self.tubes@, u), c, join)
                } else {
                    at(self.tubes@, u) == at(old(self).tubes@, u)
                }) by {
                    assert(live(before, u));
                }
                assert(self.dispatchable@ =~= dispatchable_of(self.tubes@)) by {
                    assert forall|u: TubeId| live(self.tubes@, u) == live(before, u) by {}
                }
            }
            i = i + 1;
        }
        assert(watch@.take(n as int) =~= watch@);
    }

    /// Has connection `cid` wait on every tube that it watches.
    pub(super) fn enqueue_waiting_conn(&mut self, cid: ConnId, until: Option<Nanos>)
        requires
            old(self).wf(),
            old(self)@.conns.contains_key(cid),
            !old(self)@.conns[cid].waiting,
        ensures
            final(self).host() == old(self).host(),
            final(self).wf(),
            final(self)@ == old(self)@.start_waiting(cid, until),
    {
        broadcast use {crate::ordset::group_ordered, vstd::std_specs::btree::group_btree_axioms};

        let ghost ca = self.cv();
        assert(self.conns@.dom().finite());
        assert(ca.dom() =~= self.conns@.dom());
        assert(self.conns@.contains_key(cid));
        let ghost was = self.conns@[cid];
        let ghost v = ConnView { waiting: true, wait_deadline: until, ..ca[cid] };
        let ghost cb = ca.insert(cid, v);
        let taken = self.conns.remove(&cid);
        let mut c: ConnState = taken.unwrap();
        assert(conn_ok(was, cid, self.next_job_id, self.tubes@, self.jv()));
        self.move_waiter(cid, &c.watch.items, true);
        c.waiting = true;
        c.wait_deadline = until;
        proof {
            assert(cb.dom() =~= ca.dom());
            lemma_conns_insert(ca, cid, v, ConnSel::Waiting);
            lemma_conns_bound(cb, ConnSel::Waiting);
            lemma_conns_insert(ca, cid, v, ConnSel::Producer);
            lemma_conns_insert(ca, cid, v, ConnSel::Worker);
        }
        self.tallies.waiting_ct = self.tallies.waiting_ct + 1;
        refresh_conn_tick(&mut c, cid, &mut self.conn_ticks);
        let _ = self.conns.insert(cid, c);
        proof {
            assert(self.conns@ =~= old(self).conns@.insert(cid, self.conns@[cid]));
            assert(self.cv() =~= cb);
            assert forall|u: TubeId| #[trigger] live(self.tubes@, u) implies tube_conns_ok(
                at(self.tubes@, u),
                u,
                cb,
            ) && same_but_conns(at(old(self).tubes@, u), at(self.tubes@, u)) && flag_ok(
                at(self.tubes@, u),
            ) by {
                let x = at(old(self).tubes@, u);
                assert(live(old(self).tubes@, u));
                assert(tube_ok(x, u, self.jv(), ca));
                lemma_conns_insert(ca, cid, v, ConnSel::Uses(u));
                lemma_conns_insert(ca, cid, v, ConnSel::Watches(u));
                assert(!x.waiting_conns@.items.contains(cid));
                if was.watch@.items.contains(u) {
                    let y = at(self.tubes@, u).waiting_conns@.items;
                    let z = x.waiting_conns@.items;
                    assert(y == z.push(cid));
                    assert forall|k: ConnId| #[trigger] y.contains(k) <==> cb.contains_key(k)
                        && cb[k].waiting && cb[k].watch.items.contains(u) by {
                        if z.contains(k) {
                            assert(y[z.index_of(k)] == k);
                        }
                        assert(y[z.len() as int] == cid);
                        if y.contains(k) && k != cid {
                            assert(z[y.index_of(k)] == k);
                        }
                        assert(z.contains(k) <==> ca.contains_key(k) && ca[k].waiting
                            && ca[k].watch.items.contains(u));
                    }
                }
            }
            lemma_pending_same(ca, self.cv());
            assert(self.conns@.remove(cid) =~= old(self).conns@.remove(cid));
            assert(self.conn_ticks@ =~= ticks_of(self.conns@));
            self.lemma_conn_changed(*old(self), cid);
            let m = old(self)@.start_waiting(cid, until);
            assert forall|t: int| 0 <= t < self@.tubes.len() implies self@.tubes[t] == m.tubes[t] by {
                assert(self.tubes.len() == self.tubes@.len());
                assert(live(self.tubes@, t as usize) == live(old(self).tubes@, t as usize));
            }
            assert(self@.tubes =~= m.tubes);
            assert(self@ =~= m);
        }
    }

    /// All is well after connection `c` has left those that wait.
    proof fn lemma_left(self, old: Engine, c: ConnId)
        requires
            old.wf(),
            old.conns@.contains_key(c),
            old.conns@[c].waiting,
            self == (Engine {
                tubes: self.tubes,
                dispatchable: self.dispatchable,
                conns: self.conns,
                conn_ticks: self.conn_ticks,
                tallies: Tallies {
                    waiting_ct: (old.tallies.waiting_ct - 1) as u64,
                    ..old.tallies
                },
                ..old
            }),
            self.tubes@.len() == old.tubes@.len(),
            forall|u: TubeId|
                #![trigger live(self.tubes@, u)]
                #![trigger live(old.tubes@, u)]
                live(self.tubes@, u) == live(old.tubes@, u),
            forall|u: TubeId| #[trigger]
                live(self.tubes@, u) ==> {
                    let a = at(old.tubes@, u);
                    let b = at(self.tubes@, u);
                    &&& same_but_conns(a, b)
                    &&& b.using_ct == a.using_ct
                    &&& b.watching_ct == a.watching_ct
                    &&& b.stat.waiting_ct == b.waiting_conns@.items.len()
                    &&& flag_ok(b)
                    &&& if old.conns@[c].watch@.items.contains(u) {
                        &&& b.waiting_conns@.items.no_duplicates()
                        &&& forall|k: ConnId| #[trigger]
                            b.waiting_conns@.items.contains(k) <==> a.waiting_conns@.items.contains(
                                k,
                            ) && k != c
                    } else {
                        b.waiting_conns@ == a.waiting_conns@
                    }
                },
            self.dispatchable@ == dispatchable_of(self.tubes@),
            self.conns@ == old.conns@.insert(c, self.conns@[c]),
            self.conns@[c] == (ConnState {
                waiting: false,
                wait_deadline: None,
                tick_key: self.conns@[c].tick_key,
                ..old.conns@[c]
            }),
            tick_ok(self.conns@[c]),
            self.conn_ticks@ == relisted(
                old.conn_ticks@,
                c,
                old.conns@[c].tick_key,
                self.conns@[c].tick_key,
            ) || (self.conn_ticks@ == old.conn_ticks@ && self.conns@[c].tick_key
                == old.conns@[c].tick_key),
        ensures
            self.wf(),
    {
        broadcast use vstd::std_specs::btree::group_btree_axioms;

        let ca = old.cv();
        let cb = self.cv();
        let v = self.conns@[c]@;
        assert(old.conns@.dom().finite());
        assert(ca.dom() =~= old.conns@.dom());
        assert(cb =~= ca.insert(c, v));
        assert(cb.dom() =~= ca.dom());
        assert(conn_ok(old.conns@[c], c, old.next_job_id, old.tubes@, old.jv()));
        lemma_conns_insert(ca, c, v, ConnSel::Waiting);
        lemma_conns_insert(ca, c, v, ConnSel::Producer);
        lemma_conns_insert(ca, c, v, ConnSel::Worker);
        assert forall|u: TubeId| #[trigger] live(self.tubes@, u) implies tube_conns_ok(
            at(self.tubes@, u),
            u,
            cb,
        ) by {
            let x = at(old.tubes@, u);
            let y = at(self.tubes@, u);
            assert(live(old.tubes@, u));
            assert(tube_ok(x, u, old.jv(), ca));
            lemma_conns_insert(ca, c, v, ConnSel::Uses(u));
            lemma_conns_insert(ca, c, v, ConnSel::Watches(u));
            assert forall|k: ConnId| #[trigger] y.waiting_conns@.items.contains(k)
                <==> cb.contains_key(k) && cb[k].waiting && cb[k].watch.items.contains(u) by {
                assert(x.waiting_conns@.items.contains(k) <==> ca.contains_key(k) && ca[k].waiting
                    && ca[k].watch.items.contains(u));
            }
        }
        lemma_pending_same(ca, cb);
        assert(self.conns@.remove(c) =~= old.conns@.remove(c));
        assert(self.conn_ticks@ =~= ticks_of(self.conns@));
        self.lemma_conn_changed(old, c);
    }

    /// Has connection `cid` wait no longer.
    pub(super) fn do_remove_waiting_conn(&mut self, cid: ConnId)
        requires
            old(self).wf(),
        ensures
            final(self).host() == old(self).host(),
            final(self).wf(),
            final(self)@ == old(self)@.stop_waiting(cid),
    {
        broadcast use {crate::ordset::group_ordered, vstd::std_specs::btree::group_btree_axioms};

        match self.conns.get(&cid) {
            Some(c) => {
                if !c.waiting {
                    return;
                }
            },
            None => {
                return;
            },
        }
        assert(self.conns@.contains_key(cid));
        let ghost was = self.conns@[cid];
        let ghost ca = self.cv();
        proof {
            assert(self.conns@.dom().finite());
            assert(ca.dom() =~= self.conns@.dom());
            assert(conn_ok(was, cid, self.next_job_id, self.tubes@, self.jv()));
            lemma_conns_none(ca, ConnSel::Waiting);
            assert(ca[cid].waiting);
        }
        let taken = self.conns.remove(&cid);
        let mut c: ConnState = taken.unwrap();
        self.move_waiter(cid, &c.watch.items, false);
        c.waiting = false;
        c.wait_deadline = None;
        self.tallies.waiting_ct = self.tallies.waiting_ct - 1;
        refresh_conn_tick(&mut c, cid, &mut self.conn_ticks);
        let _ = self.conns.insert(cid, c);
        proof {
            assert(self.conns@ =~= old(self).conns@.insert(cid, self.conns@[cid]));
            assert forall|u: TubeId| #[trigger] live(self.tubes@, u) implies {
                let a = at(old(self).tubes@, u);
                let b = at(self.tubes@, u);
                &&& same_but_conns(a, b)
                &&& b.using_ct == a.using_ct
                &&& b.watching_ct == a.watching_ct
                &&& b.stat.waiting_ct == b.waiting_conns@.items.len()
                &&& flag_ok(b)
                &&& if was.watch@.items.contains(u) {
                    &&& b.waiting_conns@.items.no_duplicates()
                    &&& forall|k: ConnId| #[trigger]
                        b.waiting_conns@.items.contains(k) <==> a.waiting_conns@.items.contains(k)
                            && k != cid
                } else {
                    b.waiting_conns@ == a.waiting_conns@
                }
            } by {
                let a = at(old(self).tubes@, u).waiting_conns@.items;
                assert(live(old(self).tubes@, u));
                assert(tube_ok(at(old(self).tubes@, u), u, old(self).jv(), ca));
                if was.watch@.items.contains(u) {
                    assert(a.contains(cid));
                    lemma_position(a, cid);
                    lemma_swap_remove(a, position(a, cid));
                }
            }
            self.lemma_left(*old(self), cid);
            let m = old(self)@.stop_waiting(cid);
            assert forall|t: int| 0 <= t < self@.tubes.len() implies self@.tubes[t] == m.tubes[t] by {
                assert(self.tubes.len() == self.tubes@.len());
                assert(live(self.tubes@, t as usize) == live(old(self).tubes@, t as usize));
            }
            assert(self@.tubes =~= m.tubes);
            assert(self@ =~= m);
        }
    }

    /// Has the connection whose turn it is on tube `tid` wait no longer.
    pub(super) fn take_turn(&mut self, tid: TubeId) -> (cid: ConnId)
        requires
            old(self).wf(),
            old(self)@.live(tid),
            old(self)@.tube(tid).waiting.items.len() > 0,
        ensures
            final(self).host() == old(self).host(),
            final(self).wf(),
            cid == old(self)@.next_waiter(tid),
            old(self)@.conns.contains_key(cid),
            final(self)@ == old(self)@.with_tube(
                tid,
                TubeView {
                    waiting: old(self)@.tube(tid).waiting.after_take(),
                    ..old(self)@.tube(tid)
                },
            ).stop_waiting(cid),
    {
        broadcast use {crate::ordset::group_ordered, vstd::std_specs::btree::group_btree_axioms};

        let ghost ca = self.cv();
        let ghost z = at(self.tubes@, tid).waiting_conns@;
        assert(live(self.tubes@, tid));
        assert(tube_ok(at(self.tubes@, tid), tid, self.jv(), ca));
        assert(z.items.contains(z.items[z.cursor()]));
        let mut cid: ConnId = 0;
        if let Some(t) = &mut self.tubes[tid] {
            let turn = t.waiting_conns.take();
            cid = turn.unwrap();
            t.stat.waiting_ct = t.waiting_conns.len() as u64;
            refresh_dispatchable(t, tid, &mut self.dispatchable);
        }
        let ghost mid = self.tubes@;
        assert(self.dispatchable@ =~= dispatchable_of(mid)) by {
            assert forall|u: TubeId| live(mid, u) == live(old(self).tubes@, u) by {}
        }
        assert(ca.contains_key(cid) && ca[cid].waiting && ca[cid].watch.items.contains(tid));
        let ghost was = self.conns@[cid];
        proof {
            assert(self.conns@.contains_key(cid));
            assert(self.conns@.dom().finite());
            assert(ca.dom() =~= self.conns@.dom());
            assert(conn_ok(was, cid, self.next_job_id, old(self).tubes@, self.jv()));
            lemma_conns_none(ca, ConnSel::Waiting);
            assert forall|i: int| 0 <= i < was.watch@.items.len() implies live(
                mid,
                #[trigger] was.watch@.items[i],
            ) by {
                assert(live(old(self).tubes@, was.watch@.items[i]));
            }
        }
        let taken = self.conns.remove(&cid);
        let mut c: ConnState = taken.unwrap();
        self.move_waiter(cid, &c.watch.items, false);
        c.waiting = false;
        c.wait_deadline = None;
        self.tallies.waiting_ct = self.tallies.waiting_ct - 1;
        refresh_conn_tick(&mut c, cid, &mut self.conn_ticks);
        let _ = self.conns.insert(cid, c);
        proof {
            assert(self.conns@ =~= old(self).conns@.insert(cid, self.conns@[cid]));
            assert forall|u: TubeId|
                #![trigger live(self.tubes@, u)]
                #![trigger live(old(self).tubes@, u)]
                live(self.tubes@, u) == live(old(self).tubes@, u) by {
                assert(live(mid, u) == live(self.tubes@, u));
            }
            assert forall|u: TubeId| #[trigger] live(self.tubes@, u) implies {
                let a = at(old(self).tubes@, u);
                let b = at(self.tubes@, u);
                &&& same_but_conns(a, b)
                &&& b.using_ct == a.using_ct
                &&& b.watching_ct == a.watching_ct
                &&& b.stat.waiting_ct == b.waiting_conns@.items.len()
                &&& flag_ok(b)
                &&& if was.watch@.items.contains(u) {
                    &&& b.waiting_conns@.items.no_duplicates()
                    &&& forall|k: ConnId| #[trigger]
                        b.waiting_conns@.items.contains(k) <==> a.waiting_conns@.items.contains(k)
                            && k != cid
                } else {
                    b.waiting_conns@ == a.waiting_conns@
                }
            } by {
                let a = at(old(self).tubes@, u).waiting_conns@.items;
                let b = at(mid, u).waiting_conns@.items;
                assert(live(old(self).tubes@, u));
                assert(live(mid, u));
                assert(tube_ok(at(old(self).tubes@, u), u, old(self).jv(), ca));
                if u == tid {
                    lemma_swap_remove(a, z.cursor());
                    assert(!b.contains(cid));
                } else if was.watch@.items.contains(u) {
                    assert(a.contains(cid));
                    lemma_position(a, cid);
                    lemma_swap_remove(a, position(a, cid));
                }
            }
            self.lemma_left(*old(self), cid);
            let n = old(self)@.with_tube(
                tid,
                TubeView {
                    waiting: old(self)@.tube(tid).waiting.after_take(),
                    ..old(self)@.tube(tid)
                },
            );
            let m = n.stop_waiting(cid);
            assert forall|t: int| 0 <= t < self@.tubes.len() implies self@.tubes[t] == m.tubes[t] by {
                assert(self.tubes.len() == self.tubes@.len());
                assert(live(self.tubes@, t as usize) == live(old(self).tubes@, t as usize));
                assert(live(self.tubes@, t as usize) == live(mid, t as usize));
            }
            assert(self@.tubes =~= m.tubes);
            assert(self@ =~= m);
        }
        cid
    }
}

} // verus!
