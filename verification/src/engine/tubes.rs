//! Finding tubes, making them, and destroying those that nothing refers to.

use super::jobs::relisted;
use super::Engine;
use crate::api::{ConnId, Nanos};
use crate::inv::{
    at, conn_ok, default_ok, dispatchable_of, flag_ok, free_ok, heads_of, job_ok, lemma_conns_none,
    lemma_jobs_none, lemma_least_empty, live, names_ok, order_ok, pauses_of, tube_conns_ok,
    tube_jobs_ok, tube_ok,
};
use crate::model::{JobState, TubeId, TubeState, TubeView};
use crate::ms::{lemma_position_is, position, swap_remove};
use crate::proto::{JobId, TubeName};
use crate::rules::{delayed_set, ready_set, ConnSel, JobSel, DEFAULT_TUBE};
use crate::text::{bytes_lt, bytes_lt_is_a_strict_order, less};
use vstd::prelude::*;

verus! {

/// Where `name` stands in the index, or would stand.
pub(super) fn name_position(names: &Vec<(TubeName, TubeId)>, name: &TubeName) -> (r: usize)
    requires
        forall|i: int, j: int|
            #![trigger names@[i], names@[j]]
            0 <= i < j < names@.len() ==> bytes_lt(names@[i].0@, names@[j].0@),
    ensures
        r <= names@.len(),
        forall|i: int| 0 <= i < r ==> bytes_lt((#[trigger] names@[i]).0@, name@),
        forall|i: int| r <= i < names@.len() ==> !bytes_lt((#[trigger] names@[i]).0@, name@),
{
    let mut lo: usize = 0;
    let mut hi: usize = names.len();
    while lo < hi
        invariant
            lo <= hi <= names@.len(),
            forall|i: int, j: int|
                #![trigger names@[i], names@[j]]
                0 <= i < j < names@.len() ==> bytes_lt(names@[i].0@, names@[j].0@),
            forall|i: int| 0 <= i < lo ==> bytes_lt((#[trigger] names@[i]).0@, name@),
            forall|i: int| hi <= i < names@.len() ==> !bytes_lt((#[trigger] names@[i]).0@, name@),
        decreases hi - lo,
    {
        let mid: usize = lo + (hi - lo) / 2;
        if less(names[mid].0.as_str().as_bytes(), name.as_str().as_bytes()) {
            assert forall|i: int| 0 <= i < mid + 1 implies bytes_lt(
                (#[trigger] names@[i]).0@,
                name@,
            ) by {
                if i < mid {
                    bytes_lt_is_a_strict_order(names@[i].0@, names@[mid as int].0@, name@);
                }
            }
            lo = mid + 1;
        } else {
            assert forall|i: int| mid <= i < names@.len() implies !bytes_lt(
                (#[trigger] names@[i]).0@,
                name@,
            ) by {
                if i > mid {
                    bytes_lt_is_a_strict_order(names@[mid as int].0@, names@[i].0@, name@);
                }
            }
            hi = mid;
        }
    }
    lo
}

impl Engine {
    /// Two tubes of the same name are the same tube.
    pub(super) proof fn lemma_names_differ(self, t: TubeId, u: TubeId)
        requires
            self.wf(),
            live(self.tubes@, t),
            live(self.tubes@, u),
            at(self.tubes@, t).name@ == at(self.tubes@, u).name@,
        ensures
            t == u,
    {
        let n = self.tube_ids@;
        let i = choose|i: int| 0 <= i < n.len() && (#[trigger] n[i]).1 == t;
        let j = choose|i: int| 0 <= i < n.len() && (#[trigger] n[i]).1 == u;
        bytes_lt_is_a_strict_order(n[i].0@, n[j].0@, n[i].0@);
        if i < j {
            assert(bytes_lt(n[i].0@, n[j].0@));
        } else if j < i {
            assert(bytes_lt(n[j].0@, n[i].0@));
        }
    }

    /// A live tube is the tube of its name.
    pub(super) proof fn lemma_named(self, t: TubeId)
        requires
            self.wf(),
            live(self.tubes@, t),
        ensures
            self@.tube_named(at(self.tubes@, t).name@) == Some(t),
    {
        let name = at(self.tubes@, t).name@;
        assert(self@.live(t) && self@.tube(t).name == name);
        let u = choose|u: TubeId| self@.live(u) && self@.tube(u).name == name;
        assert(live(self.tubes@, u));
        self.lemma_names_differ(t, u);
    }

    /// The tube called `name`, if there is one.
    pub(super) fn find_tube(&self, name: &TubeName) -> (r: Option<TubeId>)
        requires
            self.wf(),
        ensures
            r == self@.tube_named(name@),
            r is Some ==> self@.live(r->0) && live(self.tubes@, r->0) && self@.tube(r->0).name
                == name@,
    {
        let k: usize = name_position(&self.tube_ids, name);
        if k < self.tube_ids.len() && self.tube_ids[k].0.same(name) {
            proof {
                self.lemma_named(self.tube_ids@[k as int].1);
            }
            Some(self.tube_ids[k].1)
        } else {
            proof {
                self.lemma_unnamed(k as int, name@);
            }
            None
        }
    }

    /// A name that does not stand where it would belong names no tube.
    proof fn lemma_unnamed(self, k: int, name: Seq<u8>)
        requires
            self.wf(),
            0 <= k <= self.tube_ids@.len(),
            forall|i: int| 0 <= i < k ==> bytes_lt((#[trigger] self.tube_ids@[i]).0@, name),
            forall|i: int|
                k <= i < self.tube_ids@.len() ==> !bytes_lt(
                    (#[trigger] self.tube_ids@[i]).0@,
                    name,
                ),
            k < self.tube_ids@.len() ==> self.tube_ids@[k].0@ != name,
        ensures
            self@.tube_named(name) is None,
            forall|i: int| 0 <= i < self.tube_ids@.len() ==> (#[trigger] self.tube_ids@[i]).0@ != name,
    {
        let n = self.tube_ids@;
        assert forall|i: int| 0 <= i < n.len() implies (#[trigger] n[i]).0@ != name by {
            if n[i].0@ == name {
                bytes_lt_is_a_strict_order(name, name, name);
                if i > k {
                    bytes_lt_is_a_strict_order(n[k].0@, n[i].0@, name);
                    assert(bytes_lt(n[k].0@, n[i].0@));
                }
            }
        }
        assert forall|t: TubeId| self@.live(t) implies self@.tube(t).name != name by {
            assert(live(self.tubes@, t));
            let i = choose|i: int| 0 <= i < n.len() && (#[trigger] n[i]).1 == t;
            assert(n[i].0@ != name);
        }
    }

    /// All is well after tube `t`, which holds nothing, has been made.
    proof fn lemma_tube_made(self, old: Engine, t: TubeId, k: int)
        requires
            old.wf(),
            self == (Engine {
                tubes: self.tubes,
                free_tube_ids: self.free_tube_ids,
                tube_ids: self.tube_ids,
                tube_order: self.tube_order,
                ..old
            }),
            !live(old.tubes@, t),
            live(self.tubes@, t),
            t < old.tubes@.len() && self.tubes@.len() == old.tubes@.len() || t == old.tubes@.len()
                && self.tubes@.len() == old.tubes@.len() + 1,
            forall|u: int| 0 <= u < old.tubes@.len() && u != t ==> self.tubes@[u] == old.tubes@[u],
            at(self.tubes@, t)@ == TubeView::fresh(at(self.tubes@, t).name@),
            at(self.tubes@, t).pos == old.tube_order@.items.len(),
            at(self.tubes@, t).ready@ == Set::<(u32, JobId)>::empty(),
            at(self.tubes@, t).delayed@ == Set::<(Nanos, JobId)>::empty(),
            at(self.tubes@, t).using_ct == 0,
            at(self.tubes@, t).watching_ct == 0,
            at(self.tubes@, t).job_ref_ct == 0,
            at(self.tubes@, t).stat.urgent_ct == 0,
            at(self.tubes@, t).stat.buried_ct == 0,
            at(self.tubes@, t).stat.reserved_ct == 0,
            at(self.tubes@, t).stat.waiting_ct == 0,
            at(self.tubes@, t).delay_head is None,
            !at(self.tubes@, t).dispatchable,
            free_ok(self.tubes@, self.free_tube_ids@),
            self.tube_order@ == old.tube_order@.append(t),
            0 <= k <= old.tube_ids@.len(),
            self.tube_ids@ == old.tube_ids@.insert(k, (self.tube_ids@[k].0, t)),
            self.tube_ids@[k].0@ == at(self.tubes@, t).name@,
            forall|i: int|
                0 <= i < k ==> bytes_lt(
                    (#[trigger] old.tube_ids@[i]).0@,
                    at(self.tubes@, t).name@,
                ),
            forall|i: int|
                k <= i < old.tube_ids@.len() ==> bytes_lt(
                    at(self.tubes@, t).name@,
                    (#[trigger] old.tube_ids@[i]).0@,
                ),
        ensures
            self.wf(),
    {
        broadcast use vstd::std_specs::btree::group_btree_axioms;

        let jobs = old.jv();
        let conns = old.cv();
        assert forall|u: TubeId| #[trigger] live(self.tubes@, u) == (live(old.tubes@, u) || u
            == t) by {}
        assert forall|u: TubeId| live(old.tubes@, u) implies at(self.tubes@, u) == at(
            old.tubes@,
            u,
        ) by {}
        let x = at(self.tubes@, t);
        assert(tube_jobs_ok(x, t, jobs)) by {
            assert(old.jobs@.dom().finite());
            assert(jobs.dom() =~= old.jobs@.dom());
            assert forall|id: JobId| jobs.contains_key(id) implies (#[trigger] jobs[id]).tube
                != t by {
                assert(old.jv().contains_key(id));
            }
            lemma_jobs_none(jobs, JobSel::InTube(t));
            lemma_jobs_none(jobs, JobSel::UrgentIn(t));
            lemma_jobs_none(jobs, JobSel::ReservedIn(t));
            assert(ready_set(jobs, t) =~= Set::empty());
            assert(delayed_set(jobs, t) =~= Set::empty());
            lemma_least_empty(x.delayed@);
            assert forall|id: JobId| #[trigger] x.buried@.contains(id) <==> jobs.contains_key(id)
                && jobs[id].state == JobState::Buried && jobs[id].tube == t by {
                assert(x.buried@.len() == 0);
            }
        }
        assert(tube_conns_ok(x, t, conns)) by {
            assert(old.conns@.dom().finite());
            assert(conns.dom() =~= old.conns@.dom());
            assert forall|c: ConnId| conns.contains_key(c) implies (#[trigger] conns[c]).use_tube
                != t && !conns[c].watch.items.contains(t) by {
                assert(old.conns@.contains_key(c));
                let w = old.conns@[c].watch@.items;
                if w.contains(t) {
                    assert(live(old.tubes@, w[w.index_of(t)]));
                }
            }
            lemma_conns_none(conns, ConnSel::Uses(t));
            lemma_conns_none(conns, ConnSel::Watches(t));
            assert forall|c: ConnId| #[trigger] x.waiting_conns@.items.contains(c)
                <==> conns.contains_key(c) && conns[c].waiting && conns[c].watch.items.contains(
                t,
            ) by {
                assert(x.waiting_conns@.items.len() == 0);
            }
        }
        assert forall|u: TubeId| #[trigger] live(self.tubes@, u) implies tube_ok(
            at(self.tubes@, u),
            u,
            self.jv(),
            self.cv(),
        ) by {
            if u != t {
                assert(live(old.tubes@, u));
            }
        }
        assert forall|id: JobId| #[trigger] self.jv().contains_key(id) implies job_ok(
            self.jv()[id],
            id,
            self.next_job_id,
            self.tubes@,
            self.cv(),
        ) by {
            assert(old.jv().contains_key(id));
            assert(live(old.tubes@, jobs[id].tube));
            assert(live(self.tubes@, jobs[id].tube));
        }
        assert forall|c: ConnId| #[trigger] self.conns@.contains_key(c) implies conn_ok(
            self.conns@[c],
            c,
            self.next_job_id,
            self.tubes@,
            self.jv(),
        ) by {
            assert(old.conns@.contains_key(c));
            let y = old.conns@[c];
            assert(live(old.tubes@, y.use_tube));
            assert(live(self.tubes@, y.use_tube));
            assert forall|i: int| 0 <= i < y.watch@.items.len() implies live(
                self.tubes@,
                #[trigger] y.watch@.items[i],
            ) by {
                assert(live(old.tubes@, y.watch@.items[i]));
            }
        }
        assert(default_ok(self.tubes@)) by {
            assert(live(old.tubes@, 0));
            assert(live(self.tubes@, 0));
        }
        assert(order_ok(self.tubes@, self.tube_order@.items)) by {
            let o = self.tube_order@.items;
            assert forall|u: TubeId| #[trigger] live(self.tubes@, u) implies at(self.tubes@, u).pos
                < o.len() && o[at(self.tubes@, u).pos as int] == u by {
                if u != t {
                    assert(live(old.tubes@, u));
                    assert(old.tube_order@.items[at(old.tubes@, u).pos as int] == u);
                }
            }
            assert forall|i: int| 0 <= i < o.len() implies live(self.tubes@, #[trigger] o[i]) && at(
                self.tubes@,
                o[i],
            ).pos == i by {
                if i < old.tube_order@.items.len() {
                    assert(o[i] == old.tube_order@.items[i]);
                    assert(live(old.tubes@, old.tube_order@.items[i]));
                }
            }
        }
        assert(names_ok(self.tubes@, self.tube_ids@)) by {
            let n = self.tube_ids@;
            let m = old.tube_ids@;
            assert forall|i: int, j: int|
                #![trigger n[i], n[j]]
                0 <= i < j < n.len() implies bytes_lt(n[i].0@, n[j].0@) by {
                let a = if i < k {
                    i
                } else {
                    i - 1
                };
                let b = if j < k {
                    j
                } else {
                    j - 1
                };
                if i != k {
                    assert(n[i] == m[a]);
                }
                if j != k {
                    assert(n[j] == m[b]);
                }
            }
            assert forall|i: int| 0 <= i < n.len() implies live(self.tubes@, (#[trigger] n[i]).1)
                && at(self.tubes@, n[i].1).name@ == n[i].0@ by {
                if i != k {
                    let a = if i < k {
                        i
                    } else {
                        i - 1
                    };
                    assert(n[i] == m[a]);
                    assert(live(old.tubes@, m[a].1));
                }
            }
            assert forall|u: TubeId| #[trigger] live(self.tubes@, u) implies exists|i: int|
                0 <= i < n.len() && (#[trigger] n[i]).1 == u by {
                if u == t {
                    assert(n[k].1 == t);
                } else {
                    assert(live(old.tubes@, u));
                    let a = choose|i: int| 0 <= i < m.len() && (#[trigger] m[i]).1 == u;
                    if a < k {
                        assert(n[a] == m[a]);
                    } else {
                        assert(n[a + 1] == m[a]);
                    }
                }
            }
        }
        assert(self.delay_heads@ =~= heads_of(self.tubes@));
        assert(self.pauses@ =~= pauses_of(self.tubes@));
        assert(self.dispatchable@ =~= dispatchable_of(self.tubes@));
    }

    /// The tube called `name`, which is made if there is none.
    pub(super) fn find_or_make_tube(&mut self, name: &TubeName) -> (r: TubeId)
        requires
            old(self).wf(),
        ensures
            final(self).host() == old(self).host(),
            final(self).wf(),
            final(self)@ == old(self)@.making_tube(name@),
            r == old(self)@.tube_for(name@),
            final(self)@.live(r),
            final(self)@.tube(r).name == name@,
    {
        let k: usize = name_position(&self.tube_ids, name);
        if k < self.tube_ids.len() && self.tube_ids[k].0.same(name) {
            proof {
                self.lemma_named(self.tube_ids@[k as int].1);
            }
            return self.tube_ids[k].1;
        }
        proof {
            self.lemma_unnamed(k as int, name@);
        }
        let state = TubeState::new(name.clone(), self.tube_order.len());
        let r: TubeId = match self.free_tube_ids.pop() {
            Some(id) => {
                assert(old(self).free_tube_ids@.contains(id)) by {
                    assert(old(self).free_tube_ids@[old(self).free_tube_ids@.len() - 1] == id);
                }
                self.tubes[id] = Some(state);
                id
            },
            None => {
                let id: usize = self.tubes.len();
                self.tubes.push(Some(state));
                id
            },
        };
        self.tube_ids.insert(k, (name.clone(), r));
        self.tube_order.append(r);
        proof {
            let f = old(self).free_tube_ids@;
            assert(free_ok(self.tubes@, self.free_tube_ids@)) by {
                let g = self.free_tube_ids@;
                assert forall|t: TubeId| #[trigger] g.contains(t) implies t < self.tubes@.len()
                    && !live(self.tubes@, t) by {
                    let i = g.index_of(t);
                    assert(f[i] == t);
                    assert(f.contains(t));
                    if f.len() > 0 {
                        assert(f[f.len() - 1] == r);
                        assert(i != f.len() - 1);
                    }
                }
                assert forall|t: TubeId| t < self.tubes@.len() && !(#[trigger] live(
                    self.tubes@,
                    t,
                )) implies g.contains(t) by {
                    assert(!live(old(self).tubes@, t));
                    assert(f.contains(t));
                    let i = f.index_of(t);
                    assert(g[i] == t);
                }
            }
            assert forall|i: int| k <= i < old(self).tube_ids@.len() implies bytes_lt(
                name@,
                (#[trigger] old(self).tube_ids@[i]).0@,
            ) by {
                bytes_lt_is_a_strict_order(name@, old(self).tube_ids@[i].0@, name@);
            }
            self.lemma_tube_made(*old(self), r, k as int);
            let m = old(self)@.making_tube(name@);
            assert(self@.tubes =~= m.tubes);
            assert(self@.order =~= m.order);
            assert(self@ =~= m);
        }
        r
    }

    /// The list of tubes names each tube once, at its position.
    pub(super) proof fn lemma_place(self, t: TubeId)
        requires
            self.wf(),
            live(self.tubes@, t),
        ensures
            position(self.tube_order@.items, t) == at(self.tubes@, t).pos,
            self.tube_order@.items.contains(t),
            self@.place(t) == at(self.tubes@, t).pos,
    {
        let o = self.tube_order@.items;
        let p = at(self.tubes@, t).pos as int;
        assert forall|k: int| 0 <= k < p implies o[k] != t by {
            assert(live(self.tubes@, o[k]));
        }
        lemma_position_is(o, t, p);
    }

    /// All is well after tube `t`, to which nothing referred, is gone.
    proof fn lemma_tube_gone(self, old: Engine, t: TubeId, k: int)
        requires
            old.wf(),
            self == (Engine {
                tubes: self.tubes,
                free_tube_ids: self.free_tube_ids,
                tube_ids: self.tube_ids,
                tube_order: self.tube_order,
                pauses: self.pauses,
                delay_heads: self.delay_heads,
                dispatchable: self.dispatchable,
                ..old
            }),
            t != 0,
            live(old.tubes@, t),
            at(old.tubes@, t).using_ct == 0,
            at(old.tubes@, t).watching_ct == 0,
            at(old.tubes@, t).job_ref_ct == 0,
            self.tubes@.len() == old.tubes@.len(),
            !live(self.tubes@, t),
            self.free_tube_ids@ == old.free_tube_ids@.push(t),
            0 <= k < old.tube_ids@.len(),
            old.tube_ids@[k].1 == t,
            self.tube_ids@ == old.tube_ids@.remove(k),
            self.tube_order@.items == swap_remove(
                old.tube_order@.items,
                at(old.tubes@, t).pos as int,
            ),
            forall|u: TubeId|
                #![trigger live(self.tubes@, u)]
                #![trigger live(old.tubes@, u)]
                u != t ==> live(self.tubes@, u) == live(old.tubes@, u),
            forall|u: TubeId| #[trigger]
                live(self.tubes@, u) ==> at(self.tubes@, u) == (TubeState {
                    pos: if u == old.tube_order@.items.last() {
                        at(old.tubes@, t).pos
                    } else {
                        at(old.tubes@, u).pos
                    },
                    ..at(old.tubes@, u)
                }),
            self.pauses@ == (if at(old.tubes@, t).pause > 0 {
                old.pauses@.remove((at(old.tubes@, t).unpause_at, t))
            } else {
                old.pauses@
            }),
            self.delay_heads@ == relisted(old.delay_heads@, t, at(old.tubes@, t).delay_head, None),
            self.dispatchable@ == (if at(old.tubes@, t).dispatchable {
                old.dispatchable@.remove(t)
            } else {
                old.dispatchable@
            }),
        ensures
            self.wf(),
    {
        broadcast use vstd::std_specs::btree::group_btree_axioms;

        let jobs = old.jv();
        let conns = old.cv();
        let o = old.tube_order@.items;
        let p = at(old.tubes@, t).pos as int;
        assert(tube_ok(at(old.tubes@, t), t, jobs, conns));
        assert(old.jobs@.dom().finite());
        assert(jobs.dom() =~= old.jobs@.dom());
        assert(old.conns@.dom().finite());
        assert(conns.dom() =~= old.conns@.dom());
        lemma_jobs_none(jobs, JobSel::InTube(t));
        lemma_conns_none(conns, ConnSel::Uses(t));
        lemma_conns_none(conns, ConnSel::Watches(t));
        assert forall|u: TubeId| #[trigger] live(self.tubes@, u) implies tube_ok(
            at(self.tubes@, u),
            u,
            self.jv(),
            self.cv(),
        ) by {
            assert(live(old.tubes@, u));
            let x = at(old.tubes@, u);
            let y = at(self.tubes@, u);
            assert(tube_ok(x, u, jobs, conns));
            assert(tube_jobs_ok(y, u, jobs));
            assert(tube_conns_ok(y, u, conns));
            assert(flag_ok(y));
        }
        assert forall|id: JobId| #[trigger] self.jv().contains_key(id) implies job_ok(
            self.jv()[id],
            id,
            self.next_job_id,
            self.tubes@,
            self.cv(),
        ) by {
            assert(old.jv().contains_key(id));
            assert(jobs[id].tube != t);
            assert(live(old.tubes@, jobs[id].tube));
        }
        assert forall|c: ConnId| #[trigger] self.conns@.contains_key(c) implies conn_ok(
            self.conns@[c],
            c,
            self.next_job_id,
            self.tubes@,
            self.jv(),
        ) by {
            assert(old.conns@.contains_key(c));
            let y = old.conns@[c];
            assert(conns[c] == y@);
            assert(y.use_tube != t);
            assert(live(old.tubes@, y.use_tube));
            assert forall|i: int| 0 <= i < y.watch@.items.len() implies live(
                self.tubes@,
                #[trigger] y.watch@.items[i],
            ) by {
                assert(live(old.tubes@, y.watch@.items[i]));
                assert(conns[c].watch.items.contains(y.watch@.items[i]));
            }
        }
        assert(live(old.tubes@, 0));
        assert(live(self.tubes@, 0));
        assert(o[at(old.tubes@, 0).pos as int] == 0);
        assert(p > 0) by {
            assert(o[p] == t);
        }
        assert(o.len() >= 2);
        assert(live(old.tubes@, o[o.len() - 1]));
        assert(at(old.tubes@, o[o.len() - 1]).pos == o.len() - 1);
        assert(default_ok(self.tubes@));
        assert(order_ok(self.tubes@, self.tube_order@.items)) by {
            let n = self.tube_order@.items;
            assert forall|u: TubeId| #[trigger] live(self.tubes@, u) implies at(self.tubes@, u).pos
                < n.len() && n[at(self.tubes@, u).pos as int] == u by {
                assert(live(old.tubes@, u));
                assert(o[at(old.tubes@, u).pos as int] == u);
                if u == o.last() {
                    assert(p < o.len() - 1);
                    assert(n[p] == u);
                } else {
                    assert(at(old.tubes@, u).pos != o.len() - 1);
                    assert(at(old.tubes@, u).pos != p);
                }
            }
            assert forall|i: int| 0 <= i < n.len() implies live(self.tubes@, #[trigger] n[i]) && at(
                self.tubes@,
                n[i],
            ).pos == i by {
                if i == p {
                    assert(n[i] == o[o.len() - 1]);
                } else {
                    assert(n[i] == o[i]);
                    assert(live(old.tubes@, o[i]));
                    assert(o[i] != t);
                    assert(o[i] != o.last());
                }
            }
        }
        assert(free_ok(self.tubes@, self.free_tube_ids@)) by {
            let f = old.free_tube_ids@;
            let g = self.free_tube_ids@;
            assert(!f.contains(t));
            assert forall|u: TubeId| #[trigger] g.contains(u) implies u < self.tubes@.len()
                && !live(self.tubes@, u) by {
                if u != t {
                    let i = g.index_of(u);
                    assert(f[i] == u);
                    assert(f.contains(u));
                    assert(!live(old.tubes@, u));
                }
            }
            assert forall|u: TubeId| u < self.tubes@.len() && !(#[trigger] live(
                self.tubes@,
                u,
            )) implies g.contains(u) by {
                if u == t {
                    assert(g[f.len() as int] == t);
                } else {
                    assert(!live(old.tubes@, u));
                    assert(f.contains(u));
                    assert(g[f.index_of(u)] == u);
                }
            }
        }
        assert(names_ok(self.tubes@, self.tube_ids@)) by {
            let n = self.tube_ids@;
            let m = old.tube_ids@;
            assert forall|i: int, j: int|
                #![trigger n[i], n[j]]
                0 <= i < j < n.len() implies bytes_lt(n[i].0@, n[j].0@) by {
                let a = if i < k {
                    i
                } else {
                    i + 1
                };
                let b = if j < k {
                    j
                } else {
                    j + 1
                };
                assert(n[i] == m[a]);
                assert(n[j] == m[b]);
            }
            assert forall|i: int| 0 <= i < n.len() implies live(self.tubes@, (#[trigger] n[i]).1)
                && at(self.tubes@, n[i].1).name@ == n[i].0@ by {
                let a = if i < k {
                    i
                } else {
                    i + 1
                };
                assert(n[i] == m[a]);
                assert(live(old.tubes@, m[a].1));
                if m[a].1 == t {
                    bytes_lt_is_a_strict_order(m[a].0@, m[k].0@, m[a].0@);
                    if a < k {
                        assert(bytes_lt(m[a].0@, m[k].0@));
                    } else {
                        assert(bytes_lt(m[k].0@, m[a].0@));
                    }
                }
            }
            assert forall|u: TubeId| #[trigger] live(self.tubes@, u) implies exists|i: int|
                0 <= i < n.len() && (#[trigger] n[i]).1 == u by {
                assert(live(old.tubes@, u));
                let a = choose|i: int| 0 <= i < m.len() && (#[trigger] m[i]).1 == u;
                if a < k {
                    assert(n[a] == m[a]);
                } else {
                    assert(n[a - 1] == m[a]);
                }
            }
        }
        assert(self.delay_heads@ =~= heads_of(self.tubes@));
        assert(self.pauses@ =~= pauses_of(self.tubes@));
        assert(self.dispatchable@ =~= dispatchable_of(self.tubes@));
    }

    /// Destroys tube `id` if it has no more uses, watchers or jobs. "default"
    /// is immortal.
    pub(super) fn gc_tube_if_orphan(&mut self, id: TubeId)
        requires
            old(self).wf(),
        ensures
            final(self).host() == old(self).host(),
            final(self).wf(),
            final(self)@ == old(self)@.collecting(id),
    {
        broadcast use {crate::ordset::group_ordered, vstd::std_specs::btree::group_btree_axioms};

        if id == DEFAULT_TUBE || id >= self.tubes.len() {
            return;
        }
        proof {
            if live(self.tubes@, id) {
                assert(tube_ok(at(self.tubes@, id), id, self.jv(), self.cv()));
                assert(self@.live(id));
            } else {
                assert(!self@.live(id));
            }
        }
        match &self.tubes[id] {
            Some(t) => {
                if t.using_ct != 0 || t.watching_ct != 0 || t.job_ref_ct != 0 {
                    return;
                }
            },
            None => {
                return;
            },
        }
        let ghost o = self.tube_order@.items;
        let ghost was = at(self.tubes@, id);
        proof {
            self.lemma_place(id);
            assert(live(self.tubes@, 0));
        }
        let mut slot: Option<TubeState> = None;
        std::mem::swap(&mut slot, &mut self.tubes[id]);
        let t: TubeState = slot.unwrap();
        let k: usize = name_position(&self.tube_ids, &t.name);
        proof {
            let n = self.tube_ids@;
            let a = choose|i: int| 0 <= i < n.len() && (#[trigger] n[i]).1 == id;
            bytes_lt_is_a_strict_order(was.name@, was.name@, was.name@);
            if a < k {
                assert(bytes_lt(n[a].0@, was.name@));
            } else if a > k {
                assert(bytes_lt(n[k as int].0@, n[a].0@));
            }
            assert(a == k);
        }
        let _ = self.tube_ids.remove(k);
        if t.pause > 0 {
            let _ = self.pauses.remove(&(t.unpause_at, id));
        }
        if let Some(d) = t.delay_head {
            let _ = self.delay_heads.remove(&(d, id));
        }
        if t.dispatchable {
            let _ = self.dispatchable.remove(&id);
        }
        // Swap-with-last: the moved tube takes this position.
        let _ = self.tube_order.remove_at(t.pos);
        if t.pos < self.tube_order.items.len() {
            let moved: TubeId = self.tube_order.items[t.pos];
            proof {
                assert(moved == o[o.len() - 1]);
                assert(live(old(self).tubes@, o[o.len() - 1]));
            }
            if let Some(m) = &mut self.tubes[moved] {
                m.pos = t.pos;
            }
        }
        self.free_tube_ids.push(id);
        proof {
            assert(o[was.pos as int] == id);
            assert forall|u: TubeId| #[trigger] live(self.tubes@, u) implies at(self.tubes@, u) == (
            TubeState {
                pos: if u == o.last() {
                    was.pos
                } else {
                    at(old(self).tubes@, u).pos
                },
                ..at(old(self).tubes@, u)
            }) by {
                assert(live(old(self).tubes@, o[o.len() - 1]));
            }
            self.lemma_tube_gone(*old(self), id, k as int);
            let m = old(self)@.collecting(id);
            assert forall|u: int| 0 <= u < self@.tubes.len() implies self@.tubes[u] == m.tubes[u] by {
                assert(self.tubes.len() == self.tubes@.len());
                assert(live(old(self).tubes@, o[o.len() - 1]));
                if u != id {
                    assert(live(self.tubes@, u as usize) == live(old(self).tubes@, u as usize));
                }
            }
            assert(self@.tubes =~= m.tubes);
            assert(self@ =~= m);
        }
    }
}

} // verus!
