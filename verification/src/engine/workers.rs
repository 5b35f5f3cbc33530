//! The commands of workers.

use super::dispatch::{bump_u32, bump_u64};
use super::Engine;
use crate::answers::{
    answered, lemma_answered_since, lemma_just_answered, lemma_not_reserved, lemma_reserved,
    same_waits,
};
use crate::api::{send, sent, ConnId, Nanos, Outbox, MAX_NOW, NANOS_PER_SEC};
use crate::buf::bytes_clone;
use crate::inv::{at, conn_ok, live, tube_ok};
use crate::model::{ConnView, JobRec, JobState, TubeId};
use crate::ms::{lemma_position, lemma_swap_remove, position};
use crate::proto::{JobId, Response, ResponseView, TubeName};
use crate::resting::waits;
use crate::rules::{bump, later, ready_set, Model, OpCounts};
use crate::settle::{
    lemma_collecting, lemma_making, lemma_reref, lemma_same_core, lemma_same_refs, quiet, same_refs,
    settled,
};
use vstd::prelude::*;

verus! {

impl Engine {
    /// watch
    pub(super) fn cmd_watch(&mut self, cid: ConnId, tube: TubeName, out: &mut Outbox)
        requires
            old(self).wf(),
            settled(old(self)@),
            old(self)@.conns.contains_key(cid),
            !old(self)@.conns[cid].waiting,
        ensures
            final(self).host() == old(self).host(),
            final(self).wf(),
            settled(final(self)@),
            (final(self)@, sent(final(out)@)) == old(self)@.cmd_watch(cid, tube@, sent(old(out)@)),
    {
        broadcast use {crate::ordset::group_ordered, vstd::std_specs::btree::group_btree_axioms};
        broadcast use vstd::laws_eq::group_laws_eq;

        self.ops.cmd_watch = bump_u64(self.ops.cmd_watch);
        let ghost m = self@;
        proof {
            assert(self.wf());
            assert(m =~= (Model {
                ops: OpCounts { cmd_watch: bump(old(self)@.ops.cmd_watch), ..old(self)@.ops },
                ..old(self)@
            }));
            lemma_same_core(old(self)@, m);
            self.lemma_free_slot();
            lemma_making(m, tube@);
        }
        let tid: TubeId = self.find_or_make_tube(&tube);
        let ghost n = self@;
        proof {
            assert(self.conns@.dom().finite());
            assert(n.conns.dom() =~= self.conns@.dom());
            assert(self.conns@.contains_key(cid));
            assert(old(self).conns@.contains_key(cid));
            assert(conn_ok(
                old(self).conns@[cid],
                cid,
                old(self).next_job_id,
                old(self).tubes@,
                old(self).jv(),
            ));
        }
        let (already, len) = match self.conns.get(&cid) {
            Some(c) => (c.watch.contains(&tid), c.watch.len()),
            None => (true, 0),
        };
        let mut count: u64 = len as u64;
        if !already {
            let ghost v = ConnView { watch: n.conns[cid].watch.append(tid), ..n.conns[cid] };
            self.add_watch(cid, tid);
            count = self.watch_len(cid) as u64;
            proof {
                let w = n.conns[cid].watch.items;
                assert(v.watch.items[w.len() as int] == tid);
                assert forall|u: TubeId| #[trigger] w.contains(u) implies v.watch.items.contains(
                    u,
                ) by {
                    assert(v.watch.items[w.index_of(u)] == u);
                }
                lemma_reref(n, cid, v, tid, 0);
            }
        } else {
            proof {
                if m.tube_named(tube@) is None {
                    assert(!m.live(tid));
                    let w = old(self).conns@[cid].watch@.items;
                    assert(w.contains(tid));
                    assert(live(old(self).tubes@, w[w.index_of(tid)]));
                    assert(m.live(tid));
                }
            }
        }
        send(out, cid, Response::Watching(count));
    }

    /// How many tubes connection `cid` watches.
    fn watch_len(&self, cid: ConnId) -> (r: usize)
        requires
            self.wf(),
            self@.conns.contains_key(cid),
        ensures
            r == self@.conns[cid].watch.items.len(),
    {
        broadcast use {crate::ordset::group_ordered, vstd::std_specs::btree::group_btree_axioms};

        match self.conns.get(&cid) {
            Some(c) => c.watch.len(),
            None => 0,
        }
    }

    /// Where tube `tid` stands in the watch list of connection `cid`.
    fn watch_position(&self, cid: ConnId, tid: TubeId) -> (r: Option<usize>)
        requires
            self.wf(),
            self@.conns.contains_key(cid),
        ensures
            match r {
                Some(i) => self@.conns[cid].watch.items.contains(tid) && i == position(
                    self@.conns[cid].watch.items,
                    tid,
                ) && i < self@.conns[cid].watch.items.len(),
                None => !self@.conns[cid].watch.items.contains(tid),
            },
    {
        broadcast use {crate::ordset::group_ordered, vstd::std_specs::btree::group_btree_axioms};

        match self.conns.get(&cid) {
            Some(c) => {
                let n: usize = c.watch.items.len();
                let mut i: usize = 0;
                while i < n
                    invariant
                        i <= n,
                        n == c.watch.items@.len(),
                        c.watch.items@ == self@.conns[cid].watch.items,
                        forall|k: int| 0 <= k < i ==> c.watch.items@[k] != tid,
                    decreases n - i,
                {
                    if c.watch.items[i] == tid {
                        proof {
                            crate::ms::lemma_position_is(c.watch.items@, tid, i as int);
                        }
                        return Some(i);
                    }
                    i = i + 1;
                }
                proof {
                    lemma_position(c.watch.items@, tid);
                }
                None
            },
            None => None,
        }
    }

    /// ignore
    pub(super) fn cmd_ignore(&mut self, cid: ConnId, tube: TubeName, out: &mut Outbox)
        requires
            old(self).wf(),
            settled(old(self)@),
            old(self)@.conns.contains_key(cid),
            !old(self)@.conns[cid].waiting,
        ensures
            final(self).host() == old(self).host(),
            final(self).wf(),
            settled(final(self)@),
            (final(self)@, sent(final(out)@)) == old(self)@.cmd_ignore(
                cid,
                tube@,
                sent(old(out)@),
            ),
    {
        broadcast use {crate::ordset::group_ordered, vstd::std_specs::btree::group_btree_axioms};

        self.ops.cmd_ignore = bump_u64(self.ops.cmd_ignore);
        let ghost m = self@;
        proof {
            assert(self.wf());
            assert(m =~= (Model {
                ops: OpCounts { cmd_ignore: bump(old(self)@.ops.cmd_ignore), ..old(self)@.ops },
                ..old(self)@
            }));
            lemma_same_core(old(self)@, m);
            assert(self.conns@.dom().finite());
            assert(m.conns.dom() =~= self.conns@.dom());
            assert(self.conns@.contains_key(cid));
            assert(conn_ok(self.conns@[cid], cid, self.next_job_id, self.tubes@, self.jv()));
        }
        let len: usize = self.watch_len(cid);
        let named = self.find_tube(&tube);
        if let Some(t) = named {
            if let Some(i) = self.watch_position(cid, t) {
                if len < 2 {
                    send(out, cid, Response::NotIgnored);
                    return;
                }
                let ghost w = m.conns[cid].watch;
                let ghost v = ConnView { watch: w.remove(t), ..m.conns[cid] };
                proof {
                    lemma_position(w.items, t);
                    lemma_swap_remove(w.items, i as int);
                }
                let tid: TubeId = self.remove_watch(cid, i);
                proof {
                    assert(tid == t);
                    assert(self@ == m.with_conn(cid, v));
                    lemma_reref(m, cid, v, 0, tid);
                    lemma_collecting(self@, tid);
                }
                self.gc_tube_if_orphan(tid);
                send(out, cid, Response::Watching((len - 1) as u64));
                return;
            }
        }
        send(out, cid, Response::Watching(len as u64));
    }

    /// Whether some tube that connection `cid` watches has a ready job.
    fn conn_ready(&self, cid: ConnId) -> (r: bool)
        requires
            self.wf(),
            self@.conns.contains_key(cid),
        ensures
            r == self@.ready_for(cid),
    {
        broadcast use {crate::ordset::group_ordered, vstd::std_specs::btree::group_btree_axioms};

        proof {
            assert(self.conns@.contains_key(cid));
            assert(conn_ok(self.conns@[cid], cid, self.next_job_id, self.tubes@, self.jv()));
        }
        match self.conns.get(&cid) {
            Some(c) => {
                let n: usize = c.watch.items.len();
                let mut i: usize = 0;
                while i < n
                    invariant
                        i <= n,
                        self.wf(),
                        n == c.watch.items@.len(),
                        c.watch.items@ == self@.conns[cid].watch.items,
                        forall|k: int| 0 <= k < n ==> live(self.tubes@, #[trigger] c.watch.items@[k]),
                        forall|k: int|
                            0 <= k < i ==> at(
                                self.tubes@,
                                #[trigger] c.watch.items@[k],
                            ).ready@.is_empty(),
                    decreases n - i,
                {
                    let tid: TubeId = c.watch.items[i];
                    assert(live(self.tubes@, tid));
                    assert(tube_ok(at(self.tubes@, tid), tid, self.jv(), self.cv()));
                    if let Some(t) = &self.tubes[tid] {
                        if !t.ready.is_empty() {
                            proof {
                                assert(exists|p: (u32, JobId)| t.ready@.contains(p)) by {
                                    if forall|p: (u32, JobId)| !t.ready@.contains(p) {
                                        assert(t.ready@ =~= Set::empty());
                                    }
                                }
                                let p = choose|p: (u32, JobId)| t.ready@.contains(p);
                                assert(ready_set(self.jv(), tid).contains(p));
                                assert(self@.jobs.contains_key(p.1));
                                assert(self@.conns[cid].watch.items.contains(tid));
                            }
                            return true;
                        }
                    }
                    i = i + 1;
                }
                proof {
                    if self@.ready_for(cid) {
                        let id = choose|id: JobId|
                            {
                                &&& #[trigger] self@.jobs.contains_key(id)
                                &&& self@.jobs[id].state == JobState::Ready
                                &&& self@.conns[cid].watch.items.contains(self@.jobs[id].tube)
                            };
                        let t = self@.jobs[id].tube;
                        let k = c.watch.items@.index_of(t);
                        assert(c.watch.items@[k] == t);
                        assert(live(self.tubes@, t));
                        assert(tube_ok(at(self.tubes@, t), t, self.jv(), self.cv()));
                        assert(at(self.tubes@, t).ready@.contains((self@.jobs[id].pri, id)));
                    }
                }
                false
            },
            None => false,
        }
    }

    /// Counts a reserve, and notes that connection `cid` reserves jobs.
    fn begin_reserve(&mut self, cid: ConnId, timeout: Option<u32>)
        requires
            old(self).wf(),
            settled(old(self)@),
            old(self)@.conns.contains_key(cid),
        ensures
            final(self).host() == old(self).host(),
            final(self).wf(),
            settled(final(self)@),
            final(self)@ == ({
                let ops = match timeout {
                    None => OpCounts {
                        cmd_reserve: bump(old(self)@.ops.cmd_reserve),
                        ..old(self)@.ops
                    },
                    Some(_) => OpCounts {
                        cmd_reserve_with_timeout: bump(old(self)@.ops.cmd_reserve_with_timeout),
                        ..old(self)@.ops
                    },
                };
                (Model { ops, ..old(self)@ }).worker(cid)
            }),
    {
        match timeout {
            None => {
                self.ops.cmd_reserve = bump_u64(self.ops.cmd_reserve);
            },
            Some(_) => {
                self.ops.cmd_reserve_with_timeout = bump_u64(self.ops.cmd_reserve_with_timeout);
            },
        }
        let ghost ops = match timeout {
            None => OpCounts {
                cmd_reserve: bump(old(self)@.ops.cmd_reserve),
                ..old(self)@.ops
            },
            Some(_) => OpCounts {
                cmd_reserve_with_timeout: bump(old(self)@.ops.cmd_reserve_with_timeout),
                ..old(self)@.ops
            },
        };
        proof {
            assert(self.wf());
            assert(self@ =~= (Model { ops, ..old(self)@ }));
            lemma_same_core(old(self)@, self@);
        }
        let ghost m0 = self@;
        self.connsetworker(cid);
        let ghost m = self@;
        proof {
            assert(same_refs(m0, m)) by {
                assert(m0.conns.dom() =~= m.conns.dom());
            }
            lemma_same_refs(m0, m);
            assert(quiet(m)) by {
                assert forall|id: JobId| !m.awaited(id) by {
                    assert(!m0.awaited(id));
                }
            }
        }
    }

    /// Has connection `cid` wait, and hands out jobs. A wait of 0 seconds is
    /// over at once.
    fn wait_for_job(&mut self, now: Nanos, cid: ConnId, timeout: Option<u32>, out: &mut Outbox)
        requires
            old(self).wf(),
            settled(old(self)@),
            now <= MAX_NOW,
            old(self)@.conns.contains_key(cid),
            !old(self)@.conns[cid].waiting,
        ensures
            answered(
                old(self)@,
                cid,
                false,
                true,
                sent(old(out)@),
                final(self)@,
                sent(final(out)@),
            ),
            final(self).host() == old(self).host(),
            final(self).wf(),
            settled(final(self)@),
            ({
                let until: Option<Nanos> = match timeout {
                    None => None,
                    Some(s) => Some(later(now, s)),
                };
                let (n, o) = old(self)@.start_waiting(cid, until).process_queue(
                    now,
                    sent(old(out)@),
                );
                if timeout == Some(0u32) && n.conns[cid].waiting {
                    &&& final(self)@ == n.stop_waiting(cid)
                    &&& sent(final(out)@) == o.push(
                        (
                            cid,
                            if n.deadline_soon(cid, now) {
                                ResponseView::DeadlineSoon
                            } else {
                                ResponseView::TimedOut
                            },
                        ),
                    )
                } else {
                    final(self)@ == n && sent(final(out)@) == o
                }
            }),
    {
        broadcast use {crate::ordset::group_ordered, vstd::std_specs::btree::group_btree_axioms};

        let ghost m = self@;
        let until: Option<Nanos> = match timeout {
            None => None,
            Some(s) => Some(now + (s as u64) * NANOS_PER_SEC),
        };
        self.enqueue_waiting_conn(cid, until);
        let ghost w = self@;
        assert(same_refs(m, w)) by {
            assert(m.conns.dom() =~= w.conns.dom());
        }
        self.process_queue(now, out);
        let ghost n = self@;
        proof {
            lemma_same_refs(m, w);
            lemma_same_refs(w, n);
            assert(waits(w, cid) && !waits(m, cid));
            assert forall|d: ConnId| d != cid implies #[trigger] waits(w, d) == waits(m, d) by {}
            lemma_reserved(m, w, n, cid, sent(old(out)@), sent(out@));
        }
        let ghost told = sent(out@);
        if timeout == Some(0u32) {
            let waiting = match self.conns.get(&cid) {
                Some(c) => c.waiting,
                None => false,
            };
            if waiting {
                let soon = self.conn_deadline_soon(cid, now);
                self.do_remove_waiting_conn(cid);
                proof {
                    Self::lemma_still_quiet(n, cid);
                    lemma_same_refs(n, self@);
                    let b = self@;
                    let r = if soon {
                        ResponseView::DeadlineSoon
                    } else {
                        ResponseView::TimedOut
                    };
                    assert(waits(n, cid) && !waits(b, cid));
                    assert forall|d: ConnId| d != cid implies #[trigger] waits(b, d) == waits(
                        n,
                        d,
                    ) by {}
                    lemma_not_reserved(m, w, n, b, cid, sent(old(out)@), told, r);
                }
                if soon {
                    send(out, cid, Response::DeadlineSoon);
                } else {
                    send(out, cid, Response::TimedOut);
                }
            }
        }
    }

    /// reserve and reserve-with-timeout
    pub(super) fn cmd_reserve(
        &mut self,
        now: Nanos,
        cid: ConnId,
        timeout: Option<u32>,
        out: &mut Outbox,
    )
        requires
            old(self).wf(),
            settled(old(self)@),
            now <= MAX_NOW,
            old(self)@.conns.contains_key(cid),
            !old(self)@.conns[cid].waiting,
        ensures
            answered(
                old(self)@,
                cid,
                false,
                true,
                sent(old(out)@),
                final(self)@,
                sent(final(out)@),
            ),
            final(self).host() == old(self).host(),
            final(self).wf(),
            settled(final(self)@),
            (final(self)@, sent(final(out)@)) == old(self)@.cmd_reserve(
                now,
                cid,
                timeout,
                sent(old(out)@),
            ),
    {
        broadcast use {crate::ordset::group_ordered, vstd::std_specs::btree::group_btree_axioms};

        self.begin_reserve(cid, timeout);
        let ghost m = self@;
        assert(same_waits(old(self)@, m));
        if self.conn_deadline_soon(cid, now) && !self.conn_ready(cid) {
            proof {
                lemma_just_answered(old(self)@, m, cid, sent(out@), ResponseView::DeadlineSoon);
            }
            send(out, cid, Response::DeadlineSoon);
            return;
        }
        self.wait_for_job(now, cid, timeout, out);
        proof {
            lemma_answered_since(old(self)@, m, self@, cid, true, sent(old(out)@), sent(out@));
        }
    }

    /// reserve-job
    pub(super) fn cmd_reserve_job(&mut self, now: Nanos, cid: ConnId, id: JobId, out: &mut Outbox)
        requires
            old(self).wf(),
            settled(old(self)@),
            now <= MAX_NOW,
            old(self)@.conns.contains_key(cid),
        ensures
            final(self).host() == old(self).host(),
            final(self).wf(),
            settled(final(self)@),
            (final(self)@, sent(final(out)@)) == old(self)@.cmd_reserve_job(
                now,
                cid,
                id,
                sent(old(out)@),
            ),
    {
        broadcast use {crate::ordset::group_ordered, vstd::std_specs::btree::group_btree_axioms};

        let free = match self.jobs.get(&id) {
            Some(j) => j.state != JobState::Reserved,
            None => false,
        };
        if !free {
            send(out, cid, Response::NotFound);
            return;
        }
        self.connsetworker(cid);
        let mut j: JobRec = self.take_job(id);
        j.state = JobState::Reserved;
        j.reserver = Some(cid);
        j.deadline_at = now + (j.ttr as u64) * NANOS_PER_SEC;
        j.reserve_ct = bump_u32(j.reserve_ct);
        let body = bytes_clone(&j.body);
        self.put_job(j);
        proof {
            let a = old(self)@;
            let b = self@;
            assert(old(self).jv().contains_key(id));
            assert(b == a.worker(cid).reserving(id, cid, now));
            assert(same_refs(a, b)) by {
                assert(a.conns.dom() =~= b.conns.dom());
                assert(a.jobs.dom() =~= b.jobs.dom());
            }
            lemma_same_refs(a, b);
            assert(quiet(b)) by {
                assert forall|o: JobId| !b.awaited(o) by {
                    assert(!a.awaited(o));
                }
            }
        }
        send(out, cid, Response::Reserved { id, body });
    }
}

} // verus!
