//! Peeking, kicking and pausing.

use super::dispatch::{bump_u32, bump_u64};
use super::jobs::first_pair;
use super::Engine;
use crate::answers::{
    answered, handed, lemma_answered, lemma_handed_amid, lemma_handed_on, lemma_just_answered,
    lemma_none_handed, same_waits,
};
use crate::api::{send, sent, ConnId, Nanos, Outbox, MAX_NOW, NANOS_PER_SEC};
use crate::buf::bytes_clone;
use crate::inv::{at, lemma_least_empty, lemma_least_unique, live, pauses_of, tube_ok};
use crate::model::{JobRec, JobState, TubeId, TubeView};
use crate::ordset::first_ready;
use crate::proto::{JobId, Response, ResponseView, TubeName};
use crate::rules::{bump, delayed_set, is_least, least, ready_set, Model, OpCounts};
use crate::settle::{
    lemma_same_core, lemma_same_refs, lemma_tube_touched, quiet, same_refs, settled,
};
use vstd::prelude::*;

verus! {

impl Engine {
    /// The reply that shows job `id`, if there is such a job.
    fn show(&self, top: Option<JobId>) -> (r: Response)
        requires
            self.wf(),
            top is Some ==> self@.jobs.contains_key(top->0),
        ensures
            r@ == (match top {
                Some(id) => self@.found(id),
                None => ResponseView::NotFound,
            }),
    {
        broadcast use {crate::ordset::group_ordered, vstd::std_specs::btree::group_btree_axioms};

        match top {
            Some(id) => match self.jobs.get(&id) {
                Some(j) => Response::Found { id, body: bytes_clone(&j.body) },
                None => Response::NotFound,
            },
            None => Response::NotFound,
        }
    }

    /// peek
    pub(super) fn cmd_peek(&mut self, cid: ConnId, id: JobId, out: &mut Outbox)
        requires
            old(self).wf(),
            settled(old(self)@),
            old(self)@.conns.contains_key(cid),
        ensures
            final(self).host() == old(self).host(),
            final(self).wf(),
            settled(final(self)@),
            (final(self)@, sent(final(out)@)) == old(self)@.cmd_peek(cid, id, sent(old(out)@)),
    {
        broadcast use {crate::ordset::group_ordered, vstd::std_specs::btree::group_btree_axioms};

        self.ops.cmd_peek = bump_u64(self.ops.cmd_peek);
        proof {
            assert(self.wf());
            assert(self@ =~= (Model {
                ops: OpCounts { cmd_peek: bump(old(self)@.ops.cmd_peek), ..old(self)@.ops },
                ..old(self)@
            }));
            lemma_same_core(old(self)@, self@);
        }
        let top: Option<JobId> = if self.jobs.contains_key(&id) {
            Some(id)
        } else {
            None
        };
        let reply = self.show(top);
        send(out, cid, reply);
    }

    /// peek-ready
    pub(super) fn cmd_peek_ready(&mut self, cid: ConnId, out: &mut Outbox)
        requires
            old(self).wf(),
            settled(old(self)@),
            old(self)@.conns.contains_key(cid),
        ensures
            final(self).host() == old(self).host(),
            final(self).wf(),
            settled(final(self)@),
            (final(self)@, sent(final(out)@)) == old(self)@.cmd_peek_ready(cid, sent(old(out)@)),
    {
        self.ops.cmd_peek_ready = bump_u64(self.ops.cmd_peek_ready);
        proof {
            assert(self.wf());
            assert(self@ =~= (Model {
                ops: OpCounts {
                    cmd_peek_ready: bump(old(self)@.ops.cmd_peek_ready),
                    ..old(self)@.ops
                },
                ..old(self)@
            }));
            lemma_same_core(old(self)@, self@);
        }
        let tid: TubeId = self.use_tube_of(cid);
        let mut top: Option<JobId> = None;
        assert(tube_ok(at(self.tubes@, tid), tid, self.jv(), self.cv()));
        if let Some(t) = &self.tubes[tid] {
            let head = first_ready(&t.ready);
            proof {
                let s = self@.ready_in(tid);
                assert forall|q: (u64, JobId)| #[trigger] s.contains(q) implies t.ready@.contains(
                    (q.0 as u32, q.1),
                ) && (q.0 as u32) as u64 == q.0 by {
                    assert(ready_set(self.jv(), tid).contains((self@.jobs[q.1].pri, q.1)));
                }
                match head {
                    Some(p) => {
                        assert(ready_set(self.jv(), tid).contains(p));
                        assert(s.contains((p.0 as u64, p.1)));
                        assert(is_least(s, (p.0 as u64, p.1)));
                        lemma_least_unique(s, (p.0 as u64, p.1));
                    },
                    None => {
                        assert(s =~= Set::empty());
                        lemma_least_empty(s);
                    },
                }
            }
            if let Some(p) = head {
                top = Some(p.1);
            }
        }
        let reply = self.show(top);
        send(out, cid, reply);
    }

    /// peek-delayed
    pub(super) fn cmd_peek_delayed(&mut self, cid: ConnId, out: &mut Outbox)
        requires
            old(self).wf(),
            settled(old(self)@),
            old(self)@.conns.contains_key(cid),
        ensures
            final(self).host() == old(self).host(),
            final(self).wf(),
            settled(final(self)@),
            (final(self)@, sent(final(out)@)) == old(self)@.cmd_peek_delayed(cid, sent(old(out)@)),
    {
        self.ops.cmd_peek_delayed = bump_u64(self.ops.cmd_peek_delayed);
        proof {
            assert(self.wf());
            assert(self@ =~= (Model {
                ops: OpCounts {
                    cmd_peek_delayed: bump(old(self)@.ops.cmd_peek_delayed),
                    ..old(self)@.ops
                },
                ..old(self)@
            }));
            lemma_same_core(old(self)@, self@);
        }
        let tid: TubeId = self.use_tube_of(cid);
        let top: Option<JobId> = self.top_delayed(tid);
        let reply = self.show(top);
        send(out, cid, reply);
    }

    /// The delayed job of tube `tid` that becomes ready first.
    fn top_delayed(&self, tid: TubeId) -> (r: Option<JobId>)
        requires
            self.wf(),
            self@.live(tid),
        ensures
            match least(delayed_set(self@.jobs, tid)) {
                Some(p) => r == Some(p.1) && self@.is_delayed(p.1) && self@.jobs[p.1].tube == tid,
                None => r is None,
            },
    {
        let mut top: Option<JobId> = None;
        assert(live(self.tubes@, tid));
        assert(tube_ok(at(self.tubes@, tid), tid, self.jv(), self.cv()));
        if let Some(t) = &self.tubes[tid] {
            if let Some(p) = first_pair(&t.delayed) {
                assert(delayed_set(self.jv(), tid).contains(p));
                top = Some(p.1);
            }
        }
        top
    }

    /// The job of tube `tid` that was buried longest ago.
    fn top_buried(&self, tid: TubeId) -> (r: Option<JobId>)
        requires
            self.wf(),
            self@.live(tid),
        ensures
            match r {
                Some(id) => self@.tube(tid).buried.len() > 0 && id == self@.tube(tid).buried[0]
                    && self@.jobs.contains_key(id) && self@.jobs[id].state == JobState::Buried
                    && self@.jobs[id].tube == tid,
                None => self@.tube(tid).buried.len() == 0,
            },
    {
        let mut top: Option<JobId> = None;
        assert(live(self.tubes@, tid));
        assert(tube_ok(at(self.tubes@, tid), tid, self.jv(), self.cv()));
        if let Some(t) = &self.tubes[tid] {
            if t.buried.len() > 0 {
                assert(t.buried@.contains(t.buried@[0]));
                top = Some(t.buried[0]);
            }
        }
        top
    }

    /// peek-buried
    pub(super) fn cmd_peek_buried(&mut self, cid: ConnId, out: &mut Outbox)
        requires
            old(self).wf(),
            settled(old(self)@),
            old(self)@.conns.contains_key(cid),
        ensures
            final(self).host() == old(self).host(),
            final(self).wf(),
            settled(final(self)@),
            (final(self)@, sent(final(out)@)) == old(self)@.cmd_peek_buried(cid, sent(old(out)@)),
    {
        self.ops.cmd_peek_buried = bump_u64(self.ops.cmd_peek_buried);
        proof {
            assert(self.wf());
            assert(self@ =~= (Model {
                ops: OpCounts {
                    cmd_peek_buried: bump(old(self)@.ops.cmd_peek_buried),
                    ..old(self)@.ops
                },
                ..old(self)@
            }));
            lemma_same_core(old(self)@, self@);
        }
        let tid: TubeId = self.use_tube_of(cid);
        let top: Option<JobId> = self.top_buried(tid);
        let reply = self.show(top);
        send(out, cid, reply);
    }

    /// Kicks job `id`.
    #[verifier::rlimit(40)]
    fn kick_to_ready(&mut self, id: JobId, now: Nanos, out: &mut Outbox)
        requires
            old(self).wf(),
            now <= MAX_NOW,
            old(self)@.jobs.contains_key(id),
        ensures
            handed(old(self)@, sent(old(out)@), final(self)@, sent(final(out)@)),
            final(self).host() == old(self).host(),
            final(self).wf(),
            (final(self)@, sent(final(out)@)) == old(self)@.kicking(id, now, sent(old(out)@)),
            same_refs(old(self)@, final(self)@),
            quiet(final(self)@),
    {
        let ghost m = self@;
        let mut j: JobRec = self.take_job(id);
        j.kick_ct = bump_u32(j.kick_ct);
        j.state = JobState::Ready;
        j.reserver = None;
        self.put_job(j);
        self.journal_update(id);
        let ghost n = self@;
        assert(same_refs(m, n)) by {
            assert(old(self).jv().contains_key(id));
            assert(m.conns.dom() =~= n.conns.dom());
            assert(m.jobs.dom() =~= n.jobs.dom());
        }
        self.process_queue(now, out);
        proof {
            assert(same_waits(m, n));
            lemma_handed_amid(m, n, self@, self@, sent(old(out)@), sent(out@));
        }
    }

    /// Kicks up to `n` buried jobs of tube `tid` and returns how many.
    fn kick_buried(&mut self, tid: TubeId, n: u32, now: Nanos, out: &mut Outbox) -> (count: u64)
        requires
            old(self).wf(),
            now <= MAX_NOW,
            old(self)@.live(tid),
        ensures
            handed(old(self)@, sent(old(out)@), final(self)@, sent(final(out)@)),
            final(self).host() == old(self).host(),
            final(self).wf(),
            (final(self)@, sent(final(out)@), count as nat) == old(self)@.kick_buried(
                tid,
                n as nat,
                now,
                sent(old(out)@),
            ),
            same_refs(old(self)@, final(self)@),
            quiet(old(self)@) ==> quiet(final(self)@),
    {
        let mut left: u32 = n;
        let mut count: u64 = 0;
        proof {
            lemma_none_handed(self@, self@, sent(out@));
        }
        loop
            invariant
                self.host() == old(self).host(),
                self.wf(),
                now <= MAX_NOW,
                self@.live(tid),
                left + count == n,
                ({
                    let a = self@.kick_buried(tid, left as nat, now, sent(out@));
                    let b = old(self)@.kick_buried(tid, n as nat, now, sent(old(out)@));
                    a.0 == b.0 && a.1 == b.1 && a.2 + count == b.2
                }),
                same_refs(old(self)@, self@),
                quiet(old(self)@) ==> quiet(self@),
                handed(old(self)@, sent(old(out)@), self@, sent(out@)),
            ensures
                self.wf(),
                (self@, sent(out@), count as nat) == old(self)@.kick_buried(
                    tid,
                    n as nat,
                    now,
                    sent(old(out)@),
                ),
                same_refs(old(self)@, self@),
                quiet(old(self)@) ==> quiet(self@),
                handed(old(self)@, sent(old(out)@), self@, sent(out@)),
            decreases left,
        {
            if left == 0 {
                break;
            }
            match self.top_buried(tid) {
                None => {
                    break;
                },
                Some(id) => {
                    let ghost before = self@;
                    let ghost sent_before = sent(out@);
                    self.kick_to_ready(id, now, out);
                    proof {
                        lemma_handed_on(
                            old(self)@,
                            sent(old(out)@),
                            before,
                            sent_before,
                            self@,
                            sent(out@),
                        );
                    }
                    left = left - 1;
                    count = count + 1;
                },
            }
        }
        count
    }

    /// Kicks up to `n` delayed jobs of tube `tid` and returns how many.
    fn kick_delayed(&mut self, tid: TubeId, n: u32, now: Nanos, out: &mut Outbox) -> (count: u64)
        requires
            old(self).wf(),
            now <= MAX_NOW,
            old(self)@.live(tid),
        ensures
            handed(old(self)@, sent(old(out)@), final(self)@, sent(final(out)@)),
            final(self).host() == old(self).host(),
            final(self).wf(),
            (final(self)@, sent(final(out)@), count as nat) == old(self)@.kick_delayed(
                tid,
                n as nat,
                now,
                sent(old(out)@),
            ),
            same_refs(old(self)@, final(self)@),
            quiet(old(self)@) ==> quiet(final(self)@),
    {
        let mut left: u32 = n;
        let mut count: u64 = 0;
        proof {
            lemma_none_handed(self@, self@, sent(out@));
        }
        loop
            invariant
                self.host() == old(self).host(),
                self.wf(),
                now <= MAX_NOW,
                self@.live(tid),
                left + count == n,
                ({
                    let a = self@.kick_delayed(tid, left as nat, now, sent(out@));
                    let b = old(self)@.kick_delayed(tid, n as nat, now, sent(old(out)@));
                    a.0 == b.0 && a.1 == b.1 && a.2 + count == b.2
                }),
                same_refs(old(self)@, self@),
                quiet(old(self)@) ==> quiet(self@),
                handed(old(self)@, sent(old(out)@), self@, sent(out@)),
            ensures
                self.wf(),
                (self@, sent(out@), count as nat) == old(self)@.kick_delayed(
                    tid,
                    n as nat,
                    now,
                    sent(old(out)@),
                ),
                same_refs(old(self)@, self@),
                quiet(old(self)@) ==> quiet(self@),
                handed(old(self)@, sent(old(out)@), self@, sent(out@)),
            decreases left,
        {
            if left == 0 {
                break;
            }
            match self.top_delayed(tid) {
                None => {
                    break;
                },
                Some(id) => {
                    let ghost before = self@;
                    let ghost sent_before = sent(out@);
                    self.kick_to_ready(id, now, out);
                    proof {
                        lemma_handed_on(
                            old(self)@,
                            sent(old(out)@),
                            before,
                            sent_before,
                            self@,
                            sent(out@),
                        );
                    }
                    left = left - 1;
                    count = count + 1;
                },
            }
        }
        count
    }

    /// kick
    pub(super) fn cmd_kick(&mut self, now: Nanos, cid: ConnId, n: u32, out: &mut Outbox)
        requires
            old(self).wf(),
            settled(old(self)@),
            now <= MAX_NOW,
            old(self)@.conns.contains_key(cid),
        ensures
            answered(
                old(self)@,
                cid,
                false,
                false,
                sent(old(out)@),
                final(self)@,
                sent(final(out)@),
            ),
            final(self).host() == old(self).host(),
            final(self).wf(),
            settled(final(self)@),
            (final(self)@, sent(final(out)@)) == old(self)@.cmd_kick(now, cid, n, sent(old(out)@)),
    {
        self.ops.cmd_kick = bump_u64(self.ops.cmd_kick);
        proof {
            assert(self.wf());
            assert(self@ =~= (Model {
                ops: OpCounts { cmd_kick: bump(old(self)@.ops.cmd_kick), ..old(self)@.ops },
                ..old(self)@
            }));
            lemma_same_core(old(self)@, self@);
        }
        let ghost m = self@;
        let tid: TubeId = self.use_tube_of(cid);
        let has_buried = self.top_buried(tid).is_some();
        let count: u64 = if has_buried {
            self.kick_buried(tid, n, now, out)
        } else {
            self.kick_delayed(tid, n, now, out)
        };
        proof {
            lemma_same_refs(m, self@);
            assert(same_waits(old(self)@, m));
            lemma_handed_amid(old(self)@, m, self@, self@, sent(old(out)@), sent(out@));
            lemma_answered(
                old(self)@,
                self@,
                cid,
                sent(old(out)@),
                sent(out@),
                ResponseView::Kicked(count),
            );
        }
        send(out, cid, Response::Kicked(count));
    }

    /// kick-job
    pub(super) fn cmd_kick_job(&mut self, now: Nanos, cid: ConnId, id: JobId, out: &mut Outbox)
        requires
            old(self).wf(),
            settled(old(self)@),
            now <= MAX_NOW,
            old(self)@.conns.contains_key(cid),
        ensures
            answered(
                old(self)@,
                cid,
                false,
                false,
                sent(old(out)@),
                final(self)@,
                sent(final(out)@),
            ),
            final(self).host() == old(self).host(),
            final(self).wf(),
            settled(final(self)@),
            (final(self)@, sent(final(out)@)) == old(self)@.cmd_kick_job(
                now,
                cid,
                id,
                sent(old(out)@),
            ),
    {
        broadcast use {crate::ordset::group_ordered, vstd::std_specs::btree::group_btree_axioms};

        let kickable = match self.jobs.get(&id) {
            Some(j) => j.state == JobState::Buried || j.state == JobState::Delayed,
            None => false,
        };
        if kickable {
            self.kick_to_ready(id, now, out);
            proof {
                lemma_same_refs(old(self)@, self@);
                lemma_answered(
                    old(self)@,
                    self@,
                    cid,
                    sent(old(out)@),
                    sent(out@),
                    ResponseView::KickedJob,
                );
            }
            send(out, cid, Response::KickedJob);
        } else {
            proof {
                lemma_just_answered(
                    old(self)@,
                    self@,
                    cid,
                    sent(out@),
                    ResponseView::NotFound,
                );
            }
            send(out, cid, Response::NotFound);
        }
    }

    /// pause-tube
    pub(super) fn cmd_pause_tube(
        &mut self,
        now: Nanos,
        cid: ConnId,
        tube: TubeName,
        delay: u32,
        out: &mut Outbox,
    )
        requires
            old(self).wf(),
            settled(old(self)@),
            now <= MAX_NOW,
            old(self)@.conns.contains_key(cid),
        ensures
            final(self).host() == old(self).host(),
            final(self).wf(),
            settled(final(self)@),
            (final(self)@, sent(final(out)@)) == old(self)@.cmd_pause_tube(
                now,
                cid,
                tube@,
                delay,
                sent(old(out)@),
            ),
    {
        broadcast use {crate::ordset::group_ordered, vstd::std_specs::btree::group_btree_axioms};

        self.ops.cmd_pause_tube = bump_u64(self.ops.cmd_pause_tube);
        proof {
            assert(self.wf());
            assert(self@ =~= (Model {
                ops: OpCounts {
                    cmd_pause_tube: bump(old(self)@.ops.cmd_pause_tube),
                    ..old(self)@.ops
                },
                ..old(self)@
            }));
            lemma_same_core(old(self)@, self@);
        }
        let ghost m = self@;
        let ghost before = *self;
        match self.find_tube(&tube) {
            None => {
                send(out, cid, Response::NotFound);
            },
            Some(tid) => {
                let length: Nanos = if delay == 0 {
                    1
                } else {
                    (delay as u64) * NANOS_PER_SEC
                };
                let until: Nanos = now + length;
                if let Some(t) = &mut self.tubes[tid] {
                    if t.pause > 0 {
                        let _ = self.pauses.remove(&(t.unpause_at, tid));
                    }
                    t.pause = length;
                    t.unpause_at = until;
                    t.stat.pause_ct = bump_u64(t.stat.pause_ct);
                    let _ = self.pauses.insert((until, tid));
                }
                proof {
                    assert(self.pauses@ =~= pauses_of(self.tubes@));
                    self.lemma_tube_noted(before, tid);
                    let v = TubeView {
                        pause: Model::pause_length(delay),
                        unpause_at: (now + Model::pause_length(delay)) as u64,
                        pause_ct: bump(m.tube(tid).pause_ct),
                        ..m.tube(tid)
                    };
                    assert(self@ =~= m.with_tube(tid, v));
                    lemma_tube_touched(m, tid, v);
                    lemma_same_refs(m, self@);
                }
                send(out, cid, Response::Paused);
            },
        }
    }
}

} // verus!
