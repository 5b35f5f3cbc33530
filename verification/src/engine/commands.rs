//! The commands that change the queue.

use super::dispatch::bump_u64;
use super::jobs::{job_fits, unclaimed};
use super::Engine;
use crate::answers::{
    answered, handed, lemma_answered, lemma_handed_amid, lemma_just_answered, same_waits,
};
use crate::api::{
    entries, send, sent, ConnId, JobRecord, JournalEntry, Nanos, Outbox, RecordState, MAX_NOW,
    NANOS_PER_SEC,
};
use crate::buf::{bytes_clone, bytes_of};
use crate::inv::{conn_ok, job_ok, live};
use crate::model::{ConnView, JobRec, JobState, TubeId, TubeView};
use crate::proto::{JobId, Response, ResponseView, TubeName};
use crate::rules::{bump, record_of, Model, OpCounts};
use crate::settle::{
    anchored, lemma_collecting, lemma_job_added, lemma_making, lemma_reref, lemma_same_core,
    lemma_same_refs, lemma_tube_touched, quiet, same_refs, settled, watching,
};
use bytes::Bytes;
use vstd::prelude::*;

verus! {

impl Engine {
    /// The persistent record of `j` as it is now. A reservation is never
    /// journaled: a reserved job counts as ready.
    fn job_record(j: &JobRec) -> (r: JobRecord)
        ensures
            r == record_of(j@),
    {
        let (state, deadline_at) = match j.state {
            JobState::Delayed => (RecordState::Delayed, j.deadline_at),
            JobState::Buried => (RecordState::Buried, 0),
            JobState::Ready => (RecordState::Ready, 0),
            JobState::Reserved => (RecordState::Ready, 0),
        };
        JobRecord {
            id: j.id,
            pri: j.pri,
            delay: j.delay,
            ttr: j.ttr,
            created_at: j.created_at,
            deadline_at,
            state,
            reserve_ct: j.reserve_ct,
            timeout_ct: j.timeout_ct,
            release_ct: j.release_ct,
            bury_ct: j.bury_ct,
            kick_ct: j.kick_ct,
        }
    }

    /// Journals `e`, if there is a journal.
    pub(super) fn journal_entry(&mut self, e: JournalEntry)
        requires
            old(self).wf(),
        ensures
            final(self).host() == old(self).host(),
            final(self).wf(),
            final(self)@ == old(self)@.journaling(e@),
    {
        if self.cfg.journal {
            self.journal.push(e);
            assert(entries(self.journal@) =~= entries(old(self).journal@).push(e@));
            assert(self.wf());
            assert(self@ =~= old(self)@.journaling(e@));
        }
    }

    /// Journals the new job `id`.
    fn journal_put(&mut self, id: JobId)
        requires
            old(self).wf(),
            old(self)@.jobs.contains_key(id),
        ensures
            final(self).host() == old(self).host(),
            final(self).wf(),
            final(self)@ == old(self)@.journaling_put(id),
    {
        broadcast use {crate::ordset::group_ordered, vstd::std_specs::btree::group_btree_axioms};

        if !self.cfg.journal {
            return;
        }
        proof {
            assert(self.jv().contains_key(id));
            assert(live(self.tubes@, self.jv()[id].tube));
        }
        let mut entry: JournalEntry = JournalEntry::Delete(id);
        if let Some(j) = self.jobs.get(&id) {
            if let Some(t) = &self.tubes[j.tube] {
                entry = JournalEntry::Put {
                    record: Self::job_record(j),
                    tube: t.name.clone(),
                    body: bytes_clone(&j.body),
                };
            }
        }
        self.journal_entry(entry);
    }

    /// Journals a later transition of job `id`.
    pub(super) fn journal_update(&mut self, id: JobId)
        requires
            old(self).wf(),
            old(self)@.jobs.contains_key(id),
        ensures
            final(self).host() == old(self).host(),
            final(self).wf(),
            final(self)@ == old(self)@.journaling_update(id),
    {
        broadcast use {crate::ordset::group_ordered, vstd::std_specs::btree::group_btree_axioms};

        if !self.cfg.journal {
            return;
        }
        let mut entry: JournalEntry = JournalEntry::Delete(id);
        if let Some(j) = self.jobs.get(&id) {
            entry = JournalEntry::Update(Self::job_record(j));
        }
        self.journal_entry(entry);
    }

    /// All is well after a number for a job has been handed out.
    proof fn lemma_id_taken(self, old: Engine)
        requires
            old.wf(),
            self == (Engine { next_job_id: self.next_job_id, ..old }),
            self.next_job_id >= old.next_job_id,
        ensures
            self.wf(),
    {
        assert forall|id: JobId| #[trigger] self.jv().contains_key(id) implies job_ok(
            self.jv()[id],
            id,
            self.next_job_id,
            self.tubes@,
            self.cv(),
        ) by {
            assert(old.jv().contains_key(id));
        }
        assert forall|c: ConnId| #[trigger] self.conns@.contains_key(c) implies conn_ok(
            self.conns@[c],
            c,
            self.next_job_id,
            self.tubes@,
            self.jv(),
        ) by {
            assert(old.conns@.contains_key(c));
        }
    }

    /// Hands out a number for a job, which no job and no put in flight has.
    pub(super) fn take_id(&mut self) -> (id: JobId)
        requires
            old(self).wf(),
            old(self)@.next_job_id < u64::MAX,
        ensures
            final(self).host() == old(self).host(),
            final(self).wf(),
            id == old(self)@.next_job_id,
            final(self)@ == old(self)@.id_taken(),
            !final(self)@.jobs.contains_key(id),
            unclaimed(final(self)@.conns, id),
    {
        let id: JobId = self.next_job_id;
        self.next_job_id = id + 1;
        proof {
            self.lemma_id_taken(*old(self));
            assert(self@ =~= old(self)@.id_taken());
            if self@.jobs.contains_key(id) {
                assert(old(self).jv().contains_key(id));
            }
            assert forall|c: ConnId|
                #![trigger self@.conns[c]]
                self@.conns.contains_key(c) && self@.conns[c].pending_put is Some implies self@.conns[c].pending_put->0.id
                != Some(id) by {
                assert(old(self).conns@.contains_key(c));
            }
        }
        id
    }

    /// Counts one more put.
    pub(super) fn count_put(&mut self)
        requires
            old(self).wf(),
        ensures
            final(self).host() == old(self).host(),
            final(self).wf(),
            final(self)@ == old(self)@.count_put(),
    {
        self.ops.cmd_put = bump_u64(self.ops.cmd_put);
        assert(self.wf());
        assert(self@ =~= old(self)@.count_put());
    }

    /// Applies what the command line of a put brings about, unless that was
    /// done when it arrived, and returns the job's number and when it was made.
    fn accept_put(&mut self, now: Nanos, cid: ConnId) -> (r: (JobId, Nanos))
        requires
            old(self).wf(),
            old(self)@.conns.contains_key(cid),
            old(self)@.next_job_id < u64::MAX || (old(self)@.conns[cid].pending_put is Some && old(
                self,
            )@.conns[cid].pending_put->0.id is Some),
        ensures
            final(self).host() == old(self).host(),
            final(self).wf(),
            final(self)@ == old(self)@.put_accepted(cid),
            ({
                let p = old(self)@.conns[cid].pending_put;
                r == (if p is Some && p->0.id is Some {
                    (p->0.id->0, p->0.created_at)
                } else {
                    (old(self)@.next_job_id, now)
                })
            }),
            !final(self)@.jobs.contains_key(r.0),
            r.0 < final(self)@.next_job_id,
            unclaimed(final(self)@.conns, r.0),
            same_refs(old(self)@, final(self)@),
    {
        proof {
            assert(self.conns@.contains_key(cid));
            assert(conn_ok(self.conns@[cid], cid, self.next_job_id, self.tubes@, self.jv()));
            assert(self.cv()[cid] == self.conns@[cid]@);
        }
        let ghost conns = self@.conns;
        let pending = self.set_pending(cid, None);
        if let Some(p) = pending {
            if let Some(id) = p.id {
                proof {
                    assert forall|c: ConnId|
                        #![trigger self@.conns[c]]
                        self@.conns.contains_key(c) && self@.conns[c].pending_put is Some implies self@.conns[c].pending_put->0.id
                        != Some(id) by {
                        assert(conns.contains_key(c));
                        assert(c != cid);
                        assert(conns[c] == self@.conns[c]);
                        assert(conns[cid].pending_put->0.id == Some(id));
                    }
                    assert(same_refs(old(self)@, self@)) by {
                        assert(old(self)@.conns.dom() =~= self@.conns.dom());
                    }
                }
                return (id, p.created_at);
            }
        }
        self.count_put();
        self.connsetproducer(cid);
        let id: JobId = self.take_id();
        proof {
            let m = old(self)@.with_conn(cid, ConnView { pending_put: None, ..conns[cid] });
            assert(self@ == m.count_put().producer(cid).id_taken());
            assert(same_refs(old(self)@, self@)) by {
                assert(old(self)@.conns.dom() =~= self@.conns.dom());
            }
        }
        (id, now)
    }

    /// Adds the new job `j`, journals it, hands out jobs and counts it.
    fn enqueue_put(&mut self, now: Nanos, j: JobRec, out: &mut Outbox)
        requires
            old(self).wf(),
            now <= MAX_NOW,
            job_fits(j@, old(self)@),
            j.state == JobState::Ready || j.state == JobState::Delayed,
            j.reserver is None,
            unclaimed(old(self)@.conns, j.id),
            watching(old(self)@),
            anchored(old(self)@),
        ensures
            handed(old(self)@, sent(old(out)@), final(self)@, sent(final(out)@)),
            final(self).host() == old(self).host(),
            final(self).wf(),
            settled(final(self)@),
            ({
                let (n, o) = old(self)@.with_job(j@).journaling_put(j.id).process_queue(
                    now,
                    sent(old(out)@),
                );
                &&& final(self)@ == (Model {
                    total_jobs_ct: bump(n.total_jobs_ct),
                    ..n
                }).with_tube(
                    j.tube,
                    TubeView {
                        total_jobs_ct: bump(n.tube(j.tube).total_jobs_ct),
                        ..n.tube(j.tube)
                    },
                )
                &&& sent(final(out)@) == o
            }),
    {
        broadcast use {crate::ordset::group_ordered, vstd::std_specs::btree::group_btree_axioms};

        let id: JobId = j.id;
        let tube: TubeId = j.tube;
        proof {
            assert(self.jobs@.dom().finite());
            assert(self@.jobs.dom() =~= self.jobs@.dom());
            lemma_job_added(self@, j@);
        }
        self.put_job(j);
        let ghost m1 = self@;
        self.journal_put(id);
        assert(same_refs(m1, self@));
        let ghost m2 = self@;
        assert(same_waits(old(self)@, m2));
        self.process_queue(now, out);
        let ghost n = self@;
        proof {
            assert(same_refs(m1, n));
            lemma_same_refs(m1, n);
            assert(n.live(tube));
            assert(live(self.tubes@, tube));
        }
        self.total_jobs_ct = bump_u64(self.total_jobs_ct);
        let ghost n2 = self@;
        assert(self.wf());
        let ghost before = *self;
        if let Some(t) = &mut self.tubes[tube] {
            t.stat.total_jobs_ct = bump_u64(t.stat.total_jobs_ct);
        }
        proof {
            assert(self.pauses@ =~= crate::inv::pauses_of(self.tubes@));
            self.lemma_tube_noted(before, tube);
            let v = TubeView { total_jobs_ct: bump(n.tube(tube).total_jobs_ct), ..n.tube(tube) };
            let r = (Model { total_jobs_ct: bump(n.total_jobs_ct), ..n });
            assert(n2 =~= r);
            assert(same_refs(n, n2));
            lemma_same_refs(n, n2);
            assert(quiet(n2)) by {
                assert forall|o: JobId| !n2.awaited(o) by {
                    assert(!n.awaited(o));
                }
            }
            assert(self@ =~= r.with_tube(tube, v));
            lemma_tube_touched(n2, tube, v);
            lemma_same_refs(n2, self@);
            assert(same_waits(n, self@));
            lemma_handed_amid(old(self)@, m2, n, self@, sent(old(out)@), sent(out@));
        }
    }

    /// put
    pub(super) fn cmd_put(
        &mut self,
        now: Nanos,
        cid: ConnId,
        pri: u32,
        delay: u32,
        ttr: u32,
        body: Bytes,
        out: &mut Outbox,
    )
        requires
            old(self).wf(),
            settled(old(self)@),
            now <= MAX_NOW,
            old(self)@.conns.contains_key(cid),
            old(self)@.next_job_id < u64::MAX || (old(self)@.conns[cid].pending_put is Some && old(
                self,
            )@.conns[cid].pending_put->0.id is Some),
        ensures
            answered(
                old(self)@,
                cid,
                false,
                false,
                sent(old(out)@),
                final(self)@,
                sent(final(out)@),
            ),
            final(self).host() == old(self).host(),
            final(self).wf(),
            settled(final(self)@),
            (final(self)@, sent(final(out)@)) == old(self)@.cmd_put(
                now,
                cid,
                pri,
                delay,
                ttr,
                bytes_of(body),
                sent(old(out)@),
            ),
    {
        broadcast use {crate::ordset::group_ordered, vstd::std_specs::btree::group_btree_axioms};

        let (id, created_at) = self.accept_put(now, cid);
        proof {
            lemma_same_refs(old(self)@, self@);
            assert(quiet(self@)) by {
                assert forall|o: JobId| !self@.awaited(o) by {
                    assert(!old(self)@.awaited(o));
                }
            }
            assert(self@.conns.contains_key(cid));
            assert(self.conns@.contains_key(cid));
            assert(conn_ok(self.conns@[cid], cid, self.next_job_id, self.tubes@, self.jv()));
        }
        let ghost m = self@;
        assert(same_waits(old(self)@, m));
        if self.draining {
            proof {
                lemma_just_answered(old(self)@, m, cid, sent(out@), ResponseView::Draining);
            }
            send(out, cid, Response::Draining);
            return;
        }
        let tube: TubeId = match self.conns.get(&cid) {
            Some(c) => c.use_tube,
            None => 0,
        };
        let (state, deadline_at) = if delay > 0 {
            (JobState::Delayed, now + (delay as u64) * NANOS_PER_SEC)
        } else {
            (JobState::Ready, 0)
        };
        let j = JobRec {
            id,
            tube,
            pri,
            delay,
            ttr: if ttr == 0 {
                1
            } else {
                ttr
            },
            body,
            created_at,
            deadline_at,
            state,
            reserver: None,
            reserve_ct: 0,
            timeout_ct: 0,
            release_ct: 0,
            bury_ct: 0,
            kick_ct: 0,
            file: if self.cfg.journal {
                self.binlog.current_index
            } else {
                0
            },
        };
        assert(live(self.tubes@, tube));
        assert(self@.live(tube));
        self.enqueue_put(now, j, out);
        proof {
            lemma_handed_amid(old(self)@, m, self@, self@, sent(old(out)@), sent(out@));
            lemma_answered(
                old(self)@,
                self@,
                cid,
                sent(old(out)@),
                sent(out@),
                ResponseView::Inserted(id),
            );
        }
        send(out, cid, Response::Inserted(id));
    }

    /// use
    pub(super) fn cmd_use(&mut self, cid: ConnId, tube: TubeName, out: &mut Outbox)
        requires
            old(self).wf(),
            settled(old(self)@),
            old(self)@.conns.contains_key(cid),
        ensures
            final(self).host() == old(self).host(),
            final(self).wf(),
            settled(final(self)@),
            (final(self)@, sent(final(out)@)) == old(self)@.cmd_use(cid, tube@, sent(old(out)@)),
    {
        broadcast use {crate::ordset::group_ordered, vstd::std_specs::btree::group_btree_axioms};

        self.ops.cmd_use = bump_u64(self.ops.cmd_use);
        let ghost m = self@;
        proof {
            assert(self.wf());
            assert(m =~= (Model {
                ops: OpCounts { cmd_use: bump(old(self)@.ops.cmd_use), ..old(self)@.ops },
                ..old(self)@
            }));
            lemma_same_core(old(self)@, m);
            self.lemma_free_slot();
            lemma_making(m, tube@);
        }
        let to: TubeId = self.find_or_make_tube(&tube);
        let ghost n = self@;
        let from: TubeId = self.use_tube_of(cid);
        proof {
            assert(self.conns@.dom().finite());
            assert(n.conns.dom() =~= self.conns@.dom());
        }
        if from != to {
            self.set_use(cid, to);
            proof {
                lemma_reref(n, cid, ConnView { use_tube: to, ..n.conns[cid] }, to, from);
                lemma_collecting(self@, from);
            }
            self.gc_tube_if_orphan(from);
        } else {
            proof {
                if m.tube_named(tube@) is None {
                    assert(!m.live(to));
                    assert(m.live(n.conns[cid].use_tube));
                }
            }
        }
        send(out, cid, Response::Using(tube));
    }

    /// The free slot that is taken next is free.
    pub(super) proof fn lemma_free_slot(self)
        requires
            self.wf(),
        ensures
            self@.tubes.len() <= usize::MAX,
            self@.free.len() > 0 ==> self@.free.last() < self@.tubes.len() && !self@.live(
                self@.free.last(),
            ),
    {
        assert(self.tubes.len() == self.tubes@.len());
        if self@.free.len() > 0 {
            let f = self.free_tube_ids@;
            assert(f[f.len() - 1] == f.last());
            assert(f.contains(f.last()));
        }
    }

    /// The tube that connection `cid` uses.
    pub(super) fn use_tube_of(&self, cid: ConnId) -> (r: TubeId)
        requires
            self.wf(),
            self@.conns.contains_key(cid),
        ensures
            r == self@.conns[cid].use_tube,
            self@.live(r),
            live(self.tubes@, r),
    {
        broadcast use {crate::ordset::group_ordered, vstd::std_specs::btree::group_btree_axioms};

        proof {
            assert(self.conns@.contains_key(cid));
            assert(conn_ok(self.conns@[cid], cid, self.next_job_id, self.tubes@, self.jv()));
        }
        match self.conns.get(&cid) {
            Some(c) => c.use_tube,
            None => 0,
        }
    }
}

} // verus!
