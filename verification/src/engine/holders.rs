//! The commands on a single job: delete, release, bury, touch.

use super::dispatch::{bump_u32, bump_u64};
use super::jobs::refresh_conn_tick;
use super::Engine;
use crate::answers::{
    answered, lemma_answered, lemma_handed_amid, lemma_just_answered, same_waits,
};
use crate::api::{
    send, sent, ConnId, EntryView, JournalEntry, Nanos, Outbox, MAX_NOW, NANOS_PER_SEC,
};
use crate::inv::{
    at, conn_ok, job_ok, lemma_conn_jobs_frame, live, same_reserved, ticks_of, tube_ok,
};
use crate::model::{ConnState, JobRec, JobState, JobView, TubeId, TubeView};
use crate::proto::{JobId, Response, ResponseView};
use crate::rules::{
    bump, delayed_set, picked_jobs, ready_set, reserved_set, JobSel, Model, OpCounts,
};
use crate::settle::{
    lemma_collecting, lemma_job_removed, lemma_same_core, lemma_same_refs, lemma_tube_touched,
    quiet, same_refs, settled,
};
use vstd::prelude::*;

verus! {

impl Engine {
    /// Counts one more deletion from tube `tid`.
    fn count_delete(&mut self, tid: TubeId)
        requires
            old(self).wf(),
            old(self)@.live(tid),
        ensures
            final(self).host() == old(self).host(),
            final(self).wf(),
            final(self)@ == old(self)@.with_tube(
                tid,
                TubeView {
                    total_delete_ct: bump(old(self)@.tube(tid).total_delete_ct),
                    ..old(self)@.tube(tid)
                },
            ),
    {
        assert(live(self.tubes@, tid));
        if let Some(t) = &mut self.tubes[tid] {
            t.stat.total_delete_ct = bump_u64(t.stat.total_delete_ct);
        }
        proof {
            assert(self.pauses@ =~= crate::inv::pauses_of(self.tubes@));
            self.lemma_tube_noted(*old(self), tid);
            assert(self@ =~= old(self)@.with_tube(
                tid,
                TubeView {
                    total_delete_ct: bump(old(self)@.tube(tid).total_delete_ct),
                    ..old(self)@.tube(tid)
                },
            ));
        }
    }

    /// Removes job `id` for good.
    fn delete_job(&mut self, id: JobId)
        requires
            old(self).wf(),
            settled(old(self)@),
            old(self)@.jobs.contains_key(id),
        ensures
            final(self).host() == old(self).host(),
            final(self).wf(),
            settled(final(self)@),
            ({
                let t = old(self)@.jobs[id].tube;
                let n = old(self)@.without_job(id);
                let v = n.tube(t);
                final(self)@ == n.with_tube(
                    t,
                    TubeView { total_delete_ct: bump(v.total_delete_ct), ..v },
                ).journaling(EntryView::Delete(id)).collecting(t)
            }),
    {
        broadcast use {crate::ordset::group_ordered, vstd::std_specs::btree::group_btree_axioms};

        proof {
            assert(self.jobs@.dom().finite());
            assert(self@.jobs.dom() =~= self.jobs@.dom());
            assert(self.jv().contains_key(id));
            assert(live(self.tubes@, self.jv()[id].tube));
            lemma_job_removed(self@, id);
        }
        let j: JobRec = self.take_job(id);
        let tid: TubeId = j.tube;
        let ghost n = self@;
        self.count_delete(tid);
        let ghost n2 = self@;
        proof {
            let v = TubeView { total_delete_ct: bump(n.tube(tid).total_delete_ct), ..n.tube(tid) };
            lemma_tube_touched(n, tid, v);
            lemma_same_refs(n, n2);
            assert forall|u: TubeId| #[trigger] n2.live(u) && u != 0 && u != tid implies n2.referenced(
            u) by {
                assert(n.live(u));
            }
        }
        self.journal_entry(JournalEntry::Delete(id));
        let ghost n3 = self@;
        proof {
            lemma_same_core(n2, n3);
            lemma_same_refs(n2, n3);
            assert forall|u: TubeId| #[trigger] n3.live(u) && u != 0 && u != tid implies n3.referenced(
            u) by {
                assert(n2.live(u));
            }
            lemma_collecting(n3, tid);
        }
        self.gc_tube_if_orphan(tid);
    }

    /// delete
    pub(super) fn cmd_delete(&mut self, cid: ConnId, id: JobId, out: &mut Outbox)
        requires
            old(self).wf(),
            settled(old(self)@),
            old(self)@.conns.contains_key(cid),
        ensures
            final(self).host() == old(self).host(),
            final(self).wf(),
            settled(final(self)@),
            (final(self)@, sent(final(out)@)) == old(self)@.cmd_delete(cid, id, sent(old(out)@)),
    {
        broadcast use {crate::ordset::group_ordered, vstd::std_specs::btree::group_btree_axioms};

        self.ops.cmd_delete = bump_u64(self.ops.cmd_delete);
        proof {
            assert(self.wf());
            assert(self@ =~= (Model {
                ops: OpCounts { cmd_delete: bump(old(self)@.ops.cmd_delete), ..old(self)@.ops },
                ..old(self)@
            }));
            lemma_same_core(old(self)@, self@);
        }
        let ok = match self.jobs.get(&id) {
            Some(j) => j.state != JobState::Reserved || j.reserver == Some(cid),
            None => false,
        };
        if !ok {
            send(out, cid, Response::NotFound);
            return;
        }
        self.delete_job(id);
        send(out, cid, Response::Deleted);
    }

    /// Whether connection `cid` holds job `id`.
    fn reserved_by(&self, cid: ConnId, id: JobId) -> (r: bool)
        requires
            self.wf(),
        ensures
            r == self@.holds(cid, id),
    {
        broadcast use {crate::ordset::group_ordered, vstd::std_specs::btree::group_btree_axioms};

        match self.jobs.get(&id) {
            Some(j) => j.state == JobState::Reserved && j.reserver == Some(cid),
            None => false,
        }
    }

    /// release
    #[verifier::rlimit(60)]
    pub(super) fn cmd_release(
        &mut self,
        now: Nanos,
        cid: ConnId,
        id: JobId,
        pri: u32,
        delay: u32,
        out: &mut Outbox,
    )
        requires
            old(self).wf(),
            settled(old(self)@),
            now <= MAX_NOW,
            old(self)@.conns.contains_key(cid),
        ensures
            answered(
                old(self)@,
                cid,
                false,
                false,
                sent(old(out)@),
                final(self)@,
                sent(final(out)@),
            ),
            final(self).host() == old(self).host(),
            final(self).wf(),
            settled(final(self)@),
            (final(self)@, sent(final(out)@)) == old(self)@.cmd_release(
                now,
                cid,
                id,
                pri,
                delay,
                sent(old(out)@),
            ),
    {
        self.ops.cmd_release = bump_u64(self.ops.cmd_release);
        proof {
            assert(self.wf());
            assert(self@ =~= (Model {
                ops: OpCounts { cmd_release: bump(old(self)@.ops.cmd_release), ..old(self)@.ops },
                ..old(self)@
            }));
            lemma_same_core(old(self)@, self@);
        }
        if !self.reserved_by(cid, id) {
            proof {
                lemma_just_answered(
                    old(self)@,
                    self@,
                    cid,
                    sent(out@),
                    ResponseView::NotFound,
                );
            }
            send(out, cid, Response::NotFound);
            return;
        }
        let ghost m = self@;
        let mut j: JobRec = self.take_job(id);
        j.pri = pri;
        j.delay = delay;
        j.reserver = None;
        j.release_ct = bump_u32(j.release_ct);
        if delay > 0 {
            j.state = JobState::Delayed;
            j.deadline_at = now + (delay as u64) * NANOS_PER_SEC;
        } else {
            j.state = JobState::Ready;
        }
        let ghost v = j@;
        self.put_job(j);
        if delay > 0 {
            self.journal_update(id);
        }
        let ghost n = self@;
        assert(same_refs(m, n)) by {
            assert(old(self).jv().contains_key(id));
            assert(m.conns.dom() =~= n.conns.dom());
            assert(m.jobs.dom() =~= n.jobs.dom());
        }
        self.process_queue(now, out);
        proof {
            lemma_same_refs(m, n);
            lemma_same_refs(n, self@);
            assert(same_waits(old(self)@, n));
            lemma_handed_amid(old(self)@, n, self@, self@, sent(old(out)@), sent(out@));
            lemma_answered(
                old(self)@,
                self@,
                cid,
                sent(old(out)@),
                sent(out@),
                ResponseView::Released,
            );
        }
        send(out, cid, Response::Released);
    }

    /// bury
    pub(super) fn cmd_bury(&mut self, cid: ConnId, id: JobId, pri: u32, out: &mut Outbox)
        requires
            old(self).wf(),
            settled(old(self)@),
            old(self)@.conns.contains_key(cid),
        ensures
            final(self).host() == old(self).host(),
            final(self).wf(),
            settled(final(self)@),
            (final(self)@, sent(final(out)@)) == old(self)@.cmd_bury(
                cid,
                id,
                pri,
                sent(old(out)@),
            ),
    {
        self.ops.cmd_bury = bump_u64(self.ops.cmd_bury);
        proof {
            assert(self.wf());
            assert(self@ =~= (Model {
                ops: OpCounts { cmd_bury: bump(old(self)@.ops.cmd_bury), ..old(self)@.ops },
                ..old(self)@
            }));
            lemma_same_core(old(self)@, self@);
        }
        if !self.reserved_by(cid, id) {
            send(out, cid, Response::NotFound);
            return;
        }
        let ghost m = self@;
        let mut j: JobRec = self.take_job(id);
        j.pri = pri;
        j.state = JobState::Buried;
        j.reserver = None;
        j.bury_ct = bump_u32(j.bury_ct);
        self.put_job(j);
        self.journal_update(id);
        proof {
            let n = self@;
            assert(old(self).jv().contains_key(id));
            assert(same_refs(m, n)) by {
                assert(m.conns.dom() =~= n.conns.dom());
                assert(m.jobs.dom() =~= n.jobs.dom());
            }
            lemma_same_refs(m, n);
            assert(quiet(n)) by {
                assert forall|o: JobId| !n.awaited(o) by {
                    assert(!m.awaited(o));
                }
            }
        }
        send(out, cid, Response::Buried);
    }

    /// Moves the end of the reservation of job `id`, which connection `cid`
    /// holds, to `deadline`.
    fn set_deadline(&mut self, cid: ConnId, id: JobId, deadline: Nanos)
        requires
            old(self).wf(),
            old(self)@.holds(cid, id),
        ensures
            final(self).host() == old(self).host(),
            final(self).wf(),
            final(self)@ == (Model {
                jobs: old(self)@.jobs.insert(
                    id,
                    JobView { deadline_at: deadline, ..old(self)@.jobs[id] },
                ),
                ..old(self)@
            }),
    {
        broadcast use {crate::ordset::group_ordered, vstd::std_specs::btree::group_btree_axioms};

        let ghost a = self.jv();
        let ghost v = JobView { deadline_at: deadline, ..a[id] };
        let ghost b = a.insert(id, v);
        proof {
            assert(a.contains_key(id));
            assert(self.conns@.contains_key(cid));
            assert(conn_ok(self.conns@[cid], cid, self.next_job_id, self.tubes@, a));
        }
        let ghost was = self.conns@[cid];
        let taken = self.jobs.remove(&id);
        let mut j: JobRec = taken.unwrap();
        let before: Nanos = j.deadline_at;
        j.deadline_at = deadline;
        let _ = self.jobs.insert(id, j);
        let taken_conn = self.conns.remove(&cid);
        let mut c: ConnState = taken_conn.unwrap();
        let _ = c.reserved_by_deadline.remove(&(before, id));
        let _ = c.reserved_by_deadline.insert((deadline, id));
        refresh_conn_tick(&mut c, cid, &mut self.conn_ticks);
        let _ = self.conns.insert(cid, c);
        proof {
            assert(self.jv() =~= b);
            assert(self.conns@ =~= old(self).conns@.insert(cid, self.conns@[cid]));
            assert(self.cv() =~= old(self).cv());
            let ca = self.cv();
            assert forall|t: TubeId| #[trigger] live(self.tubes@, t) implies tube_ok(
                at(self.tubes@, t),
                t,
                b,
                ca,
            ) by {
                let x = at(self.tubes@, t);
                assert(tube_ok(x, t, a, ca));
                assert(ready_set(a, t) =~= ready_set(b, t));
                assert(delayed_set(a, t) =~= delayed_set(b, t));
                assert(picked_jobs(a, JobSel::InTube(t)) =~= picked_jobs(b, JobSel::InTube(t)));
                assert(picked_jobs(a, JobSel::UrgentIn(t)) =~= picked_jobs(b, JobSel::UrgentIn(t)));
                assert(picked_jobs(a, JobSel::ReservedIn(t)) =~= picked_jobs(
                    b,
                    JobSel::ReservedIn(t),
                ));
                assert forall|k: JobId| #[trigger] x.buried@.contains(k) <==> b.contains_key(k)
                    && b[k].state == JobState::Buried && b[k].tube == t by {
                    assert(x.buried@.contains(k) <==> a.contains_key(k) && a[k].state
                        == JobState::Buried && a[k].tube == t);
                }
            }
            assert(picked_jobs(a, JobSel::Ready) =~= picked_jobs(b, JobSel::Ready));
            assert(picked_jobs(a, JobSel::Urgent) =~= picked_jobs(b, JobSel::Urgent));
            assert(picked_jobs(a, JobSel::Reserved) =~= picked_jobs(b, JobSel::Reserved));
            assert(picked_jobs(a, JobSel::Buried) =~= picked_jobs(b, JobSel::Buried));
            assert(picked_jobs(a, JobSel::Delayed) =~= picked_jobs(b, JobSel::Delayed));
            assert forall|k: JobId| #[trigger] self.jv().contains_key(k) implies job_ok(
                self.jv()[k],
                k,
                self.next_job_id,
                self.tubes@,
                self.cv(),
            ) by {
                assert(a.contains_key(k));
            }
            assert forall|k: ConnId| #[trigger] self.conns@.contains_key(k) implies conn_ok(
                self.conns@[k],
                k,
                self.next_job_id,
                self.tubes@,
                self.jv(),
            ) by {
                assert(old(self).conns@.contains_key(k));
                assert(conn_ok(old(self).conns@[k], k, self.next_job_id, self.tubes@, a));
                if k == cid {
                    let y = self.conns@[k];
                    assert(y.reserved_by_deadline@ =~= reserved_set(b, cid));
                    assert forall|o: JobId| #[trigger] y.reserved_fifo@.contains(o)
                        <==> b.contains_key(o) && b[o].state == JobState::Reserved && b[o].reserver
                        == Some(cid) by {
                        assert(was.reserved_fifo@.contains(o) <==> a.contains_key(o) && a[o].state
                            == JobState::Reserved && a[o].reserver == Some(cid));
                    }
                } else {
                    assert(same_reserved(a, b, k));
                    lemma_conn_jobs_frame(old(self).conns@[k], k, a, b);
                }
            }
            assert(self.conn_ticks@ =~= ticks_of(self.conns@));
            assert(self.wf());
            assert(self@ =~= (Model {
                jobs: old(self)@.jobs.insert(
                    id,
                    JobView { deadline_at: deadline, ..old(self)@.jobs[id] },
                ),
                ..old(self)@
            }));
        }
    }

    /// touch
    pub(super) fn cmd_touch(&mut self, now: Nanos, cid: ConnId, id: JobId, out: &mut Outbox)
        requires
            old(self).wf(),
            settled(old(self)@),
            now <= MAX_NOW,
            old(self)@.conns.contains_key(cid),
        ensures
            final(self).host() == old(self).host(),
            final(self).wf(),
            settled(final(self)@),
            (final(self)@, sent(final(out)@)) == old(self)@.cmd_touch(
                now,
                cid,
                id,
                sent(old(out)@),
            ),
    {
        broadcast use {crate::ordset::group_ordered, vstd::std_specs::btree::group_btree_axioms};

        self.ops.cmd_touch = bump_u64(self.ops.cmd_touch);
        proof {
            assert(self.wf());
            assert(self@ =~= (Model {
                ops: OpCounts { cmd_touch: bump(old(self)@.ops.cmd_touch), ..old(self)@.ops },
                ..old(self)@
            }));
            lemma_same_core(old(self)@, self@);
        }
        if !self.reserved_by(cid, id) {
            send(out, cid, Response::NotFound);
            return;
        }
        let ttr: u32 = match self.jobs.get(&id) {
            Some(j) => j.ttr,
            None => 1,
        };
        let ghost m = self@;
        self.set_deadline(cid, id, now + (ttr as u64) * NANOS_PER_SEC);
        proof {
            let n = self@;
            assert(same_refs(m, n)) by {
                assert(m.jobs.dom() =~= n.jobs.dom());
            }
            lemma_same_refs(m, n);
            assert(quiet(n)) by {
                assert forall|o: JobId| !n.awaited(o) by {
                    assert(!m.awaited(o));
                }
            }
        }
        send(out, cid, Response::Touched);
    }
}

} // verus!
