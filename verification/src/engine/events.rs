//! What happens to the engine: connections come and go, puts start, commands
//! arrive, time passes.

use super::dispatch::bump_u64;
use super::{Engine, Held, Tallies};
use crate::ageing::{
    a_tick_does_all_that_is_due, a_tick_does_only_what_is_due, all_done, worked,
};
use crate::answers::{answered, lemma_plain, lemma_silent, plain};
use crate::api::{
    entries, send, sent, BinlogStats, ConnId, EngineConfig, EngineInput, JournalEntry, Nanos,
    Outbox, SysInfo, SysSnapshot, MAX_NOW,
};
use crate::inv::{
    at, conn_ok, dispatchable_of, flag_ok, heads_of, lemma_conns_none, lemma_jobs_none,
    lemma_least_empty, live, names_ok, pauses_of, ticks_of, tube_conns_ok, tube_jobs_ok,
};
use crate::model::{ConnState, ConnView, JobRec, PendingPut, TubeId, TubeState, TubeView};
use crate::ms::{lemma_swap_remove, Ms};
use crate::ordset::keys_of;
use crate::proto::{default_name, Command, JobId, PutRejection, Response, ResponseView, TubeName};
use crate::repeatable::input_adds_to_the_replies;
use crate::resting::rested;
use crate::rules::{delayed_set, ready_set, remove_first, ConnSel, JobSel, Model, OpCounts};
use crate::settle::{
    anchored, lemma_collecting, lemma_conn_gone, lemma_reref, lemma_same_core, lemma_same_refs,
    quiet, same_refs, settled,
};
use std::collections::{BTreeMap, BTreeSet};
use vstd::prelude::*;

verus! {

impl Engine {
    /// An engine with one tube, "default", and nothing else.
    pub fn new(now: Nanos, cfg: EngineConfig, sys: Box<dyn SysInfo>) -> (r: Self)
        ensures
            r.valid(),
            r@ == Model::initial(now, cfg),
            r.host() == (|s: SysSnapshot| sys.says(s)),
    {
        let held = Held { it: sys };
        Engine::fresh(now, cfg, held)
    }

    /// As `new`, with the host already in hand.
    pub(super) fn fresh(now: Nanos, cfg: EngineConfig, sys: Held<Box<dyn SysInfo>>) -> (r: Self)
        ensures
            r.valid(),
            r@ == Model::initial(now, cfg),
            r.sys == sys,
    {
        broadcast use vstd::std_specs::btree::group_btree_axioms;

        let mut tubes: Vec<Option<TubeState>> = Vec::new();
        tubes.push(Some(TubeState::new(TubeName::default_tube(), 0)));
        let mut tube_ids: Vec<(TubeName, TubeId)> = Vec::new();
        tube_ids.push((TubeName::default_tube(), 0));
        let mut tube_order: Ms<TubeId> = Ms::new();
        tube_order.append(0);
        let r = Engine {
            cfg,
            sys,
            start: now,
            draining: false,
            next_job_id: 1,
            jobs: BTreeMap::new(),
            tubes,
            free_tube_ids: Vec::new(),
            tube_ids,
            tube_order,
            conns: BTreeMap::new(),
            conn_ticks: BTreeSet::new(),
            delay_heads: BTreeSet::new(),
            pauses: BTreeSet::new(),
            dispatchable: BTreeSet::new(),
            tallies: Tallies {
                ready_ct: 0,
                urgent_ct: 0,
                reserved_ct: 0,
                buried_ct: 0,
                delayed_ct: 0,
                waiting_ct: 0,
                cur_conns: 0,
                cur_producers: 0,
                cur_workers: 0,
            },
            total_jobs_ct: 0,
            timeout_ct: 0,
            tot_conns: 0,
            ops: OpCounts {
                cmd_put: 0,
                cmd_peek: 0,
                cmd_peek_ready: 0,
                cmd_peek_delayed: 0,
                cmd_peek_buried: 0,
                cmd_reserve: 0,
                cmd_reserve_with_timeout: 0,
                cmd_delete: 0,
                cmd_release: 0,
                cmd_use: 0,
                cmd_watch: 0,
                cmd_ignore: 0,
                cmd_bury: 0,
                cmd_kick: 0,
                cmd_touch: 0,
                cmd_stats: 0,
                cmd_stats_job: 0,
                cmd_stats_tube: 0,
                cmd_list_tubes: 0,
                cmd_list_tube_used: 0,
                cmd_list_tubes_watched: 0,
                cmd_pause_tube: 0,
            },
            journal: Vec::new(),
            binlog: BinlogStats {
                oldest_index: 0,
                current_index: 0,
                records_written: 0,
                records_migrated: 0,
            },
        };
        proof {
            r.lemma_fresh();
            let m = Model::initial(now, cfg);
            assert(r@.tubes =~= m.tubes);
            assert(r@.order.items =~= m.order.items);
            assert(r@.jobs =~= m.jobs);
            assert(r@.conns =~= m.conns);
            assert(r@.journal =~= m.journal);
            assert(r@.free =~= m.free);
            assert(r@ =~= m);
            assert forall|u: TubeId| r@.live(u) implies u == 0 by {}
            assert forall|id: JobId| !r@.awaited(id) by {}
        }
        r
    }

    /// An engine that has just been made is consistent.
    proof fn lemma_fresh(self)
        requires
            self.tubes@.len() == 1,
            self.tubes@[0] is Some,
            at(self.tubes@, 0)@ == TubeView::fresh(default_name()),
            at(self.tubes@, 0).pos == 0,
            at(self.tubes@, 0).ready@ == Set::<(u32, JobId)>::empty(),
            at(self.tubes@, 0).delayed@ == Set::<(Nanos, JobId)>::empty(),
            at(self.tubes@, 0).using_ct == 0,
            at(self.tubes@, 0).watching_ct == 0,
            at(self.tubes@, 0).job_ref_ct == 0,
            at(self.tubes@, 0).stat.urgent_ct == 0,
            at(self.tubes@, 0).stat.buried_ct == 0,
            at(self.tubes@, 0).stat.reserved_ct == 0,
            at(self.tubes@, 0).stat.waiting_ct == 0,
            at(self.tubes@, 0).delay_head is None,
            !at(self.tubes@, 0).dispatchable,
            self.tube_ids@.len() == 1,
            self.tube_ids@[0].0@ == default_name(),
            self.tube_ids@[0].1 == 0,
            self.tube_order@.items.len() == 1,
            self.tube_order@.items[0] == 0,
            self.free_tube_ids@.len() == 0,
            self.next_job_id == 1,
            self.jobs@ == Map::<JobId, JobRec>::empty(),
            self.conns@ == Map::<ConnId, ConnState>::empty(),
            self.conn_ticks@ == Set::<(Nanos, ConnId)>::empty(),
            self.delay_heads@ == Set::<(Nanos, TubeId)>::empty(),
            self.pauses@ == Set::<(Nanos, TubeId)>::empty(),
            self.dispatchable@ == Set::<TubeId>::empty(),
            self.tallies == (Tallies {
                ready_ct: 0,
                urgent_ct: 0,
                reserved_ct: 0,
                buried_ct: 0,
                delayed_ct: 0,
                waiting_ct: 0,
                cur_conns: 0,
                cur_producers: 0,
                cur_workers: 0,
            }),
        ensures
            self.wf(),
    {
        let jobs = self.jv();
        let conns = self.cv();
        let x = at(self.tubes@, 0);
        assert(jobs =~= Map::empty());
        assert(conns =~= Map::empty());
        lemma_jobs_none(jobs, JobSel::InTube(0));
        lemma_jobs_none(jobs, JobSel::UrgentIn(0));
        lemma_jobs_none(jobs, JobSel::ReservedIn(0));
        lemma_jobs_none(jobs, JobSel::Ready);
        lemma_jobs_none(jobs, JobSel::Urgent);
        lemma_jobs_none(jobs, JobSel::Reserved);
        lemma_jobs_none(jobs, JobSel::Buried);
        lemma_jobs_none(jobs, JobSel::Delayed);
        lemma_conns_none(conns, ConnSel::Uses(0));
        lemma_conns_none(conns, ConnSel::Watches(0));
        lemma_conns_none(conns, ConnSel::Waiting);
        lemma_conns_none(conns, ConnSel::Producer);
        lemma_conns_none(conns, ConnSel::Worker);
        assert(ready_set(jobs, 0) =~= Set::empty());
        assert(delayed_set(jobs, 0) =~= Set::empty());
        lemma_least_empty(x.delayed@);
        assert(tube_jobs_ok(x, 0, jobs));
        assert(tube_conns_ok(x, 0, conns));
        assert(flag_ok(x));
        assert forall|t: TubeId| #[trigger] live(self.tubes@, t) implies t == 0 by {}
        assert(live(self.tubes@, 0));
        assert(names_ok(self.tubes@, self.tube_ids@)) by {
            assert forall|t: TubeId| #[trigger] live(self.tubes@, t) implies exists|i: int|
                0 <= i < self.tube_ids@.len() && (#[trigger] self.tube_ids@[i]).1 == t by {
                assert(self.tube_ids@[0].1 == 0);
            }
        }
        assert(self.conn_ticks@ =~= ticks_of(self.conns@));
        assert(self.delay_heads@ =~= heads_of(self.tubes@));
        assert(self.pauses@ =~= pauses_of(self.tubes@));
        assert(self.dispatchable@ =~= dispatchable_of(self.tubes@));
    }

    /// Connection `conn` is made.
    pub fn connect(&mut self, now: Nanos, conn: ConnId)
        requires
            old(self).valid(),
            !old(self)@.conns.contains_key(conn),
            old(self)@.tot_conns < u32::MAX,
        ensures
            final(self).host() == old(self).host(),
            final(self).valid(),
            final(self)@ == old(self)@.connect(conn),
    {
        broadcast use vstd::std_specs::btree::group_btree_axioms;

        let _ = now;
        proof {
            assert(self.conns@.dom().finite());
            assert(self@.conns.dom() =~= self.conns@.dom());
        }
        self.add_conn(conn);
        proof {
            let m = old(self)@;
            let n = self@;
            assert forall|u: TubeId| #[trigger] n.live(u) && u != 0 implies n.referenced(u) by {
                assert(m.live(u));
                crate::inv::lemma_conns_insert(
                    m.conns,
                    conn,
                    ConnView::fresh(),
                    ConnSel::Uses(u),
                );
                crate::inv::lemma_conns_insert(
                    m.conns,
                    conn,
                    ConnView::fresh(),
                    ConnSel::Watches(u),
                );
            }
            assert forall|id: JobId| !n.awaited(id) by {
                assert(!m.awaited(id));
            }
        }
    }

    /// Connection `conn` will send nothing more: a wait of its is over.
    pub fn half_close(&mut self, now: Nanos, conn: ConnId, out: &mut Outbox)
        requires
            old(self).valid(),
        ensures
            final(self).host() == old(self).host(),
            final(self).valid(),
            (final(self)@, sent(final(out)@)) == old(self)@.half_close(conn, sent(old(out)@)),
    {
        broadcast use {crate::ordset::group_ordered, vstd::std_specs::btree::group_btree_axioms};

        let _ = now;
        let waiting = match self.conns.get(&conn) {
            Some(c) => c.waiting,
            None => false,
        };
        if waiting {
            self.do_remove_waiting_conn(conn);
            proof {
                Self::lemma_still_quiet(old(self)@, conn);
                lemma_same_refs(old(self)@, self@);
            }
            send(out, conn, Response::TimedOut);
        }
    }

    /// The command line of a put has been accepted and its body is about to be
    /// read. The put is counted and, unless it is too big, the connection
    /// becomes a producer and a job id is handed out. No reply. What completes
    /// the put (`handle` or `put_rejected`) then does not do that again.
    pub fn put_started(&mut self, now: Nanos, conn: ConnId, too_big: bool)
        requires
            old(self).valid(),
            old(self)@.may_start(conn, too_big),
        ensures
            final(self).host() == old(self).host(),
            final(self).valid(),
            final(self)@ == old(self)@.put_started(conn, now, too_big),
    {
        broadcast use {crate::ordset::group_ordered, vstd::std_specs::btree::group_btree_axioms};

        if !self.conns.contains_key(&conn) {
            return;
        }
        self.count_put();
        let id: Option<JobId> = if too_big {
            None
        } else {
            self.connsetproducer(conn);
            Some(self.take_id())
        };
        let _ = self.set_pending(conn, Some(PendingPut { id, created_at: now }));
        proof {
            let m = old(self)@;
            let n = self@;
            assert(n == m.put_started(conn, now, too_big));
            lemma_conn_meta(m, n);
        }
    }

    /// A put was rejected: the reply says why. What `put_started` has already
    /// done for it is not done again.
    pub fn put_rejected(&mut self, now: Nanos, conn: ConnId, why: PutRejection, out: &mut Outbox)
        requires
            old(self).valid(),
            old(self)@.may_reject(conn, why),
        ensures
            final(self).host() == old(self).host(),
            final(self).valid(),
            (final(self)@, sent(final(out)@)) == old(self)@.put_rejected(
                conn,
                why,
                sent(old(out)@),
            ),
    {
        broadcast use {crate::ordset::group_ordered, vstd::std_specs::btree::group_btree_axioms};

        let _ = now;
        if !self.conns.contains_key(&conn) {
            return;
        }
        let started = self.set_pending(conn, None);
        if started.is_none() {
            self.count_put();
            if why == PutRejection::ExpectedCrlf || why == PutRejection::OutOfMemory {
                self.connsetproducer(conn);
                let _ = self.take_id();
            }
        }
        proof {
            lemma_conn_meta(old(self)@, self@);
        }
        send(out, conn, why.response());
    }

    /// Makes the jobs `ids`, all that connection `conn` holds, ready in turn,
    /// handing out jobs after each.
    fn give_back(&mut self, conn: ConnId, ids: &Vec<JobId>, now: Nanos, out: &mut Outbox)
        requires
            old(self).wf(),
            now <= MAX_NOW,
            old(self)@.conns.contains_key(conn),
            !old(self)@.conns[conn].waiting,
            old(self)@.conns[conn].reserved == ids@,
            quiet(old(self)@),
        ensures
            final(self).host() == old(self).host(),
            final(self).wf(),
            (final(self)@, sent(final(out)@)) == old(self)@.give_back(
                ids@,
                0,
                now,
                sent(old(out)@),
            ),
            same_refs(old(self)@, final(self)@),
            quiet(final(self)@),
            final(self)@.conns.contains_key(conn),
            !final(self)@.conns[conn].waiting,
            final(self)@.conns[conn].reserved.len() == 0,
    {
        broadcast use {crate::ordset::group_ordered, vstd::std_specs::btree::group_btree_axioms};

        let n: usize = ids.len();
        let mut i: usize = 0;
        assert(ids@.skip(0) =~= ids@);
        while i < n
            invariant
                self.host() == old(self).host(),
                self.wf(),
                now <= MAX_NOW,
                i <= n,
                n == ids@.len(),
                self@.conns.contains_key(conn),
                !self@.conns[conn].waiting,
                self@.conns[conn].reserved == ids@.skip(i as int),
                self@.give_back(ids@, i as nat, now, sent(out@)) == old(self)@.give_back(
                    ids@,
                    0,
                    now,
                    sent(old(out)@),
                ),
                same_refs(old(self)@, self@),
                quiet(self@),
            decreases n - i,
        {
            let id: JobId = ids[i];
            let ghost m = self@;
            proof {
                assert(self.conns@.contains_key(conn));
                assert(conn_ok(self.conns@[conn], conn, self.next_job_id, self.tubes@, self.jv()));
                let r = m.conns[conn].reserved;
                assert(r[0] == id);
                assert(r.contains(id));
                assert(self.conns@[conn].reserved_fifo@.contains(id));
                crate::ms::lemma_position_is(r, id, 0);
                assert(remove_first(r, id) =~= ids@.skip(i + 1));
            }
            self.make_ready(id);
            assert(self@.conns[conn].reserved == ids@.skip(i + 1));
            self.process_queue(now, out);
            i = i + 1;
        }
    }

    /// Has connection `conn` watch its tubes no longer, one after the other.
    fn unwatch_all(&mut self, conn: ConnId)
        requires
            old(self).wf(),
            old(self)@.conns.contains_key(conn),
            !old(self)@.conns[conn].waiting,
            anchored(old(self)@),
            quiet(old(self)@),
        ensures
            final(self).host() == old(self).host(),
            final(self).wf(),
            final(self)@ == old(self)@.unwatch_all(conn),
            anchored(final(self)@),
            quiet(final(self)@),
            final(self)@.conns == old(self)@.conns.insert(conn, final(self)@.conns[conn]),
            final(self)@.conns[conn].watch.items.len() == 0,
            !final(self)@.conns[conn].waiting,
            final(self)@.conns[conn].reserved == old(self)@.conns[conn].reserved,
            final(self)@.conns[conn].use_tube == old(self)@.conns[conn].use_tube,
    {
        broadcast use {crate::ordset::group_ordered, vstd::std_specs::btree::group_btree_axioms};

        assert(self@.conns =~= self@.conns.insert(conn, self@.conns[conn]));
        loop
            invariant
                self.host() == old(self).host(),
                self.wf(),
                self@.conns.contains_key(conn),
                !self@.conns[conn].waiting,
                anchored(self@),
                quiet(self@),
                self@.unwatch_all(conn) == old(self)@.unwatch_all(conn),
                self@.conns == old(self)@.conns.insert(conn, self@.conns[conn]),
                self@.conns[conn].reserved == old(self)@.conns[conn].reserved,
                self@.conns[conn].use_tube == old(self)@.conns[conn].use_tube,
            ensures
                self.wf(),
                !self@.conns[conn].waiting,
                anchored(self@),
                quiet(self@),
                self@ == old(self)@.unwatch_all(conn),
                self@.conns[conn].watch.items.len() == 0,
                self@.conns == old(self)@.conns.insert(conn, self@.conns[conn]),
                self@.conns[conn].reserved == old(self)@.conns[conn].reserved,
                self@.conns[conn].use_tube == old(self)@.conns[conn].use_tube,
            decreases self@.conns[conn].watch.items.len(),
        {
            let ghost m = self@;
            let empty = match self.conns.get(&conn) {
                Some(c) => c.watch.is_empty(),
                None => true,
            };
            if empty {
                break;
            }
            proof {
                assert(self.conns@.contains_key(conn));
                assert(conn_ok(self.conns@[conn], conn, self.next_job_id, self.tubes@, self.jv()));
                assert(self.conns@.dom().finite());
                assert(m.conns.dom() =~= self.conns@.dom());
                lemma_swap_remove(m.conns[conn].watch.items, 0);
            }
            let tid: TubeId = self.remove_watch(conn, 0);
            proof {
                lemma_reref(m, conn, self@.conns[conn], 0, tid);
                lemma_collecting(self@, tid);
            }
            self.gc_tube_if_orphan(tid);
            assert(self@.conns =~= old(self)@.conns.insert(conn, self@.conns[conn]));
        }
    }

    /// Connection `conn` closes: its jobs become ready again, the oldest
    /// reservation first, and the tubes that it alone referred to go.
    pub fn disconnect(&mut self, now: Nanos, conn: ConnId, out: &mut Outbox)
        requires
            old(self).valid(),
            now <= MAX_NOW,
        ensures
            final(self).host() == old(self).host(),
            final(self).valid(),
            (final(self)@, sent(final(out)@)) == old(self)@.disconnect(
                conn,
                now,
                sent(old(out)@),
            ),
    {
        broadcast use {crate::ordset::group_ordered, vstd::std_specs::btree::group_btree_axioms};

        if !self.conns.contains_key(&conn) {
            return;
        }
        self.do_remove_waiting_conn(conn);
        let ghost m1 = self@;
        proof {
            Self::lemma_still_quiet(old(self)@, conn);
            lemma_same_refs(old(self)@, m1);
        }
        let reserved: Vec<JobId> = self.reserved_jobs(conn);
        self.give_back(conn, &reserved, now, out);
        let ghost m2 = self@;
        proof {
            lemma_same_refs(m1, m2);
        }
        self.unwatch_all(conn);
        let ghost m3 = self@;
        proof {
            assert(m3.conns.contains_key(conn));
            assert(self.conns@.dom().finite());
            assert(m3.conns.dom() =~= self.conns@.dom());
            lemma_conn_gone(m3, conn);
        }
        let use_tube: TubeId = self.drop_conn(conn);
        proof {
            let n = self@;
            assert forall|c: ConnId| #[trigger] n.conns.contains_key(c) implies n.conns[c].watch.items.len()
                > 0 by {
                assert(m2.conns.contains_key(c));
                assert(n.conns[c] == m2.conns[c]);
            }
            lemma_collecting(n, use_tube);
        }
        self.gc_tube_if_orphan(use_tube);
    }

    /// The jobs that connection `conn` has reserved, the oldest reservation
    /// first.
    fn reserved_jobs(&self, conn: ConnId) -> (r: Vec<JobId>)
        requires
            self.wf(),
            self@.conns.contains_key(conn),
        ensures
            r@ == self@.conns[conn].reserved,
    {
        broadcast use {crate::ordset::group_ordered, vstd::std_specs::btree::group_btree_axioms};

        match self.conns.get(&conn) {
            Some(c) => {
                let r = c.reserved_fifo.clone();
                assert(r@ =~= c.reserved_fifo@);
                r
            },
            None => Vec::new(),
        }
    }

    /// Does everything that is due by `now`.
    pub fn tick(&mut self, now: Nanos, out: &mut Outbox)
        requires
            old(self).valid(),
            now <= MAX_NOW,
        ensures
            final(self).host() == old(self).host(),
            final(self).valid(),
            (final(self)@, sent(final(out)@)) == old(self)@.tick(now, sent(old(out)@)),
            rested(final(self)@, now),
            worked(old(self)@, sent(old(out)@), final(self)@, sent(final(out)@), now),
            all_done(old(self)@, final(self)@, now),
    {
        proof {
            self.engine_is_orderly();
        }
        self.run_tick(now, out);
        proof {
            lemma_same_refs(old(self)@, self@);
            a_tick_does_only_what_is_due(old(self)@, now, sent(old(out)@));
            a_tick_does_all_that_is_due(old(self)@, now, sent(old(out)@));
        }
    }

    /// Enters drain mode, in which puts are refused, or leaves it.
    pub fn set_draining(&mut self, on: bool)
        requires
            old(self).valid(),
        ensures
            final(self).host() == old(self).host(),
            final(self).valid(),
            final(self)@ == (Model { draining: on, ..old(self)@ }),
    {
        self.draining = on;
        proof {
            assert(self.wf());
            assert(self@ =~= (Model { draining: on, ..old(self)@ }));
            lemma_same_core(old(self)@, self@);
        }
    }

    /// Connection `conn` gives the command `cmd`. It is answered once, but for a
    /// reserve that leaves the connection waiting; the server does not forward
    /// `quit`, which is answered by nothing. Every other reply hands a job to a
    /// connection that was waiting. A connection that is not there changes
    /// nothing and is answered by nothing.
    pub fn handle(&mut self, now: Nanos, conn: ConnId, cmd: Command, out: &mut Outbox)
        requires
            old(self).valid(),
            now <= MAX_NOW,
            old(self)@.may_give(conn, cmd@),
        ensures
            final(self).host() == old(self).host(),
            final(self).valid(),
            cmd@ is Stats && old(self)@.conns.contains_key(conn) ==> exists|sys: SysSnapshot|
                old(self).host()(sys) && (final(self)@, sent(final(out)@))
                    == #[trigger] old(self)@.handle(now, conn, cmd@, sys, sent(old(out)@)),
            !(cmd@ is Stats && old(self)@.conns.contains_key(conn)) ==> forall|sys: SysSnapshot|
                (final(self)@, sent(final(out)@)) == #[trigger] old(self)@.handle(
                    now,
                    conn,
                    cmd@,
                    sys,
                    sent(old(out)@),
                ),
            !old(self)@.conns.contains_key(conn) ==> final(self)@ == old(self)@ && sent(
                final(out)@,
            ) == sent(old(out)@),
            old(self)@.conns.contains_key(conn) ==> answered(
                old(self)@,
                conn,
                cmd@ is Quit,
                cmd@ is Reserve || cmd@ is ReserveWithTimeout,
                sent(old(out)@),
                final(self)@,
                sent(final(out)@),
            ),
    {
        let ghost m = self@;
        let ghost o = sent(out@);
        let ghost c = cmd@;
        self.obey(now, conn, cmd, out);
        proof {
            let sys = choose|sys: SysSnapshot|
                self.host()(sys) && (self@, sent(out@)) == #[trigger] m.handle(
                    now,
                    conn,
                    c,
                    sys,
                    o,
                );
            assert((self@, sent(out@)) == m.handle(now, conn, c, sys, o));
            if m.conns.contains_key(conn) && plain(c) {
                lemma_plain(m, now, conn, c, sys, o);
            }
        }
    }

    /// As `handle`.
    #[verifier::rlimit(60)]
    fn obey(&mut self, now: Nanos, conn: ConnId, cmd: Command, out: &mut Outbox)
        requires
            old(self).valid(),
            now <= MAX_NOW,
            old(self)@.may_give(conn, cmd@),
        ensures
            final(self).host() == old(self).host(),
            final(self).valid(),
            cmd@ is Stats && old(self)@.conns.contains_key(conn) ==> exists|sys: SysSnapshot|
                old(self).host()(sys) && (final(self)@, sent(final(out)@))
                    == #[trigger] old(self)@.handle(now, conn, cmd@, sys, sent(old(out)@)),
            !(cmd@ is Stats && old(self)@.conns.contains_key(conn)) ==> forall|sys: SysSnapshot|
                (final(self)@, sent(final(out)@)) == #[trigger] old(self)@.handle(
                    now,
                    conn,
                    cmd@,
                    sys,
                    sent(old(out)@),
                ),
            old(self)@.conns.contains_key(conn) && !plain(cmd@) ==> answered(
                old(self)@,
                conn,
                cmd@ is Quit,
                cmd@ is Reserve || cmd@ is ReserveWithTimeout,
                sent(old(out)@),
                final(self)@,
                sent(final(out)@),
            ),
    {
        broadcast use {crate::ordset::group_ordered, vstd::std_specs::btree::group_btree_axioms};

        let ghost m = self@;
        let ghost o = sent(out@);
        let ghost c = cmd@;
        proof {
            // Any host will do where the command does not ask about it.
            let sys: SysSnapshot = arbitrary();
            let _ = m.handle(now, conn, c, sys, o);
        }
        if !self.conns.contains_key(&conn) {
            return;
        }
        match cmd {
            Command::Put { pri, delay, ttr, body } => self.cmd_put(
                now,
                conn,
                pri,
                delay,
                ttr,
                body,
                out,
            ),
            Command::Use(tube) => self.cmd_use(conn, tube, out),
            Command::Reserve => self.cmd_reserve(now, conn, None, out),
            Command::ReserveWithTimeout(s) => self.cmd_reserve(now, conn, Some(s), out),
            Command::ReserveJob(id) => self.cmd_reserve_job(now, conn, id, out),
            Command::Delete(id) => self.cmd_delete(conn, id, out),
            Command::Release { id, pri, delay } => self.cmd_release(
                now,
                conn,
                id,
                pri,
                delay,
                out,
            ),
            Command::Bury { id, pri } => self.cmd_bury(conn, id, pri, out),
            Command::Touch(id) => self.cmd_touch(now, conn, id, out),
            Command::Watch(tube) => self.cmd_watch(conn, tube, out),
            Command::Ignore(tube) => self.cmd_ignore(conn, tube, out),
            Command::Peek(id) => self.cmd_peek(conn, id, out),
            Command::PeekReady => self.cmd_peek_ready(conn, out),
            Command::PeekDelayed => self.cmd_peek_delayed(conn, out),
            Command::PeekBuried => self.cmd_peek_buried(conn, out),
            Command::Kick(n) => self.cmd_kick(now, conn, n, out),
            Command::KickJob(id) => self.cmd_kick_job(now, conn, id, out),
            Command::StatsJob(id) => self.cmd_stats_job(now, conn, id, out),
            Command::StatsTube(tube) => self.cmd_stats_tube(now, conn, tube, out),
            Command::Stats => {
                self.cmd_stats(now, conn, out);
                proof {
                    let sys = choose|sys: SysSnapshot|
                        self.host()(sys) && (self@, sent(out@)) == #[trigger] m.cmd_stats(
                            now,
                            conn,
                            sys,
                            o,
                        );
                    assert((self@, sent(out@)) == m.handle(now, conn, c, sys, o));
                }
            },
            Command::ListTubes => self.cmd_list_tubes(conn, out),
            Command::ListTubeUsed => self.cmd_list_tube_used(conn, out),
            Command::ListTubesWatched => self.cmd_list_tubes_watched(conn, out),
            // The server does not forward this one.
            Command::Quit => {
                proof {
                    lemma_silent(m, conn, o);
                }
            },
            Command::PauseTube { tube, delay } => self.cmd_pause_tube(now, conn, tube, delay, out),
            Command::PauseTubeBadName => self.cmd_pause_bad_name(conn, out),
        }
    }

    /// pause-tube with a name that is none: counted, and refused.
    fn cmd_pause_bad_name(&mut self, conn: ConnId, out: &mut Outbox)
        requires
            old(self).valid(),
        ensures
            final(self).host() == old(self).host(),
            final(self).valid(),
            final(self)@ == (Model {
                ops: OpCounts {
                    cmd_pause_tube: crate::rules::bump(old(self)@.ops.cmd_pause_tube),
                    ..old(self)@.ops
                },
                ..old(self)@
            }),
            sent(final(out)@) == sent(old(out)@).push((conn, ResponseView::BadFormat)),
    {
        self.ops.cmd_pause_tube = bump_u64(self.ops.cmd_pause_tube);
        proof {
            assert(self.wf());
            assert(self@ =~= (Model {
                ops: OpCounts {
                    cmd_pause_tube: crate::rules::bump(old(self)@.ops.cmd_pause_tube),
                    ..old(self)@.ops
                },
                ..old(self)@
            }));
            lemma_same_core(old(self)@, self@);
        }
        send(out, conn, Response::BadFormat);
    }

    /// Takes one input, then does everything that is due by `now`.
    pub fn apply_input(&mut self, now: Nanos, input: EngineInput, out: &mut Outbox)
        requires
            old(self).valid(),
            now <= MAX_NOW,
            old(self)@.may_happen(input),
        ensures
            final(self).host() == old(self).host(),
            final(self).valid(),
            rested(final(self)@, now),
            final(self)@ == old(self)@.after(now, input),
            old(self)@.asks_the_host(input) ==> exists|sys: SysSnapshot|
                old(self).host()(sys) && (final(self)@, sent(final(out)@))
                    == #[trigger] old(self)@.apply_input(now, input, sys, sent(old(out)@)),
            !old(self)@.asks_the_host(input) ==> forall|sys: SysSnapshot|
                (final(self)@, sent(final(out)@)) == #[trigger] old(self)@.apply_input(
                    now,
                    input,
                    sys,
                    sent(old(out)@),
                ),
    {
        let ghost m = self@;
        let ghost o = sent(out@);
        let ghost i = input;
        match input {
            EngineInput::Connect(c) => self.connect(now, c),
            EngineInput::Disconnect(c) => self.disconnect(now, c, out),
            EngineInput::HalfClose(c) => self.half_close(now, c, out),
            EngineInput::PutStarted { conn, too_big } => self.put_started(now, conn, too_big),
            EngineInput::PutRejected { conn, why } => self.put_rejected(now, conn, why, out),
            EngineInput::Command { conn, cmd } => self.handle(now, conn, cmd, out),
            EngineInput::Tick => {},
            EngineInput::SetDraining(on) => self.set_draining(on),
        }
        let ghost sys: SysSnapshot = match i {
            EngineInput::Command { conn, cmd } => choose|sys: SysSnapshot|
                self.host()(sys) && (self@, sent(out@)) == #[trigger] m.handle(
                    now,
                    conn,
                    cmd@,
                    sys,
                    o,
                ),
            _ => arbitrary(),
        };
        let ghost mid = (self@, sent(out@));
        assert(m.asks_the_host(i) ==> mid == m.take_in(now, i, sys, o));
        assert forall|any: SysSnapshot| !m.asks_the_host(i) implies mid == #[trigger] m.take_in(
            now,
            i,
            any,
            o,
        ) by {
            if let EngineInput::Command { conn, cmd } = i {
                assert(mid == m.handle(now, conn, cmd@, any, o));
            }
        }
        self.tick(now, out);
        proof {
            assert(m.asks_the_host(i) ==> (self@, sent(out@)) == m.apply_input(now, i, sys, o));
            assert forall|any: SysSnapshot| !m.asks_the_host(i) implies (self@, sent(out@))
                == #[trigger] m.apply_input(now, i, any, o) by {
                assert(mid == m.take_in(now, i, any, o));
            }
            assert((self@, sent(out@)) == m.apply_input(now, i, sys, o));
            input_adds_to_the_replies(m, now, i, sys, arbitrary(), o);
        }
    }

    /// The numbers of all connections, ascending.
    pub fn conn_ids(&self) -> (r: Vec<ConnId>)
        ensures
            r@.to_set() == self@.conns.dom(),
            forall|i: int, j: int| 0 <= i < j < r@.len() ==> r@[i] < r@[j],
    {
        assert(self@.conns.dom() =~= self.conns@.dom());
        keys_of(&self.conns)
    }

    /// How the engine is set up.
    pub fn config(&self) -> (r: &EngineConfig)
        ensures
            *r == self@.cfg,
    {
        &self.cfg
    }

    /// Moves every pending journal entry to the end of `buf`, in order.
    pub fn take_journal(&mut self, buf: &mut Vec<JournalEntry>)
        requires
            old(self).valid(),
        ensures
            final(self).host() == old(self).host(),
            final(self).valid(),
            entries(final(buf)@) == entries(old(buf)@) + old(self)@.journal,
            final(self)@ == (Model { journal: Seq::empty(), ..old(self)@ }),
    {
        buf.append(&mut self.journal);
        proof {
            assert(entries(buf@) =~= entries(old(buf)@) + old(self)@.journal);
            assert(self.wf());
            assert(self@.journal =~= Seq::empty());
            assert(self@ =~= (Model { journal: Seq::empty(), ..old(self)@ }));
            lemma_same_core(old(self)@, self@);
        }
    }

    /// Sets the log's figures in `stats`.
    pub fn set_binlog_stats(&mut self, stats: BinlogStats)
        requires
            old(self).valid(),
        ensures
            final(self).host() == old(self).host(),
            final(self).valid(),
            final(self)@ == (Model { binlog: stats, ..old(self)@ }),
    {
        self.binlog = stats;
        proof {
            assert(self.wf());
            assert(self@ =~= (Model { binlog: stats, ..old(self)@ }));
            lemma_same_core(old(self)@, self@);
        }
    }
}

/// Flags and puts in flight are no matter.
proof fn lemma_conn_meta(a: Model, b: Model)
    requires
        settled(a),
        a.jobs == b.jobs,
        a.tubes == b.tubes,
        a.conns.dom() =~= b.conns.dom(),
        forall|c: ConnId|
            #![trigger b.conns[c]]
            a.conns.contains_key(c) ==> a.conns[c].use_tube == b.conns[c].use_tube
                && a.conns[c].watch == b.conns[c].watch,
    ensures
        settled(b),
{
    assert(same_refs(a, b));
    lemma_same_refs(a, b);
    assert forall|id: JobId| !b.awaited(id) by {
        assert(!a.awaited(id));
    }
}

} // verus!
