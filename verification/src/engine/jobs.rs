//! Moving jobs in and out of the queues.

use super::{Engine, Tallies};
use crate::api::{ConnId, Nanos};
use crate::inv::{
    at, conn_jobs_ok, conn_ok, dispatchable_of, flag_ok, heads_of, is_head, job_ok,
    lemma_conn_jobs_frame, lemma_jobs_bound, lemma_jobs_insert, lemma_jobs_remove,
    lemma_least_empty, lemma_least_unique, lemma_remove_first, lemma_tube_conns_frame,
    lemma_tube_jobs_frame, live, pauses_of, pending_ok, same_for_tubes, same_in_tube, same_reserved,
    tick_ok, ticks_of, tube_jobs_ok, tube_ok,
};
use crate::model::{ConnState, ConnView, JobRec, JobState, JobView, TubeId, TubeState};
use crate::ms::{lemma_position, lemma_position_is, position};
use crate::ordset::first;
use crate::proto::{JobId, URGENT_THRESHOLD};
use crate::rules::{
    count_conns, count_jobs, delayed_set, is_least, least, picked_conns, ready_set, reserved_set,
    remove_first, tick_time, ConnSel, JobSel, Model, SAFETY_MARGIN,
};
use std::collections::{BTreeSet, VecDeque};
use vstd::prelude::*;

verus! {

/// `s` with `k` listed under `new` where it was listed under `old`.
pub(super) open spec fn relisted<K>(
    s: Set<(Nanos, K)>,
    k: K,
    old: Option<Nanos>,
    new: Option<Nanos>,
) -> Set<(Nanos, K)> {
    let a = match old {
        Some(o) => s.remove((o, k)),
        None => s,
    };
    match new {
        Some(n) => a.insert((n, k)),
        None => a,
    }
}

/// The least of a set of pairs of numbers.
pub(super) fn first_pair(s: &BTreeSet<(u64, u64)>) -> (r: Option<(u64, u64)>)
    ensures
        r == least(s@),
        r is None ==> s@ == Set::<(u64, u64)>::empty(),
        r is Some ==> is_least(s@, r->0),
{
    broadcast use {crate::ordset::group_ordered, vstd::std_specs::btree::group_btree_axioms};

    let r = first(s);
    proof {
        match r {
            Some(p) => {
                assert(is_least(s@, p));
                lemma_least_unique(s@, p);
            },
            None => {
                lemma_least_empty(s@);
            },
        }
    }
    r
}

/// Re-derives the first deadline of tube `tid`, and its entry in `heads`.
fn refresh_delay_head(t: &mut TubeState, tid: TubeId, heads: &mut BTreeSet<(Nanos, TubeId)>)
    ensures
        is_head(final(t).delayed@, final(t).delay_head),
        *final(t) == (TubeState { delay_head: final(t).delay_head, ..*old(t) }),
        final(heads)@ == relisted(old(heads)@, tid, old(t).delay_head, final(t).delay_head)
            || (final(heads)@ == old(heads)@ && final(t).delay_head == old(t).delay_head),
{
    broadcast use {crate::ordset::group_ordered, vstd::std_specs::btree::group_btree_axioms};

    let head: Option<Nanos> = match first_pair(&t.delayed) {
        Some(p) => Some(p.0),
        None => None,
    };
    if head != t.delay_head {
        if let Some(o) = t.delay_head {
            let _ = heads.remove(&(o, tid));
        }
        if let Some(n) = head {
            let _ = heads.insert((n, tid));
        }
        t.delay_head = head;
    }
}

/// Re-derives whether tube `tid` belongs in `set`.
pub(super) fn refresh_dispatchable(t: &mut TubeState, tid: TubeId, set: &mut BTreeSet<TubeId>)
    ensures
        flag_ok(*final(t)),
        *final(t) == (TubeState { dispatchable: final(t).dispatchable, ..*old(t) }),
        final(set)@ == (if final(t).dispatchable == old(t).dispatchable {
            old(set)@
        } else if final(t).dispatchable {
            old(set)@.insert(tid)
        } else {
            old(set)@.remove(tid)
        }),
{
    broadcast use {crate::ordset::group_ordered, vstd::std_specs::btree::group_btree_axioms};

    let want = !t.waiting_conns.is_empty() && !t.ready.is_empty();
    if want != t.dispatchable {
        t.dispatchable = want;
        if want {
            let _ = set.insert(tid);
        } else {
            let _ = set.remove(&tid);
        }
    }
}

/// When a connection next needs attention.
pub fn conn_tickat(c: &ConnState) -> (r: Option<Nanos>)
    ensures
        r == tick_time(c.waiting, c.wait_deadline, least(c.reserved_by_deadline@)),
{
    let margin: Nanos = if c.waiting {
        SAFETY_MARGIN
    } else {
        0
    };
    let by_job: Option<Nanos> = match first_pair(&c.reserved_by_deadline) {
        Some(p) => Some(p.0.saturating_sub(margin)),
        None => None,
    };
    let by_wait: Option<Nanos> = if c.waiting {
        c.wait_deadline
    } else {
        None
    };
    match (by_job, by_wait) {
        (Some(a), Some(b)) => Some(
            if a <= b {
                a
            } else {
                b
            },
        ),
        (Some(a), None) => Some(a),
        (None, b) => b,
    }
}

/// Re-derives when connection `cid` needs attention, and its entry in `ticks`.
pub(super) fn refresh_conn_tick(
    c: &mut ConnState,
    cid: ConnId,
    ticks: &mut BTreeSet<(Nanos, ConnId)>,
)
    ensures
        tick_ok(*final(c)),
        *final(c) == (ConnState { tick_key: final(c).tick_key, ..*old(c) }),
        final(ticks)@ == relisted(old(ticks)@, cid, old(c).tick_key, final(c).tick_key)
            || (final(ticks)@ == old(ticks)@ && final(c).tick_key == old(c).tick_key),
{
    broadcast use {crate::ordset::group_ordered, vstd::std_specs::btree::group_btree_axioms};

    let tick = conn_tickat(c);
    if tick != c.tick_key {
        if let Some(o) = c.tick_key {
            let _ = ticks.remove(&(o, cid));
        }
        if let Some(n) = tick {
            let _ = ticks.insert((n, cid));
        }
        c.tick_key = tick;
    }
}

/// What of a tube its jobs do not decide.
pub(super) open spec fn same_but_jobs(a: TubeState, b: TubeState) -> bool {
    &&& a.name == b.name
    &&& a.waiting_conns == b.waiting_conns
    &&& a.using_ct == b.using_ct
    &&& a.watching_ct == b.watching_ct
    &&& a.stat.waiting_ct == b.stat.waiting_ct
    &&& a.stat.pause_ct == b.stat.pause_ct
    &&& a.stat.total_delete_ct == b.stat.total_delete_ct
    &&& a.stat.total_jobs_ct == b.stat.total_jobs_ct
    &&& a.pause == b.pause
    &&& a.unpause_at == b.unpause_at
    &&& a.pos == b.pos
}

/// Adds the new job `j` to its tube.
fn link_to_tube(
    t: &mut TubeState,
    j: &JobRec,
    heads: &mut BTreeSet<(Nanos, TubeId)>,
    Ghost(jobs): Ghost<Map<JobId, JobView>>,
)
    requires
        tube_jobs_ok(*old(t), j.tube, jobs),
        !jobs.contains_key(j.id),
        jobs.dom().finite(),
        jobs.dom().len() < u64::MAX,
    ensures
        tube_jobs_ok(*final(t), j.tube, jobs.insert(j.id, j@)),
        same_but_jobs(*old(t), *final(t)),
        final(t).dispatchable == old(t).dispatchable,
        final(t).buried@ == (if j.state == JobState::Buried {
            old(t).buried@.push(j.id)
        } else {
            old(t).buried@
        }),
        final(heads)@ == relisted(old(heads)@, j.tube, old(t).delay_head, final(t).delay_head)
            || (final(heads)@ == old(heads)@ && final(t).delay_head == old(t).delay_head),
{
    broadcast use {crate::ordset::group_ordered, vstd::std_specs::btree::group_btree_axioms};

    let ghost new = jobs.insert(j.id, j@);
    proof {
        lemma_jobs_bound(jobs, JobSel::InTube(j.tube));
        lemma_jobs_bound(jobs, JobSel::UrgentIn(j.tube));
        lemma_jobs_bound(jobs, JobSel::ReservedIn(j.tube));
        lemma_jobs_insert(jobs, j.id, j@, JobSel::InTube(j.tube));
        lemma_jobs_insert(jobs, j.id, j@, JobSel::UrgentIn(j.tube));
        lemma_jobs_insert(jobs, j.id, j@, JobSel::ReservedIn(j.tube));
    }
    match j.state {
        JobState::Ready => {
            let _ = t.ready.insert((j.pri, j.id));
            if j.pri < URGENT_THRESHOLD {
                t.stat.urgent_ct = t.stat.urgent_ct + 1;
            }
        },
        JobState::Delayed => {
            let _ = t.delayed.insert((j.deadline_at, j.id));
        },
        JobState::Buried => {
            t.buried.push_back(j.id);
            t.stat.buried_ct = t.buried.len() as u64;
        },
        JobState::Reserved => {
            t.stat.reserved_ct = t.stat.reserved_ct + 1;
        },
    }
    t.job_ref_ct = t.job_ref_ct + 1;
    refresh_delay_head(t, j.tube, heads);
    assert(t.ready@ =~= ready_set(new, j.tube));
    assert(t.delayed@ =~= delayed_set(new, j.tube));
    assert forall|id: JobId| #[trigger] t.buried@.contains(id) <==> new.contains_key(id)
        && new[id].state == JobState::Buried && new[id].tube == j.tube by {
        let b = old(t).buried@;
        if j.state == JobState::Buried {
            assert(t.buried@ == b.push(j.id));
            if b.contains(id) {
                assert(t.buried@[b.index_of(id)] == id);
            }
            if t.buried@.contains(id) {
                let k = t.buried@.index_of(id);
                if k < b.len() {
                    assert(b[k] == id);
                    assert(b.contains(id));
                }
            }
            assert(t.buried@[b.len() as int] == j.id);
        }
        assert(b.contains(id) <==> jobs.contains_key(id) && jobs[id].state == JobState::Buried
            && jobs[id].tube == j.tube);
    }
    assert(t.buried@.no_duplicates()) by {
        assert(!old(t).buried@.contains(j.id));
    }
}

/// Where `id` first stands in the deque.
fn find_in_deque(v: &VecDeque<JobId>, id: JobId) -> (r: usize)
    requires
        v@.contains(id),
    ensures
        r == position(v@, id),
        r < v@.len(),
{
    let n: usize = v.len();
    let mut i: usize = 0;
    while i < n
        invariant
            i <= n,
            n == v@.len(),
            forall|k: int| 0 <= k < i ==> v@[k] != id,
        decreases n - i,
    {
        if v[i] == id {
            proof {
                lemma_position_is(v@, id, i as int);
            }
            return i;
        }
        i = i + 1;
    }
    proof {
        lemma_position(v@, id);
    }
    n
}

/// Where `id` first stands in the vector.
fn find_in_vec(v: &Vec<JobId>, id: JobId) -> (r: usize)
    requires
        v@.contains(id),
    ensures
        r == position(v@, id),
        r < v@.len(),
{
    let n: usize = v.len();
    let mut i: usize = 0;
    while i < n
        invariant
            i <= n,
            n == v@.len(),
            forall|k: int| 0 <= k < i ==> v@[k] != id,
        decreases n - i,
    {
        if v[i] == id {
            proof {
                lemma_position_is(v@, id, i as int);
            }
            return i;
        }
        i = i + 1;
    }
    proof {
        lemma_position(v@, id);
    }
    n
}

/// Removes job `j` from its tube.
fn unlink_from_tube(
    t: &mut TubeState,
    j: &JobRec,
    heads: &mut BTreeSet<(Nanos, TubeId)>,
    Ghost(jobs): Ghost<Map<JobId, JobView>>,
)
    requires
        tube_jobs_ok(*old(t), j.tube, jobs),
        jobs.contains_key(j.id),
        jobs[j.id] == j@,
        jobs.dom().finite(),
    ensures
        tube_jobs_ok(*final(t), j.tube, jobs.remove(j.id)),
        same_but_jobs(*old(t), *final(t)),
        final(t).dispatchable == old(t).dispatchable,
        final(t).buried@ == (if j.state == JobState::Buried {
            remove_first(old(t).buried@, j.id)
        } else {
            old(t).buried@
        }),
        final(heads)@ == relisted(old(heads)@, j.tube, old(t).delay_head, final(t).delay_head)
            || (final(heads)@ == old(heads)@ && final(t).delay_head == old(t).delay_head),
{
    broadcast use {crate::ordset::group_ordered, vstd::std_specs::btree::group_btree_axioms};

    let ghost new = jobs.remove(j.id);
    proof {
        lemma_jobs_remove(jobs, j.id, JobSel::InTube(j.tube));
        lemma_jobs_remove(jobs, j.id, JobSel::UrgentIn(j.tube));
        lemma_jobs_remove(jobs, j.id, JobSel::ReservedIn(j.tube));
        assert(old(t).buried@.contains(j.id) <==> j.state == JobState::Buried);
        if j.state == JobState::Buried {
            lemma_remove_first(old(t).buried@, j.id);
        }
    }
    match j.state {
        JobState::Ready => {
            let _ = t.ready.remove(&(j.pri, j.id));
            if j.pri < URGENT_THRESHOLD {
                t.stat.urgent_ct = t.stat.urgent_ct - 1;
            }
        },
        JobState::Delayed => {
            let _ = t.delayed.remove(&(j.deadline_at, j.id));
        },
        JobState::Buried => {
            let i: usize = find_in_deque(&t.buried, j.id);
            let _ = t.buried.remove(i);
            t.stat.buried_ct = t.stat.buried_ct - 1;
        },
        JobState::Reserved => {
            t.stat.reserved_ct = t.stat.reserved_ct - 1;
        },
    }
    t.job_ref_ct = t.job_ref_ct - 1;
    refresh_delay_head(t, j.tube, heads);
    assert(t.ready@ =~= ready_set(new, j.tube));
    assert(t.delayed@ =~= delayed_set(new, j.tube));
    assert forall|id: JobId| #[trigger] t.buried@.contains(id) <==> new.contains_key(id)
        && new[id].state == JobState::Buried && new[id].tube == j.tube by {
        let b = old(t).buried@;
        assert(b.contains(id) <==> jobs.contains_key(id) && jobs[id].state == JobState::Buried
            && jobs[id].tube == j.tube);
    }
}

/// What of a connection its reserved jobs do not decide.
pub(super) open spec fn same_but_reserved(a: ConnState, b: ConnState) -> bool {
    &&& a.use_tube == b.use_tube
    &&& a.watch == b.watch
    &&& a.is_producer == b.is_producer
    &&& a.is_worker == b.is_worker
    &&& a.waiting == b.waiting
    &&& a.wait_deadline == b.wait_deadline
    &&& a.pending_put == b.pending_put
}

/// Adds the new job `j` to the reservations of connection `cid`.
fn link_to_conn(
    c: &mut ConnState,
    cid: ConnId,
    j: &JobRec,
    ticks: &mut BTreeSet<(Nanos, ConnId)>,
    Ghost(jobs): Ghost<Map<JobId, JobView>>,
)
    requires
        conn_jobs_ok(*old(c), cid, jobs),
        !jobs.contains_key(j.id),
        j.state == JobState::Reserved,
        j.reserver == Some(cid),
    ensures
        conn_jobs_ok(*final(c), cid, jobs.insert(j.id, j@)),
        same_but_reserved(*old(c), *final(c)),
        final(c).reserved_fifo@ == old(c).reserved_fifo@.push(j.id),
        tick_ok(*final(c)),
        final(ticks)@ == relisted(old(ticks)@, cid, old(c).tick_key, final(c).tick_key)
            || (final(ticks)@ == old(ticks)@ && final(c).tick_key == old(c).tick_key),
{
    broadcast use {crate::ordset::group_ordered, vstd::std_specs::btree::group_btree_axioms};

    let ghost new = jobs.insert(j.id, j@);
    c.reserved_fifo.push(j.id);
    let _ = c.reserved_by_deadline.insert((j.deadline_at, j.id));
    refresh_conn_tick(c, cid, ticks);
    assert(c.reserved_by_deadline@ =~= reserved_set(new, cid));
    let ghost b = old(c).reserved_fifo@;
    assert(!b.contains(j.id));
    assert(c.reserved_fifo@ == b.push(j.id));
    assert forall|id: JobId| #[trigger] c.reserved_fifo@.contains(id) <==> new.contains_key(id)
        && new[id].state == JobState::Reserved && new[id].reserver == Some(cid) by {
        if b.contains(id) {
            assert(c.reserved_fifo@[b.index_of(id)] == id);
        }
        if c.reserved_fifo@.contains(id) {
            let k = c.reserved_fifo@.index_of(id);
            if k < b.len() {
                assert(b[k] == id);
                assert(b.contains(id));
            }
        }
        assert(c.reserved_fifo@[b.len() as int] == j.id);
        assert(b.contains(id) <==> jobs.contains_key(id) && jobs[id].state == JobState::Reserved
            && jobs[id].reserver == Some(cid));
    }
}

/// Removes job `j` from the reservations of connection `cid`.
fn unlink_from_conn(
    c: &mut ConnState,
    cid: ConnId,
    j: &JobRec,
    ticks: &mut BTreeSet<(Nanos, ConnId)>,
    Ghost(jobs): Ghost<Map<JobId, JobView>>,
)
    requires
        conn_jobs_ok(*old(c), cid, jobs),
        jobs.contains_key(j.id),
        jobs[j.id] == j@,
        j.state == JobState::Reserved,
        j.reserver == Some(cid),
    ensures
        conn_jobs_ok(*final(c), cid, jobs.remove(j.id)),
        same_but_reserved(*old(c), *final(c)),
        final(c).reserved_fifo@ == remove_first(old(c).reserved_fifo@, j.id),
        tick_ok(*final(c)),
        final(ticks)@ == relisted(old(ticks)@, cid, old(c).tick_key, final(c).tick_key)
            || (final(ticks)@ == old(ticks)@ && final(c).tick_key == old(c).tick_key),
{
    broadcast use {crate::ordset::group_ordered, vstd::std_specs::btree::group_btree_axioms};

    let ghost new = jobs.remove(j.id);
    let ghost b = old(c).reserved_fifo@;
    proof {
        assert(b.contains(j.id));
        lemma_remove_first(b, j.id);
    }
    let i: usize = find_in_vec(&c.reserved_fifo, j.id);
    let _ = c.reserved_fifo.remove(i);
    let _ = c.reserved_by_deadline.remove(&(j.deadline_at, j.id));
    refresh_conn_tick(c, cid, ticks);
    assert(c.reserved_by_deadline@ =~= reserved_set(new, cid));
    assert forall|id: JobId| #[trigger] c.reserved_fifo@.contains(id) <==> new.contains_key(id)
        && new[id].state == JobState::Reserved && new[id].reserver == Some(cid) by {
        assert(b.contains(id) <==> jobs.contains_key(id) && jobs[id].state == JobState::Reserved
            && jobs[id].reserver == Some(cid));
    }
}

/// Whether no connection has been given `id` for a put.
pub(super) open spec fn unclaimed(conns: Map<ConnId, ConnView>, id: JobId) -> bool {
    forall|c: ConnId|
        #![trigger conns[c]]
        conns.contains_key(c) && conns[c].pending_put is Some ==> conns[c].pending_put->0.id
            != Some(id)
}

/// Whether job `j`, which `m` lacks, has a tube and, if reserved, a holder
/// there, and a number that has been handed out.
pub open spec fn job_fits(j: JobView, m: Model) -> bool {
    &&& j.id < m.next_job_id
    &&& !m.jobs.contains_key(j.id)
    &&& j.ttr >= 1
    &&& m.live(j.tube)
    &&& j.reserver is Some ==> m.conns.contains_key(j.reserver->0)
}

/// Two sets of connections that differ in what they reserved alone.
pub(super) proof fn lemma_conns_alike(a: Map<ConnId, ConnView>, b: Map<ConnId, ConnView>)
    requires
        same_for_tubes(a, b),
        forall|c: ConnId|
            #![trigger a[c]]
            #![trigger b[c]]
            a.contains_key(c) ==> a[c].is_producer == b[c].is_producer && a[c].is_worker
                == b[c].is_worker && a[c].pending_put == b[c].pending_put,
        pending_ok(a),
    ensures
        count_conns(a, ConnSel::Waiting) == count_conns(b, ConnSel::Waiting),
        count_conns(a, ConnSel::Producer) == count_conns(b, ConnSel::Producer),
        count_conns(a, ConnSel::Worker) == count_conns(b, ConnSel::Worker),
        pending_ok(b),
{
    assert(picked_conns(a, ConnSel::Waiting) =~= picked_conns(b, ConnSel::Waiting));
    assert(picked_conns(a, ConnSel::Producer) =~= picked_conns(b, ConnSel::Producer));
    assert(picked_conns(a, ConnSel::Worker) =~= picked_conns(b, ConnSel::Worker));
    assert forall|x: ConnId, y: ConnId|
        #![trigger b[x], b[y]]
        x != y && b.contains_key(x) && b.contains_key(y) && b[x].pending_put is Some
            && b[y].pending_put is Some && b[x].pending_put->0.id is Some implies b[x].pending_put->0.id
        != b[y].pending_put->0.id by {
        assert(a.contains_key(x) && a.contains_key(y));
        assert(a[x].pending_put == b[x].pending_put);
        assert(a[y].pending_put == b[y].pending_put);
    }
}

impl Engine {
    /// All is well after one job of tube `t`, reserved by `c` if by anyone, has
    /// come or gone and its tube and its holder have taken note.
    proof fn lemma_job_moved(self, old: Engine, id: JobId, t: TubeId, c: Option<ConnId>)
        requires
            old.wf(),
            self.jv().remove(id) == old.jv().remove(id),
            self.jv().contains_key(id) ==> self.jv()[id].tube == t && self.jv()[id].reserver == c
                && job_ok(self.jv()[id], id, old.next_job_id, old.tubes@, old.cv()),
            old.jv().contains_key(id) ==> old.jv()[id].tube == t && old.jv()[id].reserver == c,
            unclaimed(old.cv(), id),
            live(old.tubes@, t),
            self.tubes@ == old.tubes@.update(t as int, Some(at(self.tubes@, t))),
            same_but_jobs(at(old.tubes@, t), at(self.tubes@, t)),
            tube_jobs_ok(at(self.tubes@, t), t, self.jv()),
            flag_ok(at(self.tubes@, t)),
            match c {
                Some(c) => {
                    &&& old.conns@.contains_key(c)
                    &&& self.conns@ == old.conns@.insert(c, self.conns@[c])
                    &&& same_but_reserved(old.conns@[c], self.conns@[c])
                    &&& conn_jobs_ok(self.conns@[c], c, self.jv())
                    &&& tick_ok(self.conns@[c])
                    &&& self.conn_ticks@ == relisted(
                        old.conn_ticks@,
                        c,
                        old.conns@[c].tick_key,
                        self.conns@[c].tick_key,
                    ) || (self.conn_ticks@ == old.conn_ticks@ && self.conns@[c].tick_key
                        == old.conns@[c].tick_key)
                },
                None => self.conns@ == old.conns@ && self.conn_ticks@ == old.conn_ticks@,
            },
            self.delay_heads@ == relisted(
                old.delay_heads@,
                t,
                at(old.tubes@, t).delay_head,
                at(self.tubes@, t).delay_head,
            ) || (self.delay_heads@ == old.delay_heads@ && at(self.tubes@, t).delay_head == at(
                old.tubes@,
                t,
            ).delay_head),
            self.dispatchable@ == (if at(self.tubes@, t).dispatchable == at(
                old.tubes@,
                t,
            ).dispatchable {
                old.dispatchable@
            } else if at(self.tubes@, t).dispatchable {
                old.dispatchable@.insert(t)
            } else {
                old.dispatchable@.remove(t)
            }),
            self.tallies == (Tallies {
                ready_ct: self.tallies.ready_ct,
                urgent_ct: self.tallies.urgent_ct,
                reserved_ct: self.tallies.reserved_ct,
                buried_ct: self.tallies.buried_ct,
                delayed_ct: self.tallies.delayed_ct,
                ..old.tallies
            }),
            self.tallies.ready_ct == count_jobs(self.jv(), JobSel::Ready),
            self.tallies.urgent_ct == count_jobs(self.jv(), JobSel::Urgent),
            self.tallies.reserved_ct == count_jobs(self.jv(), JobSel::Reserved),
            self.tallies.buried_ct == count_jobs(self.jv(), JobSel::Buried),
            self.tallies.delayed_ct == count_jobs(self.jv(), JobSel::Delayed),
            self.next_job_id == old.next_job_id,
            self.free_tube_ids@ == old.free_tube_ids@,
            self.tube_ids@ == old.tube_ids@,
            self.tube_order@ == old.tube_order@,
            self.tot_conns == old.tot_conns,
            self.pauses@ == old.pauses@,
        ensures
            self.wf(),
    {
        let a = old.jv();
        let b = self.jv();
        let ca = old.cv();
        let cb = self.cv();
        assert forall|k: JobId|
            #![trigger a.contains_key(k)]
            #![trigger b.contains_key(k)]
            #![trigger a[k]]
            #![trigger b[k]]
            k != id implies (a.contains_key(k) <==> b.contains_key(k)) && (a.contains_key(k)
            ==> a[k] == b[k]) by {
            assert(a.remove(id).contains_key(k) == a.contains_key(k));
            assert(b.remove(id).contains_key(k) == b.contains_key(k));
            if a.contains_key(k) {
                assert(a.remove(id)[k] == a[k]);
                assert(b.remove(id)[k] == b[k]);
            }
        }
        assert(ca.dom() =~= cb.dom());
        assert(same_for_tubes(ca, cb));
        lemma_conns_alike(ca, cb);
        assert forall|u: TubeId| live(self.tubes@, u) == live(old.tubes@, u) by {}
        assert forall|u: TubeId| #[trigger] live(self.tubes@, u) implies tube_ok(
            at(self.tubes@, u),
            u,
            b,
            cb,
        ) by {
            assert(live(old.tubes@, u));
            let x = at(old.tubes@, u);
            if u == t {
                lemma_tube_conns_frame(x, u, ca, cb);
            } else {
                assert(at(self.tubes@, u) == x);
                assert(same_in_tube(a, b, u));
                lemma_tube_jobs_frame(x, u, a, b);
                lemma_tube_conns_frame(x, u, ca, cb);
            }
        }
        assert forall|k: JobId| #[trigger] b.contains_key(k) implies job_ok(
            b[k],
            k,
            self.next_job_id,
            self.tubes@,
            cb,
        ) by {
            if k != id {
                assert(a.contains_key(k));
            }
        }
        assert forall|k: ConnId| #[trigger] self.conns@.contains_key(k) implies conn_ok(
            self.conns@[k],
            k,
            self.next_job_id,
            self.tubes@,
            b,
        ) by {
            assert(old.conns@.contains_key(k));
            assert(conn_ok(old.conns@[k], k, old.next_job_id, old.tubes@, a));
            assert(ca[k] == old.conns@[k]@);
            assert(cb[k] == self.conns@[k]@);
            if c != Some(k) {
                assert(same_reserved(a, b, k));
                lemma_conn_jobs_frame(old.conns@[k], k, a, b);
            }
        }
        assert(self.conn_ticks@ =~= ticks_of(self.conns@));
        assert(self.delay_heads@ =~= heads_of(self.tubes@));
        assert(self.pauses@ =~= pauses_of(self.tubes@));
        assert(self.dispatchable@ =~= dispatchable_of(self.tubes@));
    }

    /// Puts job `j` into the queue that its state calls for.
    pub(super) fn put_job(&mut self, j: JobRec)
        requires
            old(self).wf(),
            !old(self)@.jobs.contains_key(j.id),
            j.id < old(self)@.next_job_id,
            j.ttr >= 1,
            old(self)@.live(j.tube),
            j.state == JobState::Reserved <==> j.reserver is Some,
            j.reserver is Some ==> old(self)@.conns.contains_key(j.reserver->0),
            unclaimed(old(self)@.conns, j.id),
        ensures
            final(self).host() == old(self).host(),
            final(self).wf(),
            final(self)@ == old(self)@.with_job(j@),
    {
        broadcast use {crate::ordset::group_ordered, vstd::std_specs::btree::group_btree_axioms};

        let ghost jobs = self.jv();
        let ghost conns = self.cv();
        let ghost new = jobs.insert(j.id, j@);
        assert(self.jobs@.dom().finite());
        assert(jobs.dom() =~= self.jobs@.dom());
        assert(live(self.tubes@, j.tube));
        let id: JobId = j.id;
        let tid: TubeId = j.tube;
        let copy = j.clone();
        let _ = self.jobs.insert(id, j);
        assert(self.jv() =~= new);
        assert(self.jobs.len() == self.jobs@.len());
        assert(new.dom() =~= self.jobs@.dom());
        proof {
            lemma_jobs_bound(jobs, JobSel::Ready);
            lemma_jobs_bound(jobs, JobSel::Urgent);
            lemma_jobs_bound(jobs, JobSel::Reserved);
            lemma_jobs_bound(jobs, JobSel::Buried);
            lemma_jobs_bound(jobs, JobSel::Delayed);
            lemma_jobs_insert(jobs, id, j@, JobSel::Ready);
            lemma_jobs_insert(jobs, id, j@, JobSel::Urgent);
            lemma_jobs_insert(jobs, id, j@, JobSel::Reserved);
            lemma_jobs_insert(jobs, id, j@, JobSel::Buried);
            lemma_jobs_insert(jobs, id, j@, JobSel::Delayed);
        }
        if let Some(t) = &mut self.tubes[tid] {
            link_to_tube(t, &copy, &mut self.delay_heads, Ghost(jobs));
            refresh_dispatchable(t, tid, &mut self.dispatchable);
        }
        match copy.state {
            JobState::Ready => {
                self.tallies.ready_ct = self.tallies.ready_ct + 1;
                if copy.pri < URGENT_THRESHOLD {
                    self.tallies.urgent_ct = self.tallies.urgent_ct + 1;
                }
            },
            JobState::Delayed => {
                self.tallies.delayed_ct = self.tallies.delayed_ct + 1;
            },
            JobState::Buried => {
                self.tallies.buried_ct = self.tallies.buried_ct + 1;
            },
            JobState::Reserved => {
                self.tallies.reserved_ct = self.tallies.reserved_ct + 1;
                if let Some(cid) = copy.reserver {
                    if let Some(mut c) = self.conns.remove(&cid) {
                        link_to_conn(&mut c, cid, &copy, &mut self.conn_ticks, Ghost(jobs));
                        let _ = self.conns.insert(cid, c);
                        assert(self.conns@ =~= old(self).conns@.insert(cid, self.conns@[cid]));
                    }
                }
            },
        }
        proof {
            assert(self.jv().remove(id) =~= jobs.remove(id));
            self.lemma_job_moved(*old(self), id, tid, copy.reserver);
            assert(self@ =~= old(self)@.with_job(j@));
        }
    }

    /// Takes job `id` out of the queue that it is in.
    pub(super) fn take_job(&mut self, id: JobId) -> (j: JobRec)
        requires
            old(self).wf(),
            old(self)@.jobs.contains_key(id),
        ensures
            final(self).host() == old(self).host(),
            final(self).wf(),
            j@ == old(self)@.jobs[id],
            j.id == id,
            final(self)@ == old(self)@.without_job(id),
            unclaimed(final(self)@.conns, id),
            job_fits(j@, final(self)@),
    {
        broadcast use {crate::ordset::group_ordered, vstd::std_specs::btree::group_btree_axioms};

        let ghost jobs = self.jv();
        let ghost conns = self.cv();
        let ghost new = jobs.remove(id);
        assert(self.jobs@.dom().finite());
        assert(jobs.dom() =~= self.jobs@.dom());
        assert(jobs.contains_key(id));
        let taken = self.jobs.remove(&id);
        let j: JobRec = taken.unwrap();
        assert(self.jv() =~= new);
        assert(jobs[id] == j@);
        let tid: TubeId = j.tube;
        assert(live(self.tubes@, tid));
        proof {
            lemma_jobs_remove(jobs, id, JobSel::Ready);
            lemma_jobs_remove(jobs, id, JobSel::Urgent);
            lemma_jobs_remove(jobs, id, JobSel::Reserved);
            lemma_jobs_remove(jobs, id, JobSel::Buried);
            lemma_jobs_remove(jobs, id, JobSel::Delayed);
        }
        if let Some(t) = &mut self.tubes[tid] {
            unlink_from_tube(t, &j, &mut self.delay_heads, Ghost(jobs));
            refresh_dispatchable(t, tid, &mut self.dispatchable);
        }
        match j.state {
            JobState::Ready => {
                self.tallies.ready_ct = self.tallies.ready_ct - 1;
                if j.pri < URGENT_THRESHOLD {
                    self.tallies.urgent_ct = self.tallies.urgent_ct - 1;
                }
            },
            JobState::Delayed => {
                self.tallies.delayed_ct = self.tallies.delayed_ct - 1;
            },
            JobState::Buried => {
                self.tallies.buried_ct = self.tallies.buried_ct - 1;
            },
            JobState::Reserved => {
                self.tallies.reserved_ct = self.tallies.reserved_ct - 1;
                if let Some(cid) = j.reserver {
                    assert(self.conns@.contains_key(cid));
                    if let Some(mut c) = self.conns.remove(&cid) {
                        unlink_from_conn(&mut c, cid, &j, &mut self.conn_ticks, Ghost(jobs));
                        let _ = self.conns.insert(cid, c);
                        assert(self.conns@ =~= old(self).conns@.insert(cid, self.conns@[cid]));
                    }
                }
            },
        }
        proof {
            assert(self.jv().remove(id) =~= jobs.remove(id));
            assert forall|c: ConnId|
                #![trigger conns[c]]
                conns.contains_key(c) && conns[c].pending_put is Some implies conns[c].pending_put->0.id
                != Some(id) by {
                assert(old(self).conns@.contains_key(c));
            }
            self.lemma_job_moved(*old(self), id, tid, j.reserver);
            assert(self@ =~= old(self)@.without_job(id));
            assert forall|c: ConnId|
                #![trigger self@.conns[c]]
                self@.conns.contains_key(c) && self@.conns[c].pending_put is Some implies self@.conns[c].pending_put->0.id
                != Some(id) by {
                assert(conns.contains_key(c));
                assert(conns[c].pending_put == self@.conns[c].pending_put);
            }
        }
        j
    }
}

} // verus!
