//! What holds of the engine's data between any two steps, and how the counts
//! and sets that are derived from the jobs and the connections change when one
//! of those does.

use crate::api::{ConnId, Nanos};
use crate::model::{ConnState, ConnView, JobState, JobView, TubeId, TubeState};
use crate::ms::{lemma_position, position};
use crate::proto::{default_name, JobId, TubeName};
use crate::rules::{
    count_conns, count_jobs, delayed_set, is_least, least, pair_le, picked_conns, picked_jobs,
    ready_set, remove_first, reserved_set, tick_time, ConnSel, JobSel,
};
use crate::text::bytes_lt;
use vstd::prelude::*;

verus! {

/// Whether slot `t` holds a tube.
pub open spec fn live(tubes: Seq<Option<TubeState>>, t: TubeId) -> bool {
    t < tubes.len() && tubes[t as int] is Some
}

/// The tube in slot `t`.
pub open spec fn at(tubes: Seq<Option<TubeState>>, t: TubeId) -> TubeState {
    tubes[t as int]->0
}

/// The list of tubes and the slab name the same tubes.
pub open spec fn order_ok(tubes: Seq<Option<TubeState>>, order: Seq<TubeId>) -> bool {
    &&& forall|t: TubeId| #[trigger]
        live(tubes, t) ==> at(tubes, t).pos < order.len() && order[at(tubes, t).pos as int] == t
    &&& forall|i: int|
        0 <= i < order.len() ==> live(tubes, #[trigger] order[i]) && at(tubes, order[i]).pos == i
}

/// The free list names each free slot once.
pub open spec fn free_ok(tubes: Seq<Option<TubeState>>, free: Seq<TubeId>) -> bool {
    &&& free.no_duplicates()
    &&& forall|t: TubeId| #[trigger] free.contains(t) ==> t < tubes.len() && !live(tubes, t)
    &&& forall|t: TubeId| t < tubes.len() && !(#[trigger] live(tubes, t)) ==> free.contains(t)
}

/// The index of names lists each tube once, ascending by name.
pub open spec fn names_ok(
    tubes: Seq<Option<TubeState>>,
    names: Seq<(TubeName, TubeId)>,
) -> bool {
    &&& forall|i: int, j: int|
        #![trigger names[i], names[j]]
        0 <= i < j < names.len() ==> bytes_lt(names[i].0@, names[j].0@)
    &&& forall|i: int|
        0 <= i < names.len() ==> live(tubes, (#[trigger] names[i]).1) && at(
            tubes,
            names[i].1,
        ).name@ == names[i].0@
    &&& forall|t: TubeId| #[trigger]
        live(tubes, t) ==> exists|i: int| 0 <= i < names.len() && (#[trigger] names[i]).1 == t
}

/// Tube 0 is "default", first in the list.
pub open spec fn default_ok(tubes: Seq<Option<TubeState>>) -> bool {
    &&& live(tubes, 0)
    &&& at(tubes, 0).name@ == default_name()
    &&& at(tubes, 0).pos == 0
}

/// What holds of the job stored under `id`.
pub open spec fn job_ok(
    j: JobView,
    id: JobId,
    next: JobId,
    tubes: Seq<Option<TubeState>>,
    conns: Map<ConnId, ConnView>,
) -> bool {
    &&& j.id == id
    &&& id < next
    &&& j.ttr >= 1
    &&& live(tubes, j.tube)
    &&& j.state == JobState::Reserved <==> j.reserver is Some
    &&& j.reserver is Some ==> conns.contains_key(j.reserver->0)
}

/// Whether `d` is the first of the deadlines in `s`.
pub open spec fn is_head(s: Set<(Nanos, JobId)>, d: Option<Nanos>) -> bool {
    match least(s) {
        Some(p) => d == Some(p.0),
        None => d is None,
    }
}

/// What holds of tube `t`, whose data is `x`.
pub open spec fn tube_ok(
    x: TubeState,
    t: TubeId,
    jobs: Map<JobId, JobView>,
    conns: Map<ConnId, ConnView>,
) -> bool {
    &&& tube_jobs_ok(x, t, jobs)
    &&& tube_conns_ok(x, t, conns)
    &&& flag_ok(x)
}

/// The tube is marked as dispatchable exactly when it has both waiting
/// connections and ready jobs.
pub open spec fn flag_ok(x: TubeState) -> bool {
    x.dispatchable == (x.waiting_conns@.items.len() > 0 && !x.ready@.is_empty())
}

/// What holds between tube `t` and the jobs.
pub open spec fn tube_jobs_ok(x: TubeState, t: TubeId, jobs: Map<JobId, JobView>) -> bool {
    &&& x.ready@ == ready_set(jobs, t)
    &&& x.delayed@ == delayed_set(jobs, t)
    &&& x.buried@.no_duplicates()
    &&& forall|id: JobId| #[trigger]
        x.buried@.contains(id) <==> jobs.contains_key(id) && jobs[id].state == JobState::Buried
            && jobs[id].tube == t
    &&& x.job_ref_ct == count_jobs(jobs, JobSel::InTube(t))
    &&& x.stat.urgent_ct == count_jobs(jobs, JobSel::UrgentIn(t))
    &&& x.stat.reserved_ct == count_jobs(jobs, JobSel::ReservedIn(t))
    &&& x.stat.buried_ct == x.buried@.len()
    &&& is_head(x.delayed@, x.delay_head)
}

/// What holds between tube `t` and the connections.
pub open spec fn tube_conns_ok(x: TubeState, t: TubeId, conns: Map<ConnId, ConnView>) -> bool {
    &&& x.waiting_conns@.items.no_duplicates()
    &&& forall|c: ConnId| #[trigger]
        x.waiting_conns@.items.contains(c) <==> conns.contains_key(c) && conns[c].waiting
            && conns[c].watch.items.contains(t)
    &&& x.stat.waiting_ct == x.waiting_conns@.items.len()
    &&& x.using_ct == count_conns(conns, ConnSel::Uses(t))
    &&& x.watching_ct == count_conns(conns, ConnSel::Watches(t))
}

/// What holds of connection `c`, whose data is `x`.
pub open spec fn conn_ok(
    x: ConnState,
    c: ConnId,
    next: JobId,
    tubes: Seq<Option<TubeState>>,
    jobs: Map<JobId, JobView>,
) -> bool {
    &&& live(tubes, x.use_tube)
    &&& x.watch@.items.no_duplicates()
    &&& forall|i: int|
        0 <= i < x.watch@.items.len() ==> live(tubes, #[trigger] x.watch@.items[i])
    &&& !x.waiting ==> x.wait_deadline is None
    &&& conn_jobs_ok(x, c, jobs)
    &&& x.pending_put is Some && x.pending_put->0.id is Some ==> x.pending_put->0.id->0 < next
        && !jobs.contains_key(x.pending_put->0.id->0)
    &&& tick_ok(x)
}

/// What holds between connection `c` and the jobs that it reserved.
pub open spec fn conn_jobs_ok(x: ConnState, c: ConnId, jobs: Map<JobId, JobView>) -> bool {
    &&& x.reserved_fifo@.no_duplicates()
    &&& forall|id: JobId| #[trigger]
        x.reserved_fifo@.contains(id) <==> jobs.contains_key(id) && jobs[id].state
            == JobState::Reserved && jobs[id].reserver == Some(c)
    &&& x.reserved_by_deadline@ == reserved_set(jobs, c)
}

/// The connection's entry in the index of ticks is right.
pub open spec fn tick_ok(x: ConnState) -> bool {
    x.tick_key == tick_time(x.waiting, x.wait_deadline, least(x.reserved_by_deadline@))
}

/// No two connections have been given the same job id for a put.
pub open spec fn pending_ok(conns: Map<ConnId, ConnView>) -> bool {
    forall|a: ConnId, b: ConnId|
        #![trigger conns[a], conns[b]]
        a != b && conns.contains_key(a) && conns.contains_key(b) && conns[a].pending_put is Some
            && conns[b].pending_put is Some && conns[a].pending_put->0.id is Some
            ==> conns[a].pending_put->0.id != conns[b].pending_put->0.id
}

/// The index of ticks that belongs to `conns`.
pub open spec fn ticks_of(conns: Map<ConnId, ConnState>) -> Set<(Nanos, ConnId)> {
    Set::new(|p: (Nanos, ConnId)| conns.contains_key(p.1) && conns[p.1].tick_key == Some(p.0))
}

/// The index of delayed jobs that belongs to `tubes`.
pub open spec fn heads_of(tubes: Seq<Option<TubeState>>) -> Set<(Nanos, TubeId)> {
    Set::new(|p: (Nanos, TubeId)| live(tubes, p.1) && at(tubes, p.1).delay_head == Some(p.0))
}

/// The index of pauses that belongs to `tubes`.
pub open spec fn pauses_of(tubes: Seq<Option<TubeState>>) -> Set<(Nanos, TubeId)> {
    Set::new(
        |p: (Nanos, TubeId)|
            live(tubes, p.1) && at(tubes, p.1).pause > 0 && at(tubes, p.1).unpause_at == p.0,
    )
}

/// The set of dispatchable tubes that belongs to `tubes`.
pub open spec fn dispatchable_of(tubes: Seq<Option<TubeState>>) -> Set<TubeId> {
    Set::new(|t: TubeId| live(tubes, t) && at(tubes, t).dispatchable)
}

// Counting.

/// Adding a job that `jobs` lacks.
pub proof fn lemma_jobs_insert(jobs: Map<JobId, JobView>, id: JobId, j: JobView, sel: JobSel)
    requires
        jobs.dom().finite(),
        !jobs.contains_key(id),
    ensures
        count_jobs(jobs.insert(id, j), sel) == count_jobs(jobs, sel) + (if sel.picks(j) {
            1int
        } else {
            0
        }),
{
    let new = jobs.insert(id, j);
    assert(picked_jobs(jobs, sel).finite());
    if sel.picks(j) {
        assert(picked_jobs(new, sel) =~= picked_jobs(jobs, sel).insert(id));
    } else {
        assert(picked_jobs(new, sel) =~= picked_jobs(jobs, sel));
    }
}

/// Taking a job away.
pub proof fn lemma_jobs_remove(jobs: Map<JobId, JobView>, id: JobId, sel: JobSel)
    requires
        jobs.dom().finite(),
        jobs.contains_key(id),
    ensures
        count_jobs(jobs.remove(id), sel) == count_jobs(jobs, sel) - (if sel.picks(jobs[id]) {
            1int
        } else {
            0
        }),
{
    let new = jobs.remove(id);
    assert(picked_jobs(jobs, sel).finite());
    if sel.picks(jobs[id]) {
        assert(picked_jobs(new, sel) =~= picked_jobs(jobs, sel).remove(id));
    } else {
        assert(picked_jobs(new, sel) =~= picked_jobs(jobs, sel));
    }
}

/// No more jobs are picked than there are.
pub proof fn lemma_jobs_bound(jobs: Map<JobId, JobView>, sel: JobSel)
    requires
        jobs.dom().finite(),
    ensures
        count_jobs(jobs, sel) <= jobs.dom().len(),
{
    vstd::set_lib::lemma_len_subset(picked_jobs(jobs, sel), jobs.dom());
}

/// A count is 0 exactly when no job is picked.
pub proof fn lemma_jobs_none(jobs: Map<JobId, JobView>, sel: JobSel)
    requires
        jobs.dom().finite(),
    ensures
        count_jobs(jobs, sel) == 0 <==> forall|id: JobId|
            jobs.contains_key(id) ==> !sel.picks(#[trigger] jobs[id]),
{
    let s = picked_jobs(jobs, sel);
    assert(s.finite());
    if s.len() == 0 {
        assert forall|id: JobId| jobs.contains_key(id) implies !sel.picks(
            #[trigger] jobs[id],
        ) by {
            assert(!s.contains(id));
        }
    } else {
        let id = s.choose();
        assert(s.contains(id));
        assert(sel.picks(jobs[id]));
    }
}

/// Replacing, adding or removing a connection changes a count by what the
/// connection counted before and after.
pub proof fn lemma_conns_insert(
    conns: Map<ConnId, ConnView>,
    c: ConnId,
    v: ConnView,
    sel: ConnSel,
)
    requires
        conns.dom().finite(),
    ensures
        count_conns(conns.insert(c, v), sel) == count_conns(conns, sel) + (if sel.picks(v) {
            1int
        } else {
            0
        }) - (if conns.contains_key(c) && sel.picks(conns[c]) {
            1int
        } else {
            0
        }),
{
    let new = conns.insert(c, v);
    assert(picked_conns(conns, sel).finite());
    if sel.picks(v) {
        assert(picked_conns(new, sel) =~= picked_conns(conns, sel).insert(c));
    } else {
        assert(picked_conns(new, sel) =~= picked_conns(conns, sel).remove(c));
    }
}

/// Taking a connection away.
pub proof fn lemma_conns_remove(conns: Map<ConnId, ConnView>, c: ConnId, sel: ConnSel)
    requires
        conns.dom().finite(),
        conns.contains_key(c),
    ensures
        count_conns(conns.remove(c), sel) == count_conns(conns, sel) - (if sel.picks(conns[c]) {
            1int
        } else {
            0
        }),
{
    let new = conns.remove(c);
    assert(picked_conns(conns, sel).finite());
    assert(picked_conns(new, sel) =~= picked_conns(conns, sel).remove(c));
}

/// No more connections are picked than there are.
pub proof fn lemma_conns_bound(conns: Map<ConnId, ConnView>, sel: ConnSel)
    requires
        conns.dom().finite(),
    ensures
        count_conns(conns, sel) <= conns.dom().len(),
{
    vstd::set_lib::lemma_len_subset(picked_conns(conns, sel), conns.dom());
}

/// A count is 0 exactly when no connection is picked.
pub proof fn lemma_conns_none(conns: Map<ConnId, ConnView>, sel: ConnSel)
    requires
        conns.dom().finite(),
    ensures
        count_conns(conns, sel) == 0 <==> forall|c: ConnId|
            conns.contains_key(c) ==> !sel.picks(#[trigger] conns[c]),
{
    let s = picked_conns(conns, sel);
    assert(s.finite());
    if s.len() == 0 {
        assert forall|c: ConnId| conns.contains_key(c) implies !sel.picks(
            #[trigger] conns[c],
        ) by {
            assert(!s.contains(c));
        }
    } else {
        let c = s.choose();
        assert(s.contains(c));
        assert(sel.picks(conns[c]));
    }
}

// Framing.

/// Whether `a` and `b` hold the same jobs in tube `t`.
pub open spec fn same_in_tube(
    a: Map<JobId, JobView>,
    b: Map<JobId, JobView>,
    t: TubeId,
) -> bool {
    forall|id: JobId|
        #![trigger a.contains_key(id)]
        #![trigger b.contains_key(id)]
        #![trigger a[id]]
        #![trigger b[id]]
        {
            &&& (a.contains_key(id) && a[id].tube == t) <==> (b.contains_key(id) && b[id].tube == t)
            &&& a.contains_key(id) && a[id].tube == t ==> a[id] == b[id]
        }
}

/// A tube does not notice what happens to the jobs of others.
pub proof fn lemma_tube_jobs_frame(
    x: TubeState,
    t: TubeId,
    a: Map<JobId, JobView>,
    b: Map<JobId, JobView>,
)
    requires
        tube_jobs_ok(x, t, a),
        same_in_tube(a, b, t),
    ensures
        tube_jobs_ok(x, t, b),
{
    assert(ready_set(a, t) =~= ready_set(b, t));
    assert(delayed_set(a, t) =~= delayed_set(b, t));
    assert(picked_jobs(a, JobSel::InTube(t)) =~= picked_jobs(b, JobSel::InTube(t)));
    assert(picked_jobs(a, JobSel::UrgentIn(t)) =~= picked_jobs(b, JobSel::UrgentIn(t)));
    assert(picked_jobs(a, JobSel::ReservedIn(t)) =~= picked_jobs(b, JobSel::ReservedIn(t)));
    assert forall|id: JobId| #[trigger] x.buried@.contains(id) <==> b.contains_key(id)
        && b[id].state == JobState::Buried && b[id].tube == t by {
        assert(a.contains_key(id) ==> a[id] == a[id]);
    }
}

/// Whether `a` and `b` hold the same connections, up to what no tube notices.
pub open spec fn same_for_tubes(a: Map<ConnId, ConnView>, b: Map<ConnId, ConnView>) -> bool {
    &&& a.dom() == b.dom()
    &&& forall|c: ConnId|
        #![trigger a[c]]
        #![trigger b[c]]
        a.contains_key(c) ==> a[c].use_tube == b[c].use_tube && a[c].watch == b[c].watch
            && a[c].waiting == b[c].waiting
}

/// A tube notices a connection's use, watch list and waiting, nothing else.
pub proof fn lemma_tube_conns_frame(
    x: TubeState,
    t: TubeId,
    a: Map<ConnId, ConnView>,
    b: Map<ConnId, ConnView>,
)
    requires
        tube_conns_ok(x, t, a),
        same_for_tubes(a, b),
    ensures
        tube_conns_ok(x, t, b),
{
    assert(picked_conns(a, ConnSel::Uses(t)) =~= picked_conns(b, ConnSel::Uses(t)));
    assert(picked_conns(a, ConnSel::Watches(t)) =~= picked_conns(b, ConnSel::Watches(t)));
    assert forall|c: ConnId| #[trigger] x.waiting_conns@.items.contains(c) <==> b.contains_key(c)
        && b[c].waiting && b[c].watch.items.contains(t) by {
        assert(a.contains_key(c) ==> a[c] == a[c]);
    }
}

/// Whether `a` and `b` hold the same jobs reserved by connection `c`.
pub open spec fn same_reserved(
    a: Map<JobId, JobView>,
    b: Map<JobId, JobView>,
    c: ConnId,
) -> bool {
    forall|id: JobId|
        #![trigger a.contains_key(id)]
        #![trigger b.contains_key(id)]
        #![trigger a[id]]
        #![trigger b[id]]
        {
            &&& (a.contains_key(id) && a[id].reserver == Some(c)) <==> (b.contains_key(id)
                && b[id].reserver == Some(c))
            &&& a.contains_key(id) && a[id].reserver == Some(c) ==> a[id] == b[id]
        }
}

/// A connection does not notice what happens to jobs that it has not reserved.
pub proof fn lemma_conn_jobs_frame(
    x: ConnState,
    c: ConnId,
    a: Map<JobId, JobView>,
    b: Map<JobId, JobView>,
)
    requires
        conn_jobs_ok(x, c, a),
        same_reserved(a, b, c),
    ensures
        conn_jobs_ok(x, c, b),
{
    assert(reserved_set(a, c) =~= reserved_set(b, c));
    assert forall|id: JobId| #[trigger] x.reserved_fifo@.contains(id) <==> b.contains_key(id)
        && b[id].state == JobState::Reserved && b[id].reserver == Some(c) by {
        assert(a.contains_key(id) ==> a[id] == a[id]);
    }
}

// The least pair of a set.

/// A set has at most one least pair.
pub proof fn lemma_least_unique(s: Set<(u64, u64)>, p: (u64, u64))
    requires
        is_least(s, p),
    ensures
        least(s) == Some(p),
{
    let q = choose|q: (u64, u64)| is_least(s, q);
    assert(is_least(s, q));
    assert(s.contains(q));
    assert(pair_le(p, q));
    assert(pair_le(q, p));
}

/// An empty set has none.
pub proof fn lemma_least_empty(s: Set<(u64, u64)>)
    requires
        s == Set::<(u64, u64)>::empty(),
    ensures
        least(s) is None,
{
}

/// A finite set that is not empty has one.
pub proof fn lemma_least_exists(s: Set<(u64, u64)>)
    requires
        s.finite(),
        exists|p: (u64, u64)| s.contains(p),
    ensures
        least(s) is Some,
        is_least(s, least(s)->0),
    decreases s.len(),
{
    let p = choose|p: (u64, u64)| s.contains(p);
    let rest = s.remove(p);
    if exists|q: (u64, u64)| rest.contains(q) {
        lemma_least_exists(rest);
        let q = least(rest)->0;
        let r = if pair_le(p, q) {
            p
        } else {
            q
        };
        assert forall|o: (u64, u64)| #[trigger] s.contains(o) implies pair_le(r, o) by {
            if o != p {
                assert(rest.contains(o));
            }
        }
        assert(is_least(s, r));
        lemma_least_unique(s, r);
    } else {
        assert forall|o: (u64, u64)| #[trigger] s.contains(o) implies pair_le(p, o) by {
            if o != p {
                assert(rest.contains(o));
            }
        }
        assert(is_least(s, p));
        lemma_least_unique(s, p);
    }
}

/// Removing one of distinct items keeps the others, and adds none.
pub proof fn lemma_remove_first(s: Seq<JobId>, id: JobId)
    requires
        s.no_duplicates(),
        s.contains(id),
    ensures
        remove_first(s, id).no_duplicates(),
        remove_first(s, id).len() == s.len() - 1,
        forall|x: JobId| #[trigger]
            remove_first(s, id).contains(x) <==> s.contains(x) && x != id,
{
    lemma_position(s, id);
    let i = position(s, id);
    let r = remove_first(s, id);
    assert(r == s.remove(i));
    assert forall|x: JobId| #[trigger] r.contains(x) implies s.contains(x) && x != id by {
        let k = r.index_of(x);
        if k < i {
            assert(s[k] == x);
        } else {
            assert(s[k + 1] == x);
        }
    }
    assert forall|x: JobId| s.contains(x) && x != id implies #[trigger] r.contains(x) by {
        let k = s.index_of(x);
        if k < i {
            assert(r[k] == x);
        } else {
            assert(r[k - 1] == x);
        }
    }
}

} // verus!
