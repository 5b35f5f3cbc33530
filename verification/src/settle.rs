//! What holds between events: no job that could be handed out is left lying,
//! and no tube exists that nothing refers to.

use crate::api::ConnId;
use crate::inv::{
    lemma_conns_insert, lemma_conns_none, lemma_conns_remove, lemma_jobs_insert, lemma_jobs_remove,
};
use crate::model::{ConnView, JobState, JobView, TubeId, TubeView};
use crate::proto::{default_name, JobId};
use crate::rules::{picked_conns, picked_jobs, ConnSel, JobSel, Model, DEFAULT_TUBE};
use vstd::prelude::*;

verus! {

/// Whether no job could be handed out at once.
pub open spec fn quiet(m: Model) -> bool {
    forall|id: JobId| !m.awaited(id)
}

/// Whether the same tubes exist in `a` and `b`, and the same connections and
/// jobs refer to each.
pub open spec fn same_refs(a: Model, b: Model) -> bool {
    &&& a.tubes.len() == b.tubes.len()
    &&& forall|t: TubeId| #![trigger a.live(t)] #![trigger b.live(t)] a.live(t) == b.live(t)
    &&& a.conns.dom() == b.conns.dom()
    &&& forall|c: ConnId|
        #![trigger a.conns[c]]
        #![trigger b.conns[c]]
        a.conns.contains_key(c) ==> a.conns[c].use_tube == b.conns[c].use_tube && a.conns[c].watch
            == b.conns[c].watch
    &&& a.jobs.dom() == b.jobs.dom()
    &&& forall|id: JobId|
        #![trigger a.jobs[id]]
        #![trigger b.jobs[id]]
        a.jobs.contains_key(id) ==> a.jobs[id].tube == b.jobs[id].tube
}

/// Whether a connection that was not waiting is as it was.
pub open spec fn idle_untouched(a: Model, b: Model) -> bool {
    forall|c: ConnId|
        #![trigger b.conns[c]]
        a.conns.contains_key(c) && !a.conns[c].waiting ==> b.conns[c] == a.conns[c]
}

/// Whether every connection watches some tube.
pub open spec fn watching(m: Model) -> bool {
    forall|c: ConnId| #[trigger] m.conns.contains_key(c) ==> m.conns[c].watch.items.len() > 0
}

/// Whether something refers to every tube other than "default" and `t`.
pub open spec fn anchored_but(m: Model, t: TubeId) -> bool {
    forall|u: TubeId| #[trigger] m.live(u) && u != 0 && u != t ==> m.referenced(u)
}

/// Whether something refers to every tube other than "default".
pub open spec fn anchored(m: Model) -> bool {
    forall|u: TubeId| #[trigger] m.live(u) && u != 0 ==> m.referenced(u)
}

/// What holds between events.
pub open spec fn settled(m: Model) -> bool {
    &&& watching(m)
    &&& anchored(m)
    &&& quiet(m)
}

/// Whether the jobs are in order: each is stored under its number, which has
/// been handed out, stands in a tube that exists, and is reserved exactly if
/// some connection holds it.
pub open spec fn jobs_in_order(m: Model) -> bool {
    &&& m.jobs.dom().finite()
    &&& forall|id: JobId| #[trigger]
        m.jobs.contains_key(id) ==> {
            let j = m.jobs[id];
            &&& j.id == id
            &&& id < m.next_job_id
            &&& j.ttr >= 1
            &&& m.live(j.tube)
            &&& j.state == JobState::Reserved <==> j.reserver is Some
            &&& j.reserver is Some ==> m.conns.contains_key(j.reserver->0)
        }
}

/// Whether the tubes are in order: "default" is there, the list names each tube
/// once and the free list each free slot once, no two tubes share a name, and
/// each tube lists exactly the jobs buried in it and the connections that wait
/// on it, each once.
pub open spec fn tubes_in_order(m: Model) -> bool {
    &&& m.live(DEFAULT_TUBE)
    &&& m.tube(DEFAULT_TUBE).name == default_name()
    &&& m.order.items.no_duplicates()
    &&& forall|t: TubeId| #[trigger] m.order.items.contains(t) <==> m.live(t)
    &&& m.free.no_duplicates()
    &&& forall|t: TubeId| #[trigger] m.free.contains(t) <==> t < m.tubes.len() && !m.live(t)
    &&& forall|t: TubeId, u: TubeId|
        #![trigger m.live(t), m.live(u)]
        m.live(t) && m.live(u) && m.tube(t).name == m.tube(u).name ==> t == u
    &&& forall|t: TubeId| #[trigger]
        m.live(t) ==> m.tube(t).buried.no_duplicates() && m.tube(t).waiting.items.no_duplicates()
    &&& forall|t: TubeId, id: JobId|
        m.live(t) ==> (#[trigger] m.tube(t).buried.contains(id) <==> m.jobs.contains_key(id)
            && m.jobs[id].state == JobState::Buried && m.jobs[id].tube == t)
    &&& forall|t: TubeId, c: ConnId|
        m.live(t) ==> (#[trigger] m.tube(t).waiting.items.contains(c) <==> m.conns.contains_key(c)
            && m.conns[c].waiting && m.conns[c].watch.items.contains(t))
}

/// Whether the connections are in order: each uses and watches tubes that
/// exist, lists exactly the jobs that it holds, each once, and no job id given
/// out for a put has been used.
pub open spec fn conns_in_order(m: Model) -> bool {
    &&& m.conns.dom().finite()
    &&& forall|c: ConnId| #[trigger]
        m.conns.contains_key(c) ==> {
            let v = m.conns[c];
            &&& m.live(v.use_tube)
            &&& v.watch.items.no_duplicates()
            &&& forall|t: TubeId| #[trigger] v.watch.items.contains(t) ==> m.live(t)
            &&& v.reserved.no_duplicates()
            &&& v.pending_put is Some && v.pending_put->0.id is Some ==> v.pending_put->0.id->0
                < m.next_job_id && !m.jobs.contains_key(v.pending_put->0.id->0)
        }
    &&& forall|c: ConnId, id: JobId|
        m.conns.contains_key(c) ==> (#[trigger] m.conns[c].reserved.contains(id)
            <==> m.jobs.contains_key(id) && m.jobs[id].state == JobState::Reserved
            && m.jobs[id].reserver == Some(c))
}

/// Whether everything is in order: what names something names something that
/// exists, and every job and connection is listed where its state says, once.
pub open spec fn orderly(m: Model) -> bool {
    &&& jobs_in_order(m)
    &&& tubes_in_order(m)
    &&& conns_in_order(m)
}

/// Where the same connections and jobs refer to each tube, a tube is referred
/// to as before.
pub proof fn lemma_same_refs(a: Model, b: Model)
    requires
        same_refs(a, b),
    ensures
        forall|t: TubeId| #[trigger] b.referenced(t) == a.referenced(t),
        watching(a) ==> watching(b),
        anchored(a) ==> anchored(b),
{
    assert forall|t: TubeId| #[trigger] b.referenced(t) == a.referenced(t) by {
        assert(picked_conns(a.conns, ConnSel::Uses(t)) =~= picked_conns(b.conns, ConnSel::Uses(t)));
        assert(picked_conns(a.conns, ConnSel::Watches(t)) =~= picked_conns(
            b.conns,
            ConnSel::Watches(t),
        ));
        assert(picked_jobs(a.jobs, JobSel::InTube(t)) =~= picked_jobs(b.jobs, JobSel::InTube(t)));
    }
    if watching(a) {
        assert forall|c: ConnId| #[trigger] b.conns.contains_key(c) implies b.conns[c].watch.items.len()
            > 0 by {
            assert(a.conns.contains_key(c));
        }
    }
    if anchored(a) {
        assert forall|u: TubeId| #[trigger] b.live(u) && u != 0 implies b.referenced(u) by {
            assert(a.live(u));
        }
    }
}

/// Destroying the one tube that nothing may refer to anchors every tube.
pub proof fn lemma_collecting(m: Model, t: TubeId)
    requires
        anchored_but(m, t),
    ensures
        anchored(m.collecting(t)),
        watching(m) ==> watching(m.collecting(t)),
        quiet(m) ==> quiet(m.collecting(t)),
{
    let n = m.collecting(t);
    assert forall|u: TubeId| #[trigger] n.live(u) && u != 0 implies n.referenced(u) by {
        assert(m.live(u));
        assert(m.referenced(u) == n.referenced(u));
    }
    if quiet(m) {
        assert forall|id: JobId| !n.awaited(id) by {
            assert(!m.awaited(id));
        }
    }
}

/// A job that joins keeps every tube anchored.
pub proof fn lemma_job_added(m: Model, j: JobView)
    requires
        m.jobs.dom().finite(),
        !m.jobs.contains_key(j.id),
        j.state == JobState::Ready || j.state == JobState::Delayed,
    ensures
        anchored(m) ==> anchored(m.with_job(j)),
        watching(m) ==> watching(m.with_job(j)),
{
    let n = m.with_job(j);
    if anchored(m) {
        assert forall|u: TubeId| #[trigger] n.live(u) && u != 0 implies n.referenced(u) by {
            assert(m.live(u));
            lemma_jobs_insert(m.jobs, j.id, j, JobSel::InTube(u));
        }
    }
}

/// A job that leaves tube `t` leaves the other tubes anchored, and makes no job
/// awaited.
pub proof fn lemma_job_removed(m: Model, id: JobId)
    requires
        m.jobs.dom().finite(),
        m.jobs.contains_key(id),
        m.live(m.jobs[id].tube),
        m.jobs[id].state == JobState::Reserved ==> m.jobs[id].reserver is Some
            && m.conns.contains_key(m.jobs[id].reserver->0),
    ensures
        anchored(m) ==> anchored_but(m.without_job(id), m.jobs[id].tube),
        watching(m) ==> watching(m.without_job(id)),
        quiet(m) ==> quiet(m.without_job(id)),
{
    let n = m.without_job(id);
    let t = m.jobs[id].tube;
    assert(m.conns.dom() =~= n.conns.dom());
    if anchored(m) {
        assert forall|u: TubeId| #[trigger] n.live(u) && u != 0 && u != t implies n.referenced(
            u,
        ) by {
            assert(m.live(u));
            lemma_jobs_remove(m.jobs, id, JobSel::InTube(u));
            assert(picked_conns(m.conns, ConnSel::Uses(u)) =~= picked_conns(
                n.conns,
                ConnSel::Uses(u),
            ));
            assert(picked_conns(m.conns, ConnSel::Watches(u)) =~= picked_conns(
                n.conns,
                ConnSel::Watches(u),
            ));
        }
    }
    if watching(m) {
        assert forall|c: ConnId| #[trigger] n.conns.contains_key(c) implies n.conns[c].watch.items.len()
            > 0 by {
            assert(m.conns.contains_key(c));
        }
    }
    if quiet(m) {
        assert forall|o: JobId| !n.awaited(o) by {
            assert(!m.awaited(o));
        }
    }
}

/// What a tube is called and how long it has been in use is no matter.
pub proof fn lemma_tube_touched(m: Model, t: TubeId, v: TubeView)
    requires
        m.live(t),
        v.waiting == m.tube(t).waiting,
        v.pause == m.tube(t).pause || v.pause > 0,
    ensures
        same_refs(m, m.with_tube(t, v)),
        quiet(m) ==> quiet(m.with_tube(t, v)),
        forall|u: TubeId| m.with_tube(t, v).referenced(u) == m.referenced(u),
{
    let n = m.with_tube(t, v);
    if quiet(m) {
        assert forall|o: JobId| !n.awaited(o) by {
            assert(!m.awaited(o));
        }
    }
}

/// What is counted or journaled is no matter.
pub proof fn lemma_same_core(a: Model, b: Model)
    requires
        a.jobs == b.jobs,
        a.tubes == b.tubes,
        a.conns == b.conns,
    ensures
        same_refs(a, b),
        settled(a) ==> settled(b),
        quiet(a) ==> quiet(b),
{
    assert(same_refs(a, b));
    lemma_same_refs(a, b);
    assert forall|id: JobId| b.awaited(id) == a.awaited(id) by {}
}

/// A tube that is made may be one that nothing refers to; nothing waits on it.
pub proof fn lemma_making(m: Model, name: Seq<u8>)
    requires
        settled(m),
        m.tubes.len() <= usize::MAX,
        m.free.len() > 0 ==> m.free.last() < m.tubes.len() && !m.live(m.free.last()),
    ensures
        anchored_but(m.making_tube(name), m.tube_for(name)),
        m.tube_named(name) is Some ==> anchored(m.making_tube(name)),
        watching(m.making_tube(name)),
        quiet(m.making_tube(name)),
{
    let n = m.making_tube(name);
    let t = m.tube_for(name);
    if m.tube_named(name) is None {
        assert forall|u: TubeId| #[trigger] n.live(u) && u != 0 && u != t implies n.referenced(
            u,
        ) by {
            assert(m.live(u));
            assert(m.referenced(u) == n.referenced(u));
        }
        assert forall|id: JobId| !n.awaited(id) by {
            assert(!m.awaited(id));
        }
    }
}

/// A connection that changes what it uses or watches: only tube `lost` can be
/// left with nothing that refers to it.
pub proof fn lemma_reref(m: Model, c: ConnId, v: ConnView, gap: TubeId, lost: TubeId)
    requires
        m.conns.dom().finite(),
        m.conns.contains_key(c),
        anchored_but(m, gap),
        gap == 0 || gap == lost || v.use_tube == gap || v.watch.items.contains(gap),
        forall|u: TubeId|
            u != lost ==> (m.conns[c].use_tube == u ==> v.use_tube == u) && (
            #[trigger] m.conns[c].watch.items.contains(u) ==> v.watch.items.contains(u)),
        m.conns[c].use_tube == lost || v.use_tube == m.conns[c].use_tube,
    ensures
        anchored_but(m.with_conn(c, v), lost),
        lost == 0 ==> anchored(m.with_conn(c, v)),
        quiet(m) ==> quiet(m.with_conn(c, v)),
        watching(m) && v.watch.items.len() > 0 ==> watching(m.with_conn(c, v)),
{
    let n = m.with_conn(c, v);
    assert forall|u: TubeId| #[trigger] n.live(u) && u != 0 && u != lost implies n.referenced(
        u,
    ) by {
        assert(m.live(u));
        lemma_conns_insert(m.conns, c, v, ConnSel::Uses(u));
        lemma_conns_insert(m.conns, c, v, ConnSel::Watches(u));
        assert(m.conns[c].watch.items.contains(u) ==> v.watch.items.contains(u));
        if u == gap {
            lemma_conns_none(n.conns, ConnSel::Uses(u));
            lemma_conns_none(n.conns, ConnSel::Watches(u));
            assert(n.conns[c] == v);
        } else {
            assert(m.referenced(u));
        }
    }
    if quiet(m) {
        assert forall|id: JobId| !n.awaited(id) by {
            assert(!m.awaited(id));
        }
    }
}

/// A connection that watched nothing goes: only the tube that it used can be
/// left with nothing that refers to it.
pub proof fn lemma_conn_gone(m: Model, c: ConnId)
    requires
        m.conns.dom().finite(),
        m.conns.contains_key(c),
        m.conns[c].watch.items.len() == 0,
        anchored(m),
        quiet(m),
    ensures
        anchored_but(Model { conns: m.conns.remove(c), ..m }, m.conns[c].use_tube),
        quiet(Model { conns: m.conns.remove(c), ..m }),
{
    let n = Model { conns: m.conns.remove(c), ..m };
    let t = m.conns[c].use_tube;
    assert forall|u: TubeId| #[trigger] n.live(u) && u != 0 && u != t implies n.referenced(u) by {
        assert(m.live(u));
        lemma_conns_remove(m.conns, c, ConnSel::Uses(u));
        lemma_conns_remove(m.conns, c, ConnSel::Watches(u));
    }
    assert forall|id: JobId| !n.awaited(id) by {
        assert(!m.awaited(id));
    }
}

} // verus!
