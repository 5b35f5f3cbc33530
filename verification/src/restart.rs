//! What a restart keeps: an engine that starts from a log holds every job that
//! the log knows.

use crate::api::{ConnId, EngineConfig, EntryView, Nanos, RecordState, RecoveredView};
use crate::callers::never_asked;
use crate::effects::tells;
use crate::handout::one_more;
use crate::journal::{keeps, knows, Stored};
use crate::model::{JobState, JobView, TubeId, TubeView};
use crate::proto::{default_name, JobId};
use crate::rules::{bump32, record_of, Model};
use crate::settle::orderly;
use crate::steps::{distinct_ids, holds_some, next_after, recovered_job};
use vstd::prelude::*;

verus! {

/// Whether `jobs` lists what a log that holds `p` holds, each job once.
pub open spec fn lists(jobs: Seq<RecoveredView>, p: Stored) -> bool {
    &&& distinct_ids(jobs)
    &&& forall|i: int|
        0 <= i < jobs.len() ==> p.contains_key((#[trigger] jobs[i]).record.id)
            && p[jobs[i].record.id] == jobs[i]
    &&& forall|id: JobId| #[trigger]
        p.contains_key(id) ==> exists|i: int|
            0 <= i < jobs.len() && (#[trigger] jobs[i]).record.id == id
}

/// Whether `m` holds exactly the jobs that `jobs` stand for, each in a tube of
/// the right name.
spec fn brought_back(m: Model, now: Nanos, jobs: Seq<RecoveredView>) -> bool {
    &&& forall|i: int|
        0 <= i < jobs.len() ==> {
            let id = (#[trigger] jobs[i]).record.id;
            &&& m.jobs.contains_key(id)
            &&& m.jobs[id] == recovered_job(now, jobs[i], m.jobs[id].tube)
            &&& m.live(m.jobs[id].tube)
            &&& m.tube(m.jobs[id].tube).name == jobs[i].tube
        }
    &&& forall|id: JobId| #[trigger]
        m.jobs.contains_key(id) ==> exists|i: int|
            0 <= i < jobs.len() && (#[trigger] jobs[i]).record.id == id
}

/// A tube is found or made, and the others stay.
proof fn lemma_made(m: Model, name: Seq<u8>)
    requires
        m.free.len() == 0,
        m.tubes.len() < usize::MAX,
    ensures
        ({
            let n = m.making_tube(name);
            let t = m.tube_for(name);
            &&& n.free.len() == 0
            &&& n.tubes.len() <= m.tubes.len() + 1
            &&& n.jobs == m.jobs
            &&& n.journal == m.journal
            &&& n.next_job_id == m.next_job_id
            &&& n.live(t)
            &&& n.tube(t).name == name
            &&& forall|u: TubeId| #[trigger] m.live(u) ==> n.live(u) && n.tube(u) == m.tube(u)
        }),
{
    let n = m.making_tube(name);
    let t = m.tube_for(name);
    if m.tube_named(name) is None {
        assert(n.tubes == m.tubes.push(Some(TubeView::fresh(name))));
        assert(t == m.tubes.len());
    }
}

/// The tubes that the log lists.
proof fn lemma_tubes(m: Model, names: Seq<Seq<u8>>, jobs: Seq<RecoveredView>)
    requires
        m.free.len() == 0,
        m.tubes.len() + names.len() < usize::MAX,
    ensures
        ({
            let n = m.recovering_tubes(names, jobs);
            &&& n.free.len() == 0
            &&& n.tubes.len() <= m.tubes.len() + names.len()
            &&& n.jobs == m.jobs
            &&& n.journal == m.journal
            &&& n.next_job_id == m.next_job_id
        }),
    decreases names.len(),
{
    if names.len() > 0 {
        lemma_tubes(m, names.drop_last(), jobs);
        lemma_made(m.recovering_tubes(names.drop_last(), jobs), names.last());
    }
}

/// The jobs that the log lists.
proof fn lemma_jobs(m: Model, now: Nanos, jobs: Seq<RecoveredView>)
    requires
        m.free.len() == 0,
        m.tubes.len() + jobs.len() < usize::MAX,
        m.jobs == Map::<JobId, JobView>::empty(),
        distinct_ids(jobs),
    ensures
        ({
            let n = m.recovering_jobs(now, jobs);
            &&& n.free.len() == 0
            &&& n.tubes.len() <= m.tubes.len() + jobs.len()
            &&& n.journal == m.journal
            &&& n.next_job_id == m.next_job_id
            &&& brought_back(n, now, jobs)
        }),
    decreases jobs.len(),
{
    if jobs.len() > 0 {
        let before = jobs.drop_last();
        let r = jobs.last();
        assert(distinct_ids(before)) by {
            assert forall|i: int, j: int|
                #![trigger before[i], before[j]]
                0 <= i < j < before.len() implies before[i].record.id != before[j].record.id by {
                assert(jobs[i].record.id != jobs[j].record.id);
            }
        }
        lemma_jobs(m, now, before);
        let k = m.recovering_jobs(now, before);
        if k.jobs.contains_key(r.record.id) {
            let i = choose|i: int|
                0 <= i < before.len() && (#[trigger] before[i]).record.id == r.record.id;
            assert(jobs[i] == before[i]);
            assert(jobs[jobs.len() - 1] == r);
            assert(false);
        }
        lemma_made(k, r.tube);
        let h = k.making_tube(r.tube);
        let t = k.tube_for(r.tube);
        let j = recovered_job(now, r, t);
        let n = h.with_job(j);
        assert(n == m.recovering_jobs(now, jobs));
        assert forall|u: TubeId| #[trigger] n.live(u) == h.live(u) by {}
        assert forall|u: TubeId| h.live(u) implies (#[trigger] n.tube(u)).name == h.tube(
            u,
        ).name by {}
        assert forall|i: int| 0 <= i < jobs.len() implies {
            let id = (#[trigger] jobs[i]).record.id;
            &&& n.jobs.contains_key(id)
            &&& n.jobs[id] == recovered_job(now, jobs[i], n.jobs[id].tube)
            &&& n.live(n.jobs[id].tube)
            &&& n.tube(n.jobs[id].tube).name == jobs[i].tube
        } by {
            if i < before.len() {
                assert(before[i] == jobs[i]);
                let id = before[i].record.id;
                assert(k.jobs.contains_key(id));
                let u = k.jobs[id].tube;
                assert(k.live(u));
                assert(h.live(u));
            } else {
                assert(n.live(t));
            }
        }
        assert forall|id: JobId| #[trigger] n.jobs.contains_key(id) implies exists|i: int|
            0 <= i < jobs.len() && (#[trigger] jobs[i]).record.id == id by {
            if id == r.record.id {
                assert(jobs[jobs.len() - 1].record.id == id);
            } else {
                assert(k.jobs.contains_key(id));
                let i = choose|i: int|
                    0 <= i < before.len() && (#[trigger] before[i]).record.id == id;
                assert(jobs[i] == before[i]);
            }
        }
    }
}

/// The record of a job tells its number, priority, delay, time to run and age,
/// how often it was reserved and the like, and its state: a reserved job counts
/// as ready, and of a delayed one it tells when that ends.
pub proof fn a_record_tells_the_job(j: JobView)
    ensures
        tells(
            record_of(j),
            j,
            match j.state {
                JobState::Ready => RecordState::Ready,
                JobState::Reserved => RecordState::Ready,
                JobState::Delayed => RecordState::Delayed,
                JobState::Buried => RecordState::Buried,
            },
        ),
{
}

/// The job that comes of a record has its number, priority, delay and age, its
/// time to run, at least a second, and its counts, with one more burying for a
/// buried one. It is buried if the record says so, delayed if the record says so
/// and that is not over, and else ready.
pub proof fn a_record_becomes_that_job(now: Nanos, r: RecoveredView, t: TubeId)
    ensures
        ({
            let j = recovered_job(now, r, t);
            let held = r.record.state == RecordState::Delayed && now < r.record.deadline_at;
            &&& j.id == r.record.id
            &&& j.tube == t
            &&& j.pri == r.record.pri
            &&& j.delay == r.record.delay
            &&& j.ttr >= 1
            &&& j.ttr == r.record.ttr || (r.record.ttr == 0 && j.ttr == 1)
            &&& j.body == r.body
            &&& j.created_at == r.record.created_at
            &&& j.reserver is None
            &&& j.reserve_ct == r.record.reserve_ct
            &&& j.timeout_ct == r.record.timeout_ct
            &&& j.release_ct == r.record.release_ct
            &&& j.kick_ct == r.record.kick_ct
            &&& if r.record.state == RecordState::Buried {
                one_more(r.record.bury_ct, j.bury_ct)
            } else {
                j.bury_ct == r.record.bury_ct
            }
            &&& j.state == JobState::Buried <==> r.record.state == RecordState::Buried
            &&& j.state == JobState::Delayed <==> held
            &&& j.state != JobState::Reserved
            &&& held ==> j.deadline_at == r.record.deadline_at
        }),
{
}

/// After a restart the next job gets a number past those of all jobs, not below
/// the one that was asked for, and not 0; and the least such.
pub proof fn numbers_go_on_after_the_jobs(jobs: Seq<RecoveredView>, next: JobId)
    ensures
        next_after(jobs, next) >= next,
        next_after(jobs, next) >= 1,
        forall|i: int|
            0 <= i < jobs.len() ==> next_after(jobs, next) > (#[trigger] jobs[i]).record.id,
        next_after(jobs, next) == next || next_after(jobs, next) == 1 || exists|i: int|
            0 <= i < jobs.len() && next_after(jobs, next) == (#[trigger] jobs[i]).record.id + 1,
    decreases jobs.len(),
{
    if jobs.len() > 0 {
        let t = jobs.drop_last();
        numbers_go_on_after_the_jobs(t, next);
        assert forall|i: int| 0 <= i < jobs.len() implies next_after(jobs, next) > (
        #[trigger] jobs[i]).record.id by {
            if i < t.len() {
                assert(t[i] == jobs[i]);
            }
        }
        if exists|i: int| 0 <= i < t.len() && next_after(t, next) == (#[trigger] t[i]).record.id + 1 {
            let i = choose|i: int|
                0 <= i < t.len() && next_after(t, next) == (#[trigger] t[i]).record.id + 1;
            assert(jobs[i] == t[i]);
        }
        assert(jobs[jobs.len() - 1] == jobs.last());
    }
}

/// What a restart at `now` makes of job `a`: its number, tube, body, age and
/// time to run stay. A buried job stays buried, with one more burying counted.
/// A delayed one stays delayed until its time; if that has passed, it is ready.
pub open spec fn resumed(now: Nanos, a: JobView, b: JobView) -> bool {
    &&& b.id == a.id
    &&& b.body == a.body
    &&& b.ttr == a.ttr
    &&& b.created_at == a.created_at
    &&& b.reserver is None
    &&& a.state == JobState::Buried ==> b.state == JobState::Buried && b.bury_ct == bump32(
        a.bury_ct,
    )
    &&& a.state == JobState::Delayed ==> b.bury_ct == a.bury_ct && if a.deadline_at > now {
        b.state == JobState::Delayed && b.deadline_at == a.deadline_at
    } else {
        b.state == JobState::Ready
    }
    &&& a.state == JobState::Buried || a.state == JobState::Delayed ==> b.pri == a.pri && b.delay
        == a.delay && b.reserve_ct == a.reserve_ct && b.timeout_ct == a.timeout_ct && b.release_ct
        == a.release_ct && b.kick_ct == a.kick_ct
}

/// An engine that starts from a log that knows the jobs of `m` holds the same
/// jobs, each in a tube of the same name. It has journaled nothing.
pub proof fn restart_brings_the_jobs_back(
    m: Model,
    p: Stored,
    now: Nanos,
    cfg: EngineConfig,
    jobs: Seq<RecoveredView>,
    next: JobId,
    names: Seq<Seq<u8>>,
)
    requires
        orderly(m),
        knows(p, m),
        lists(jobs, p),
        names.len() + jobs.len() + 1 < usize::MAX,
    ensures
        ({
            let r = Model::recovered(now, cfg, jobs, next, names);
            &&& r.jobs.dom() == m.jobs.dom()
            &&& forall|id: JobId| #[trigger]
                m.jobs.contains_key(id) ==> resumed(now, m.jobs[id], r.jobs[id]) && r.tube(
                    r.jobs[id].tube,
                ).name == m.tube(m.jobs[id].tube).name
            &&& r.journal == Seq::<EntryView>::empty()
        }),
{
    let i = Model { next_job_id: next_after(jobs, next) as u64, ..Model::initial(now, cfg) };
    lemma_tubes(i, names, jobs);
    let k = i.recovering_tubes(names, jobs);
    lemma_jobs(k, now, jobs);
    let r = Model::recovered(now, cfg, jobs, next, names);
    assert(r == k.recovering_jobs(now, jobs));
    assert forall|id: JobId| m.jobs.contains_key(id) implies {
        &&& #[trigger] r.jobs.contains_key(id)
        &&& resumed(now, m.jobs[id], r.jobs[id])
        &&& r.tube(r.jobs[id].tube).name == m.tube(m.jobs[id].tube).name
    } by {
        assert(p.contains_key(id));
        let x = choose|x: int| 0 <= x < jobs.len() && (#[trigger] jobs[x]).record.id == id;
        assert(p[id] == jobs[x]);
        assert(keeps(p[id], m.jobs[id], m.tube(m.jobs[id].tube).name));
    }
    assert(r.jobs.dom() =~= m.jobs.dom()) by {
        assert forall|id: JobId| #[trigger] r.jobs.dom().contains(id) implies m.jobs.dom().contains(
            id,
        ) by {
            assert(r.jobs.contains_key(id));
            let x = choose|x: int| 0 <= x < jobs.len() && (#[trigger] jobs[x]).record.id == id;
            assert(p.contains_key(jobs[x].record.id));
        }
    }
}

/// Whether what was counted, and how the queue is set up, is the same in `a` and
/// in `b`, and who is connected.
spec fn counts_alike(a: Model, b: Model) -> bool {
    &&& b.cfg == a.cfg
    &&& b.start == a.start
    &&& b.draining == a.draining
    &&& b.conns == a.conns
    &&& b.next_job_id == a.next_job_id
    &&& b.total_jobs_ct == a.total_jobs_ct
    &&& b.timeout_ct == a.timeout_ct
    &&& b.tot_conns == a.tot_conns
    &&& b.ops == a.ops
}

/// Bringing tubes back counts nothing.
proof fn lemma_tubes_uncounted(m: Model, names: Seq<Seq<u8>>, jobs: Seq<RecoveredView>)
    ensures
        counts_alike(m, m.recovering_tubes(names, jobs)),
    decreases names.len(),
{
    if names.len() > 0 {
        lemma_tubes_uncounted(m, names.drop_last(), jobs);
    }
}

/// Bringing jobs back counts nothing.
proof fn lemma_jobs_uncounted(m: Model, now: Nanos, jobs: Seq<RecoveredView>)
    ensures
        counts_alike(m, m.recovering_jobs(now, jobs)),
    decreases jobs.len(),
{
    if jobs.len() > 0 {
        lemma_jobs_uncounted(m, now, jobs.drop_last());
    }
}

/// After a restart nobody is connected, and whatever was counted is counted
/// afresh: the jobs that are brought back count as none that was put. Numbers go
/// on after the jobs.
pub proof fn a_restart_counts_afresh(
    now: Nanos,
    cfg: EngineConfig,
    jobs: Seq<RecoveredView>,
    next: JobId,
    names: Seq<Seq<u8>>,
)
    requires
        next_after(jobs, next) <= u64::MAX,
    ensures
        ({
            let r = Model::recovered(now, cfg, jobs, next, names);
            &&& r.start == now
            &&& r.cfg == cfg
            &&& !r.draining
            &&& r.conns.dom() == Set::<ConnId>::empty()
            &&& r.next_job_id == next_after(jobs, next)
            &&& r.total_jobs_ct == 0
            &&& r.timeout_ct == 0
            &&& r.tot_conns == 0
            &&& never_asked(r.ops)
        }),
{
    let i = Model { next_job_id: next_after(jobs, next) as u64, ..Model::initial(now, cfg) };
    lemma_tubes_uncounted(i, names, jobs);
    lemma_jobs_uncounted(i.recovering_tubes(names, jobs), now, jobs);
    assert(i.conns.dom() =~= Set::empty());
}

/// Whether the list of tubes names tubes that exist.
spec fn order_live(m: Model) -> bool {
    forall|i: int| 0 <= i < m.order.items.len() ==> m.live(#[trigger] m.order.items[i])
}

/// Making a tube adds its name at the end of the list, unless it is there.
proof fn lemma_order_made(m: Model, name: Seq<u8>)
    requires
        m.free.len() == 0,
        m.tubes.len() < usize::MAX,
        order_live(m),
    ensures
        ({
            let n = m.making_tube(name);
            let (a, b) = (m.names_of(m.order.items), n.names_of(n.order.items));
            &&& order_live(n)
            &&& a.is_prefix_of(b)
            &&& m.tube_named(name) is None ==> b == a.push(name)
            &&& m.tube_named(name) is Some ==> n == m
            &&& forall|u: TubeId| #[trigger]
                n.live(u) ==> (m.live(u) && n.tube(u) == m.tube(u)) || n.tube(u).name == name
        }),
{
    let n = m.making_tube(name);
    let (a, b) = (m.names_of(m.order.items), n.names_of(n.order.items));
    if m.tube_named(name) is None {
        let t = m.tubes.len() as usize;
        assert(n.tubes == m.tubes.push(Some(TubeView::fresh(name))));
        assert(n.order.items == m.order.items.push(t));
        assert forall|i: int| 0 <= i < n.order.items.len() implies n.live(
            #[trigger] n.order.items[i],
        ) by {
            if i < m.order.items.len() {
                assert(m.live(m.order.items[i]));
            }
        }
        assert(b =~= a.push(name)) by {
            assert forall|i: int| 0 <= i < b.len() implies b[i] == a.push(name)[i] by {
                if i < m.order.items.len() {
                    assert(m.live(m.order.items[i]));
                }
            }
        }
        assert(b.take(a.len() as int) =~= a);
    } else {
        assert(b.take(a.len() as int) =~= a);
    }
}

/// The tubes that hold something come back in the order in which they are named.
proof fn lemma_order_of_tubes(m: Model, names: Seq<Seq<u8>>, jobs: Seq<RecoveredView>)
    requires
        m.free.len() == 0,
        m.tubes.len() + names.len() < usize::MAX,
        order_live(m),
        names.no_duplicates(),
        forall|t: TubeId| #[trigger] m.live(t) ==> !names.contains(m.tube(t).name),
    ensures
        ({
            let n = m.recovering_tubes(names, jobs);
            &&& order_live(n)
            &&& n.names_of(n.order.items) == m.names_of(m.order.items) + names.filter(
                |x: Seq<u8>| holds_some(jobs, x),
            )
            &&& forall|t: TubeId| #[trigger]
                n.live(t) ==> m.live(t) && n.tube(t) == m.tube(t) || names.contains(n.tube(t).name)
        }),
    decreases names.len(),
{
    let f = |x: Seq<u8>| holds_some(jobs, x);
    reveal(Seq::filter);
    let a = m.names_of(m.order.items);
    if names.len() == 0 {
        assert(a + names.filter(f) =~= a);
    } else {
        let (front, last) = (names.drop_last(), names.last());
        assert(names[names.len() - 1] == last);
        assert forall|x: Seq<u8>| front.contains(x) implies names.contains(x) && x != last by {
            let i = front.index_of(x);
            assert(names[i] == x);
        }
        lemma_tubes(m, front, jobs);
        lemma_order_of_tubes(m, front, jobs);
        let k = m.recovering_tubes(front, jobs);
        let n = m.recovering_tubes(names, jobs);
        assert forall|t: TubeId| !(k.live(t) && k.tube(t).name == last) by {
            if k.live(t) && k.tube(t).name == last {
                assert(names.contains(last));
            }
        }
        assert(k.tube_named(last) is None);
        lemma_order_made(k, last);
        if holds_some(jobs, last) {
            assert(f(last));
            assert(n.names_of(n.order.items) =~= a + names.filter(f));
        } else {
            assert(!f(last));
        }
        assert forall|t: TubeId| #[trigger] n.live(t) implies m.live(t) && n.tube(t) == m.tube(t)
            || names.contains(n.tube(t).name) by {
            if k.live(t) && n.tube(t) == k.tube(t) {
            }
        }
    }
}

/// Tubes that jobs call for are added at the end.
proof fn lemma_order_goes_on(m: Model, now: Nanos, jobs: Seq<RecoveredView>)
    requires
        m.free.len() == 0,
        m.tubes.len() + jobs.len() < usize::MAX,
        order_live(m),
    ensures
        ({
            let n = m.recovering_jobs(now, jobs);
            &&& n.free.len() == 0
            &&& n.tubes.len() <= m.tubes.len() + jobs.len()
            &&& order_live(n)
            &&& m.names_of(m.order.items).is_prefix_of(n.names_of(n.order.items))
        }),
    decreases jobs.len(),
{
    let a = m.names_of(m.order.items);
    if jobs.len() == 0 {
        assert(a.take(a.len() as int) =~= a);
    } else {
        let r = jobs.last();
        lemma_order_goes_on(m, now, jobs.drop_last());
        let k = m.recovering_jobs(now, jobs.drop_last());
        if !k.jobs.contains_key(r.record.id) {
            lemma_made(k, r.tube);
            lemma_order_made(k, r.tube);
            let h = k.making_tube(r.tube);
            let n = m.recovering_jobs(now, jobs);
            assert forall|u: TubeId| #[trigger] n.live(u) == h.live(u) by {}
            assert forall|u: TubeId| h.live(u) implies (#[trigger] n.tube(u)).name == h.tube(
                u,
            ).name by {}
            let (b, c, d) = (
                k.names_of(k.order.items),
                h.names_of(h.order.items),
                n.names_of(n.order.items),
            );
            assert(d =~= c) by {
                assert forall|i: int| 0 <= i < d.len() implies d[i] == c[i] by {
                    assert(h.live(h.order.items[i]));
                }
            }
            assert(d.take(a.len() as int) =~= a) by {
                assert(b.take(a.len() as int) =~= a);
                assert(c.take(b.len() as int) =~= b);
                assert(d.take(a.len() as int) =~= b.take(a.len() as int));
            }
            assert forall|i: int| 0 <= i < n.order.items.len() implies n.live(
                #[trigger] n.order.items[i],
            ) by {
                assert(h.live(h.order.items[i]));
            }
        }
    }
}

/// After a restart the tubes are listed in their old order: "default" first, the
/// named ones that hold a job, in the order in which they are named, and any that
/// only the jobs call for after those.
pub proof fn tubes_come_back_in_their_order(
    now: Nanos,
    cfg: EngineConfig,
    jobs: Seq<RecoveredView>,
    next: JobId,
    names: Seq<Seq<u8>>,
)
    requires
        names.no_duplicates(),
        !names.contains(default_name()),
        names.len() + jobs.len() + 1 < usize::MAX,
    ensures
        ({
            let r = Model::recovered(now, cfg, jobs, next, names);
            (seq![default_name()] + names.filter(
                |x: Seq<u8>| holds_some(jobs, x),
            )).is_prefix_of(r.names_of(r.order.items))
        }),
{
    let i = Model { next_job_id: next_after(jobs, next) as u64, ..Model::initial(now, cfg) };
    assert forall|t: TubeId| #[trigger] i.live(t) implies !names.contains(i.tube(t).name) by {}
    assert forall|x: int| 0 <= x < i.order.items.len() implies i.live(#[trigger] i.order.items[x]) by {}
    assert(i.names_of(i.order.items) =~= seq![default_name()]);
    lemma_tubes(i, names, jobs);
    lemma_order_of_tubes(i, names, jobs);
    let k = i.recovering_tubes(names, jobs);
    lemma_order_goes_on(k, now, jobs);
}

} // verus!
