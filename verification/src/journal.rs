//! What the journal is for: whoever replays it knows every job.
//!
//! A log that is given every journal entry holds, at any time, exactly the jobs
//! that the queue holds. Of a buried or a delayed job it holds the present
//! record. Of a ready or a reserved one the record may be older: that a delay
//! has passed and that a job was reserved are not journaled.

use crate::api::{ConnId, EngineConfig, EngineInput, EntryView, Nanos, RecoveredView, SysSnapshot};
use crate::inv::{lemma_jobs_none, lemma_remove_first};
use crate::model::{ConnView, JobState, JobView, TubeId, TubeView};
use crate::ms::{swap_remove, MsView};
use crate::proto::{CommandView, JobId, ResponseView};
use crate::rules::{
    bump, bump32, count_jobs, delayed_set, is_least, later, least, record_of, remove_first,
    reserved_set, JobSel, Model, OpCounts, Out,
};
use crate::settle::orderly;
use vstd::prelude::*;

verus! {

/// What a log holds of each job.
pub type Stored = Map<JobId, RecoveredView>;

/// What a log holds once it is given `e`.
pub open spec fn noted(p: Stored, e: EntryView) -> Stored {
    match e {
        EntryView::Put { record, tube, body } => p.insert(
            record.id,
            RecoveredView { record, tube, body },
        ),
        EntryView::Update(record) => if p.contains_key(record.id) {
            p.insert(record.id, RecoveredView { record, ..p[record.id] })
        } else {
            p
        },
        EntryView::Delete(id) => p.remove(id),
    }
}

/// What a log holds once it is given each of `es` in turn.
pub open spec fn replayed(p: Stored, es: Seq<EntryView>) -> Stored
    decreases es.len(),
{
    if es.len() == 0 {
        p
    } else {
        noted(replayed(p, es.drop_last()), es.last())
    }
}

/// Whether `r` is what the log should hold of job `j`, whose tube is called
/// `name`.
pub open spec fn keeps(r: RecoveredView, j: JobView, name: Seq<u8>) -> bool {
    &&& r.record.id == j.id
    &&& r.record.ttr == j.ttr
    &&& r.record.created_at == j.created_at
    &&& r.tube == name
    &&& r.body == j.body
    &&& j.state == JobState::Buried || j.state == JobState::Delayed ==> r.record == record_of(j)
}

/// Whether a log that holds `p` knows the jobs of `m`.
pub open spec fn knows(p: Stored, m: Model) -> bool {
    &&& p.dom() == m.jobs.dom()
    &&& forall|id: JobId| #[trigger]
        m.jobs.contains_key(id) ==> keeps(p[id], m.jobs[id], m.tube(m.jobs[id].tube).name)
}

/// What the log needs of the state: jobs are stored under their numbers and
/// stand in tubes that exist, the buried ones are listed once in their tube,
/// and no slot that is free holds a tube.
pub open spec fn shelved(m: Model) -> bool {
    &&& m.jobs.dom().finite()
    &&& forall|id: JobId| #[trigger]
        m.jobs.contains_key(id) ==> m.jobs[id].id == id && m.live(m.jobs[id].tube)
    &&& m.free.no_duplicates()
    &&& forall|t: TubeId| #[trigger] m.free.contains(t) ==> t < m.tubes.len() && !m.live(t)
    &&& forall|t: TubeId| #[trigger] m.live(t) ==> m.tube(t).buried.no_duplicates()
    &&& forall|t: TubeId, id: JobId|
        m.live(t) && #[trigger] m.tube(t).buried.contains(id) ==> m.jobs.contains_key(id)
            && m.jobs[id].state == JobState::Buried && m.jobs[id].tube == t
}

/// Where a log stood: what it held, and the entries that it had yet to be
/// given.
pub struct Since {
    pub on: bool,
    pub journal: Seq<EntryView>,
    pub stored: Stored,
}

/// Whether a log that stood at `s` knows the jobs of `m` once it is given the
/// entries that came since, and none came if there is no journal.
pub open spec fn told(m: Model, s: Since) -> bool {
    &&& m.cfg.journal == s.on
    &&& shelved(m)
    &&& s.journal.len() <= m.journal.len()
    &&& m.journal.take(s.journal.len() as int) == s.journal
    &&& !s.on ==> m.journal == s.journal
    &&& s.on ==> knows(replayed(s.stored, m.journal.skip(s.journal.len() as int)), m)
}

/// Whether job `id` of `n` is job `id` of `m`: it stands in a tube of the same
/// name, and has the same body, time to run and age.
pub open spec fn same_job(m: Model, n: Model, id: JobId) -> bool {
    let a = m.jobs[id];
    let b = n.jobs[id];
    &&& b.body == a.body
    &&& b.ttr == a.ttr
    &&& b.created_at == a.created_at
    &&& b.tube == a.tube
    &&& n.tube(b.tube).name == m.tube(a.tube).name
}

/// Whether the same jobs exist in `m` and `n`.
pub open spec fn same_jobs(m: Model, n: Model) -> bool {
    &&& n.jobs.dom() == m.jobs.dom()
    &&& forall|id: JobId| #[trigger] m.jobs.contains_key(id) ==> same_job(m, n, id)
}

/// Whether the same jobs and the same tubes exist in `m` and `n`.
pub open spec fn same_ones(m: Model, n: Model) -> bool {
    &&& same_jobs(m, n)
    &&& forall|t: TubeId| #[trigger] n.live(t) == m.live(t)
}

/// One more entry.
proof fn lemma_noted(m: Model, s: Since, e: EntryView)
    requires
        told(m, s),
        s.on,
    ensures
        ({
            let j = m.journal.push(e);
            let k = s.journal.len() as int;
            &&& k <= j.len()
            &&& j.take(k) == s.journal
            &&& replayed(s.stored, j.skip(k)) == noted(replayed(s.stored, m.journal.skip(k)), e)
        }),
{
    let j = m.journal.push(e);
    let k = s.journal.len() as int;
    assert(j.take(k) =~= m.journal.take(k));
    assert(j.skip(k).drop_last() =~= m.journal.skip(k));
    assert(j.skip(k).last() == e);
}

/// Nothing changes for the log where the jobs, and the names and buried jobs
/// of the tubes, stay.
proof fn lemma_same(m: Model, n: Model, s: Since)
    requires
        told(m, s),
        n.jobs == m.jobs,
        n.free == m.free,
        n.journal == m.journal,
        n.cfg == m.cfg,
        n.tubes.len() == m.tubes.len(),
        forall|t: TubeId| #[trigger] n.live(t) == m.live(t),
        forall|t: TubeId|
            m.live(t) ==> (#[trigger] n.tube(t)).name == m.tube(t).name && n.tube(t).buried
                == m.tube(t).buried,
    ensures
        told(n, s),
        same_ones(m, n),
{
    assert forall|t: TubeId, id: JobId|
        n.live(t) && #[trigger] n.tube(t).buried.contains(id) implies n.jobs.contains_key(id)
        && n.jobs[id].state == JobState::Buried && n.jobs[id].tube == t by {
        assert(m.live(t));
        assert(m.tube(t).buried.contains(id));
    }
    assert forall|t: TubeId| #[trigger] n.live(t) implies n.tube(t).buried.no_duplicates() by {
        assert(m.live(t));
    }
    assert forall|t: TubeId| #[trigger] n.free.contains(t) implies t < n.tubes.len() && !n.live(
        t,
    ) by {
        assert(m.free.contains(t));
    }
}

/// With job `id` out of the list that it stands in.
proof fn lemma_lifted(m: Model, id: JobId)
    requires
        shelved(m),
        m.jobs.contains_key(id),
    ensures
        shelved(m.without_job(id)),
        ({
            let n = m.without_job(id);
            &&& n.jobs == m.jobs.remove(id)
            &&& n.free == m.free
            &&& n.journal == m.journal
            &&& n.cfg == m.cfg
            &&& n.tubes.len() == m.tubes.len()
            &&& forall|t: TubeId| #[trigger] n.live(t) == m.live(t)
            &&& forall|t: TubeId| m.live(t) ==> (#[trigger] n.tube(t)).name == m.tube(t).name
            &&& forall|t: TubeId| m.live(t) ==> !(#[trigger] n.tube(t)).buried.contains(id)
        }),
{
    let n = m.without_job(id);
    let j = m.jobs[id];
    assert(m.live(j.tube));
    assert forall|t: TubeId| #[trigger] n.live(t) == m.live(t) by {}
    if j.state == JobState::Buried && m.tube(j.tube).buried.contains(id) {
        lemma_remove_first(m.tube(j.tube).buried, id);
    }
    assert forall|t: TubeId| m.live(t) implies !(#[trigger] n.tube(t)).buried.contains(id) && n.tube(
        t,
    ).name == m.tube(t).name && n.tube(t).buried.no_duplicates() by {
        if j.state == JobState::Buried && t == j.tube {
            assert(n.tube(t).buried == remove_first(m.tube(t).buried, id));
        } else {
            assert(n.tube(t) == m.tube(t));
            if m.tube(t).buried.contains(id) {
                assert(false);
            }
        }
    }
    assert forall|t: TubeId, o: JobId|
        n.live(t) && #[trigger] n.tube(t).buried.contains(o) implies n.jobs.contains_key(o)
        && n.jobs[o].state == JobState::Buried && n.jobs[o].tube == t by {
        assert(m.live(t));
        assert(o != id);
        assert(m.tube(t).buried.contains(o));
    }
    assert forall|t: TubeId| #[trigger] n.free.contains(t) implies t < n.tubes.len() && !n.live(
        t,
    ) by {
        assert(m.free.contains(t));
    }
    assert forall|o: JobId| #[trigger] n.jobs.contains_key(o) implies n.jobs[o].id == o && n.live(
        n.jobs[o].tube,
    ) by {
        assert(m.jobs.contains_key(o));
    }
}

/// With job `j` in the list that its state calls for.
proof fn lemma_shelved(m: Model, j: JobView)
    requires
        shelved(m),
        !m.jobs.contains_key(j.id),
        m.live(j.tube),
    ensures
        shelved(m.with_job(j)),
        ({
            let n = m.with_job(j);
            &&& n.jobs == m.jobs.insert(j.id, j)
            &&& n.free == m.free
            &&& n.journal == m.journal
            &&& n.cfg == m.cfg
            &&& n.tubes.len() == m.tubes.len()
            &&& forall|t: TubeId| #[trigger] n.live(t) == m.live(t)
            &&& forall|t: TubeId| m.live(t) ==> (#[trigger] n.tube(t)).name == m.tube(t).name
        }),
{
    let n = m.with_job(j);
    assert forall|t: TubeId| #[trigger] n.live(t) == m.live(t) by {}
    assert forall|t: TubeId| m.live(t) implies !m.tube(t).buried.contains(j.id) by {}
    assert forall|t: TubeId| m.live(t) implies (#[trigger] n.tube(t)).name == m.tube(t).name
        && n.tube(t).buried.no_duplicates() by {
        if j.state == JobState::Buried && t == j.tube {
            let b = m.tube(t).buried;
            assert(n.tube(t).buried == b.push(j.id));
            assert forall|x: int, y: int|
                0 <= x < y < b.push(j.id).len() implies b.push(j.id)[x] != b.push(j.id)[y] by {
                assert(b.contains(b[x]));
            }
        } else {
            assert(n.tube(t) == m.tube(t));
        }
    }
    assert forall|t: TubeId, o: JobId|
        n.live(t) && #[trigger] n.tube(t).buried.contains(o) implies n.jobs.contains_key(o)
        && n.jobs[o].state == JobState::Buried && n.jobs[o].tube == t by {
        assert(m.live(t));
        if j.state == JobState::Buried && t == j.tube {
            let b = m.tube(t).buried;
            let k = b.push(j.id).index_of(o);
            if k < b.len() {
                assert(b[k] == o);
                assert(m.tube(t).buried.contains(o));
            }
        } else {
            assert(m.tube(t).buried.contains(o));
        }
    }
    assert forall|t: TubeId| #[trigger] n.free.contains(t) implies t < n.tubes.len() && !n.live(
        t,
    ) by {
        assert(m.free.contains(t));
    }
    assert forall|o: JobId| #[trigger] n.jobs.contains_key(o) implies n.jobs[o].id == o && n.live(
        n.jobs[o].tube,
    ) by {
        if o != j.id {
            assert(m.jobs.contains_key(o));
        }
    }
}

/// A job becomes ready or reserved.
proof fn lemma_moved(m: Model, j: JobView, s: Since)
    requires
        told(m, s),
        m.jobs.contains_key(j.id),
        j.tube == m.jobs[j.id].tube,
        j.ttr == m.jobs[j.id].ttr,
        j.body == m.jobs[j.id].body,
        j.created_at == m.jobs[j.id].created_at,
        j.state == JobState::Ready || j.state == JobState::Reserved,
    ensures
        told(m.without_job(j.id).with_job(j), s),
        same_ones(m, m.without_job(j.id).with_job(j)),
{
    let k = m.without_job(j.id);
    let n = k.with_job(j);
    lemma_lifted(m, j.id);
    assert(m.live(j.tube));
    assert(k.live(j.tube));
    lemma_shelved(k, j);
    assert(n.jobs =~= m.jobs.insert(j.id, j));
    assert(n.jobs.dom() =~= m.jobs.dom());
    assert forall|id: JobId| #[trigger] m.jobs.contains_key(id) implies same_job(m, n, id) by {
        let t = m.jobs[id].tube;
        assert(m.live(t) && k.live(t));
        assert(k.tube(t).name == m.tube(t).name);
        assert(n.tube(t).name == k.tube(t).name);
    }
    if s.on {
        let p = replayed(s.stored, m.journal.skip(s.journal.len() as int));
        assert forall|id: JobId| #[trigger] n.jobs.contains_key(id) implies keeps(
            p[id],
            n.jobs[id],
            n.tube(n.jobs[id].tube).name,
        ) by {
            assert(m.jobs.contains_key(id));
            let t = m.jobs[id].tube;
            assert(m.live(t) && k.live(t));
            assert(k.tube(t).name == m.tube(t).name);
            assert(n.tube(t).name == k.tube(t).name);
        }
    }
}

/// A job moves, and that is journaled.
proof fn lemma_moved_and_noted(m: Model, j: JobView, s: Since)
    requires
        told(m, s),
        m.jobs.contains_key(j.id),
        j.tube == m.jobs[j.id].tube,
        j.ttr == m.jobs[j.id].ttr,
        j.body == m.jobs[j.id].body,
        j.created_at == m.jobs[j.id].created_at,
    ensures
        told(m.without_job(j.id).with_job(j).journaling_update(j.id), s),
        same_ones(m, m.without_job(j.id).with_job(j).journaling_update(j.id)),
{
    let k = m.without_job(j.id);
    let n = k.with_job(j);
    let r = n.journaling_update(j.id);
    lemma_lifted(m, j.id);
    assert(m.live(j.tube));
    assert(k.live(j.tube));
    lemma_shelved(k, j);
    assert(n.jobs =~= m.jobs.insert(j.id, j));
    assert(n.jobs[j.id] == j);
    assert(r.jobs.dom() =~= m.jobs.dom());
    assert forall|t: TubeId| #[trigger] r.live(t) == m.live(t) by {
        assert(r.live(t) == n.live(t));
        assert(n.live(t) == k.live(t));
    }
    assert forall|id: JobId| #[trigger] m.jobs.contains_key(id) implies same_job(m, r, id) by {
        let t = m.jobs[id].tube;
        assert(m.live(t) && k.live(t));
        assert(k.tube(t).name == m.tube(t).name);
        assert(n.tube(t).name == k.tube(t).name);
        assert(r.tube(t) == n.tube(t));
    }
    lemma_shelved_logged(n, r);
    if s.on {
        let e = EntryView::Update(record_of(j));
        lemma_noted(m, s, e);
        assert(r.journal == m.journal.push(e));
        let p = replayed(s.stored, m.journal.skip(s.journal.len() as int));
        let q = noted(p, e);
        assert(p.contains_key(j.id));
        assert(r.jobs.dom() =~= q.dom());
        assert forall|id: JobId| #[trigger] r.jobs.contains_key(id) implies keeps(
            q[id],
            r.jobs[id],
            r.tube(r.jobs[id].tube).name,
        ) by {
            assert(m.jobs.contains_key(id));
            let t = m.jobs[id].tube;
            assert(m.live(t) && k.live(t));
            assert(k.tube(t).name == m.tube(t).name);
            assert(n.tube(t).name == k.tube(t).name);
            assert(r.tube(t) == n.tube(t));
        }
    }
}

/// The journal does not matter to how the jobs are shelved.
proof fn lemma_shelved_logged(m: Model, n: Model)
    requires
        shelved(m),
        n.jobs == m.jobs,
        n.tubes == m.tubes,
        n.free == m.free,
    ensures
        shelved(n),
{
    assert forall|t: TubeId| #[trigger] n.live(t) == m.live(t) && n.tube(t) == m.tube(t) by {}
    assert forall|t: TubeId, id: JobId|
        n.live(t) && #[trigger] n.tube(t).buried.contains(id) implies n.jobs.contains_key(id)
        && n.jobs[id].state == JobState::Buried && n.jobs[id].tube == t by {
        assert(m.live(t));
        assert(m.tube(t).buried.contains(id));
    }
    assert forall|t: TubeId| #[trigger] n.free.contains(t) implies t < n.tubes.len() && !n.live(
        t,
    ) by {
        assert(m.free.contains(t));
    }
    assert forall|id: JobId| #[trigger] n.jobs.contains_key(id) implies n.jobs[id].id == id
        && n.live(n.jobs[id].tube) by {
        assert(m.jobs.contains_key(id));
    }
}

/// A new job joins.
proof fn lemma_joined(m: Model, j: JobView, s: Since)
    requires
        told(m, s),
        !m.jobs.contains_key(j.id),
        m.live(j.tube),
    ensures
        told(m.with_job(j).journaling_put(j.id), s),
        ({
            let r = m.with_job(j).journaling_put(j.id);
            &&& r.jobs == m.jobs.insert(j.id, j)
            &&& forall|id: JobId| #[trigger] m.jobs.contains_key(id) ==> same_job(m, r, id)
        }),
{
    let n = m.with_job(j);
    let r = n.journaling_put(j.id);
    lemma_shelved(m, j);
    assert(n.jobs[j.id] == j);
    lemma_shelved_logged(n, r);
    assert forall|id: JobId| #[trigger] m.jobs.contains_key(id) implies same_job(m, r, id) by {
        let t = m.jobs[id].tube;
        assert(m.live(t));
        assert(n.tube(t).name == m.tube(t).name);
        assert(r.tube(t) == n.tube(t));
    }
    if s.on {
        let name = n.tube(j.tube).name;
        assert(name == m.tube(j.tube).name);
        let e = EntryView::Put { record: record_of(j), tube: name, body: j.body };
        lemma_noted(m, s, e);
        assert(r.journal == m.journal.push(e));
        let p = replayed(s.stored, m.journal.skip(s.journal.len() as int));
        let q = noted(p, e);
        assert(r.jobs.dom() =~= q.dom());
        assert forall|id: JobId| #[trigger] r.jobs.contains_key(id) implies keeps(
            q[id],
            r.jobs[id],
            r.tube(r.jobs[id].tube).name,
        ) by {
            if id != j.id {
                assert(m.jobs.contains_key(id));
                let t = m.jobs[id].tube;
                assert(m.live(t));
                assert(n.tube(t).name == m.tube(t).name);
                assert(r.tube(t) == n.tube(t));
            }
        }
    }
}

/// A tube is found or made.
proof fn lemma_made(m: Model, name: Seq<u8>, s: Since)
    requires
        told(m, s),
    ensures
        told(m.making_tube(name), s),
        same_jobs(m, m.making_tube(name)),
{
    let n = m.making_tube(name);
    if m.tube_named(name) is None {
        if m.free.len() > 0 {
            let f = m.free.last();
            assert(m.free.contains(f));
            assert forall|t: TubeId| #[trigger] n.free.contains(t) implies t < n.tubes.len()
                && !n.live(t) by {
                let k = n.free.index_of(t);
                assert(m.free[k] == t);
                assert(m.free.contains(t));
                assert(m.free[m.free.len() - 1] == f);
                assert(t != f);
                assert(!m.live(t));
            }
            assert(n.free.no_duplicates());
        }
        assert forall|t: TubeId| #[trigger] m.live(t) implies n.live(t) && n.tube(t) == m.tube(
            t,
        ) by {
            if m.free.len() > 0 {
                assert(m.free.contains(m.free.last()));
            }
        }
        assert forall|t: TubeId| #[trigger] n.live(t) implies m.live(t) || n.tube(t)
            == TubeView::fresh(name) by {}
        assert forall|t: TubeId, id: JobId|
            n.live(t) && #[trigger] n.tube(t).buried.contains(id) implies n.jobs.contains_key(id)
            && n.jobs[id].state == JobState::Buried && n.jobs[id].tube == t by {
            if m.live(t) {
                assert(m.tube(t).buried.contains(id));
            }
        }
        assert forall|t: TubeId| #[trigger] n.live(t) implies n.tube(t).buried.no_duplicates() by {
            if m.live(t) {
                assert(n.tube(t) == m.tube(t));
            }
        }
        assert forall|t: TubeId| #[trigger] n.free.contains(t) implies t < n.tubes.len()
            && !n.live(t) by {}
        if s.on {
            let p = replayed(s.stored, m.journal.skip(s.journal.len() as int));
            assert forall|id: JobId| #[trigger] n.jobs.contains_key(id) implies keeps(
                p[id],
                n.jobs[id],
                n.tube(n.jobs[id].tube).name,
            ) by {
                assert(m.jobs.contains_key(id));
                assert(m.live(m.jobs[id].tube));
            }
        }
    }
}

/// A tube goes, if nothing keeps it.
proof fn lemma_collected(m: Model, t: TubeId, s: Since)
    requires
        told(m, s),
    ensures
        told(m.collecting(t), s),
        same_jobs(m, m.collecting(t)),
        m.collecting(t).jobs == m.jobs,
        m.collecting(t).conns == m.conns,
{
    let n = m.collecting(t);
    if n.tubes != m.tubes {
        lemma_jobs_none(m.jobs, JobSel::InTube(t));
        assert(!m.free.contains(t));
        let f = m.free.push(t);
        assert(n.free == f);
        assert forall|x: int, y: int| 0 <= x < y < f.len() implies f[x] != f[y] by {
            assert(m.free.contains(m.free[x]));
        }
        assert forall|u: TubeId| #[trigger] n.live(u) == (m.live(u) && u != t) by {}
        assert forall|u: TubeId| m.live(u) && u != t implies #[trigger] n.tube(u) == m.tube(u) by {}
        assert forall|u: TubeId| #[trigger] n.free.contains(u) implies u < n.tubes.len()
            && !n.live(u) by {
            let k = n.free.index_of(u);
            if k < m.free.len() {
                assert(m.free[k] == u);
                assert(m.free.contains(u));
            }
        }
        assert forall|id: JobId| #[trigger] n.jobs.contains_key(id) implies n.jobs[id].id == id
            && n.live(n.jobs[id].tube) by {
            assert(m.jobs.contains_key(id));
            assert(m.live(m.jobs[id].tube));
            assert(!JobSel::InTube(t).picks(m.jobs[id]));
        }
        assert forall|u: TubeId, id: JobId|
            n.live(u) && #[trigger] n.tube(u).buried.contains(id) implies n.jobs.contains_key(id)
            && n.jobs[id].state == JobState::Buried && n.jobs[id].tube == u by {
            assert(m.live(u));
            assert(m.tube(u).buried.contains(id));
        }
        assert forall|u: TubeId| #[trigger] n.live(u) implies n.tube(u).buried.no_duplicates() by {
            assert(m.live(u));
        }
        if s.on {
            let p = replayed(s.stored, m.journal.skip(s.journal.len() as int));
            assert forall|id: JobId| #[trigger] n.jobs.contains_key(id) implies keeps(
                p[id],
                n.jobs[id],
                n.tube(n.jobs[id].tube).name,
            ) by {
                assert(m.jobs.contains_key(id));
                assert(m.live(m.jobs[id].tube));
                assert(n.live(n.jobs[id].tube));
            }
        }
    }
}

/// A connection stops waiting.
pub proof fn lemma_stopped(m: Model, c: ConnId, s: Since)
    requires
        told(m, s),
    ensures
        told(m.stop_waiting(c), s),
        m.stop_waiting(c).jobs == m.jobs,
        same_ones(m, m.stop_waiting(c)),
{
    let n = m.stop_waiting(c);
    assert forall|t: TubeId| #[trigger] n.live(t) == m.live(t) by {}
    lemma_same(m, n, s);
}

/// Expired pauses end.
proof fn lemma_unpaused(m: Model, now: Nanos, s: Since)
    requires
        told(m, s),
    ensures
        told(m.unpaused(now), s),
        same_ones(m, m.unpaused(now)),
{
    let n = m.unpaused(now);
    assert forall|t: TubeId| #[trigger] n.live(t) == m.live(t) by {}
    lemma_same(m, n, s);
}

/// A tube changes in other things than its name and its buried jobs.
proof fn lemma_touched(m: Model, t: TubeId, v: TubeView, s: Since)
    requires
        told(m, s),
        m.live(t),
        v.name == m.tube(t).name,
        v.buried == m.tube(t).buried,
    ensures
        told(m.with_tube(t, v), s),
        same_ones(m, m.with_tube(t, v)),
{
    let n = m.with_tube(t, v);
    assert forall|u: TubeId| #[trigger] n.live(u) == m.live(u) by {}
    assert forall|u: TubeId| m.live(u) implies (#[trigger] n.tube(u)).name == m.tube(u).name
        && n.tube(u).buried == m.tube(u).buried by {}
    lemma_same(m, n, s);
}

/// Something changes that the log knows nothing of.
pub proof fn lemma_beside(m: Model, n: Model, s: Since)
    requires
        told(m, s),
        n.jobs == m.jobs,
        n.tubes == m.tubes,
        n.free == m.free,
        n.journal == m.journal,
        n.cfg == m.cfg,
    ensures
        told(n, s),
        same_ones(m, n),
{
    assert forall|t: TubeId| #[trigger] n.live(t) == m.live(t) && n.tube(t) == m.tube(t) by {}
    lemma_same(m, n, s);
}

/// A job is reserved.
proof fn lemma_reserved(m: Model, id: JobId, c: ConnId, now: Nanos, s: Since)
    requires
        told(m, s),
        m.jobs.contains_key(id),
    ensures
        told(m.reserving(id, c, now), s),
        same_ones(m, m.reserving(id, c, now)),
{
    let j = m.jobs[id];
    let k = JobView {
        state: JobState::Reserved,
        reserver: Some(c),
        deadline_at: later(now, j.ttr),
        reserve_ct: bump32(j.reserve_ct),
        ..j
    };
    lemma_moved(m, k, s);
}

/// Jobs are handed out.
proof fn lemma_dispatched(m: Model, now: Nanos, out: Out, s: Since)
    requires
        told(m, s),
    ensures
        told(m.dispatch(now, out).0, s),
        same_ones(m, m.dispatch(now, out).0),
    decreases count_jobs(m.jobs, JobSel::Ready),
{
    match m.next_awaited() {
        None => {},
        Some(id) => {
            assert(m.is_next_awaited(id));
            let t = m.jobs[id].tube;
            let c = m.next_waiter(t);
            let v = TubeView { waiting: m.tube(t).waiting.after_take(), ..m.tube(t) };
            lemma_touched(m, t, v, s);
            lemma_stopped(m.with_tube(t, v), c, s);
            lemma_reserved(m.with_tube(t, v).stop_waiting(c), id, c, now, s);
            let n = m.handing_over(id, now);
            let o = out.push(
                (c, ResponseView::Reserved { id, body: m.jobs[id].body }),
            );
            if count_jobs(n.jobs, JobSel::Ready) < count_jobs(
                m.jobs,
                JobSel::Ready,
            ) {
                lemma_dispatched(n, now, o, s);
            }
        },
    }
}

/// Pauses end and jobs are handed out.
proof fn lemma_processed(m: Model, now: Nanos, out: Out, s: Since)
    requires
        told(m, s),
    ensures
        told(m.process_queue(now, out).0, s),
        same_ones(m, m.process_queue(now, out).0),
{
    lemma_unpaused(m, now, s);
    lemma_dispatched(m.unpaused(now), now, out, s);
}

/// A job becomes ready, and jobs are handed out.
pub proof fn lemma_readied(m: Model, id: JobId, now: Nanos, out: Out, s: Since)
    requires
        told(m, s),
        m.jobs.contains_key(id),
    ensures
        told(m.readying(id).process_queue(now, out).0, s),
        same_ones(m, m.readying(id).process_queue(now, out).0),
{
    let k = JobView { state: JobState::Ready, reserver: None, ..m.jobs[id] };
    lemma_moved(m, k, s);
    lemma_processed(m.readying(id), now, out, s);
}

/// Delays pass.
proof fn lemma_released(m: Model, now: Nanos, out: Out, s: Since)
    requires
        told(m, s),
    ensures
        told(m.release_due(now, out).0, s),
        same_jobs(m, m.release_due(now, out).0),
    decreases count_jobs(m.jobs, JobSel::Delayed),
{
    match m.soonest_delayed() {
        Some(id) => {
            assert(m.is_soonest_delayed(id));
            if m.jobs[id].deadline_at <= now {
                lemma_readied(m, id, now, out, s);
                let r = m.readying(id).process_queue(now, out);
                if count_jobs(r.0.jobs, JobSel::Delayed) < count_jobs(
                    m.jobs,
                    JobSel::Delayed,
                ) {
                    lemma_released(r.0, now, r.1, s);
                }
            }
        },
        None => {},
    }
}

/// Reservations run out.
proof fn lemma_expired(m: Model, c: ConnId, now: Nanos, out: Out, s: Since)
    requires
        told(m, s),
    ensures
        told(m.expire(c, now, out).0, s),
        same_jobs(m, m.expire(c, now, out).0),
    decreases count_jobs(m.jobs, JobSel::Overdue(now)),
{
    match m.soonest_reserved(c) {
        Some(p) => {
            assert(is_least(reserved_set(m.jobs, c), p));
            let (d, id) = p;
            if d < now {
                let j = m.jobs[id];
                let k = Model { timeout_ct: bump(m.timeout_ct), ..m };
                lemma_beside(m, k, s);
                lemma_moved(
                    k,
                    JobView {
                        state: JobState::Ready,
                        reserver: None,
                        timeout_ct: bump32(j.timeout_ct),
                        ..j
                    },
                    s,
                );
                let n = k.without_job(id).with_job(
                    JobView {
                        state: JobState::Ready,
                        reserver: None,
                        timeout_ct: bump32(j.timeout_ct),
                        ..j
                    },
                );
                lemma_processed(n, now, out, s);
                let r = n.process_queue(now, out);
                if count_jobs(r.0.jobs, JobSel::Overdue(now))
                    < count_jobs(m.jobs, JobSel::Overdue(now)) {
                    lemma_expired(r.0, c, now, r.1, s);
                }
            }
        },
        None => {},
    }
}

/// A connection is attended to.
proof fn lemma_attended(m: Model, c: ConnId, now: Nanos, out: Out, s: Since)
    requires
        told(m, s),
    ensures
        told(m.attend(c, now, out).0, s),
        same_jobs(m, m.attend(c, now, out).0),
{
    lemma_expired(m, c, now, out, s);
    lemma_stopped(m.expire(c, now, out).0, c, s);
}

/// Every connection that needs it is attended to.
proof fn lemma_attended_all(m: Model, done: Set<ConnId>, now: Nanos, out: Out, s: Since)
    requires
        told(m, s),
    ensures
        told(m.attend_all(done, now, out).0, s),
        same_jobs(m, m.attend_all(done, now, out).0),
    decreases m.conns.dom().difference(done).len(),
{
    match least(m.due_conns(done, now)) {
        None => {},
        Some(p) => {
            lemma_attended(m, p.1, now, out, s);
            let r = m.attend(p.1, now, out);
            if r.0.conns.dom().difference(done.insert(p.1)).len() < m.conns.dom().difference(
                done,
            ).len() {
                lemma_attended_all(r.0, done.insert(p.1), now, r.1, s);
            }
        },
    }
}

/// Time passes.
proof fn lemma_ticked(m: Model, now: Nanos, out: Out, s: Since)
    requires
        told(m, s),
    ensures
        told(m.tick(now, out).0, s),
        same_jobs(m, m.tick(now, out).0),
{
    lemma_released(m, now, out, s);
    let (m1, o1) = m.release_due(now, out);
    lemma_processed(m1, now, o1, s);
    let (m2, o2) = if m1.pause_expired(now) {
        m1.process_queue(now, o1)
    } else {
        (m1, o1)
    };
    lemma_attended_all(m2, Set::empty(), now, o2, s);
}

impl Model {
    /// The number that the next job of connection `c` gets.
    pub open spec fn put_number(self, c: ConnId) -> JobId {
        let p = self.conns[c].pending_put;
        if p is Some && p->0.id is Some {
            p->0.id->0
        } else {
            self.next_job_id
        }
    }
}

/// put
proof fn lemma_put(
    m: Model,
    now: Nanos,
    c: ConnId,
    pri: u32,
    delay: u32,
    ttr: u32,
    body: Seq<u8>,
    out: Out,
    s: Since,
)
    requires
        told(m, s),
        orderly(m),
        m.conns.contains_key(c),
    ensures
        told(m.cmd_put(now, c, pri, delay, ttr, body, out).0, s),
        ({
            let n = m.cmd_put(now, c, pri, delay, ttr, body, out).0;
            let id = m.put_number(c);
            &&& n.jobs.dom() == if m.draining {
                m.jobs.dom()
            } else {
                m.jobs.dom().insert(id)
            }
            &&& forall|o: JobId| #[trigger] m.jobs.contains_key(o) ==> same_job(m, n, o)
            &&& !m.jobs.contains_key(id)
            &&& !m.draining ==> {
                &&& n.jobs[id].body == body
                &&& n.jobs[id].ttr == if ttr == 0 {
                    1
                } else {
                    ttr
                }
                &&& n.tube(n.jobs[id].tube).name == m.tube(m.conns[c].use_tube).name
            }
        }),
{
    let id = m.put_number(c);
    let p = m.conns[c].pending_put;
    let created_at = if p is Some && p->0.id is Some {
        p->0.created_at
    } else {
        now
    };
    assert(!m.jobs.contains_key(id));
    let k = m.put_accepted(c);
    lemma_beside(m, k, s);
    if !m.draining {
        let t = m.conns[c].use_tube;
        let j = JobView {
            id,
            tube: t,
            pri,
            delay,
            ttr: if ttr == 0 {
                1
            } else {
                ttr
            },
            body,
            created_at,
            deadline_at: if delay > 0 {
                later(now, delay)
            } else {
                0
            },
            state: if delay > 0 {
                JobState::Delayed
            } else {
                JobState::Ready
            },
            reserver: None,
            reserve_ct: 0,
            timeout_ct: 0,
            release_ct: 0,
            bury_ct: 0,
            kick_ct: 0,
            file: if m.cfg.journal {
                m.binlog.current_index
            } else {
                0
            },
        };
        assert(m.live(t));
        assert(k.live(t));
        lemma_joined(k, j, s);
        let q = k.with_job(j).journaling_put(id);
        assert(q.live(t));
        assert(q.tube(t).name == m.tube(t).name);
        lemma_processed(q, now, out, s);
        let n = q.process_queue(now, out).0;
        let r = Model { total_jobs_ct: bump(n.total_jobs_ct), ..n };
        assert(n.live(t));
        lemma_beside(n, r, s);
        assert(r.live(t));
        let v = TubeView { total_jobs_ct: bump(n.tube(t).total_jobs_ct), ..n.tube(t) };
        lemma_touched(r, t, v, s);
        let z = r.with_tube(t, v);
        assert(z.jobs.dom() =~= m.jobs.dom().insert(id));
        assert(q.jobs.contains_key(id) && q.jobs[id] == j);
        assert(same_job(q, n, id) && n.jobs.contains_key(id));
        assert(same_job(n, r, id) && r.jobs.contains_key(id));
        assert(same_job(r, z, id));
        assert forall|o: JobId| #[trigger] m.jobs.contains_key(o) implies same_job(m, z, o) by {
            assert(k.jobs.contains_key(o) && same_job(m, k, o));
            assert(q.jobs.contains_key(o) && same_job(k, q, o));
            assert(n.jobs.dom().contains(o) && same_job(q, n, o));
            assert(r.jobs.contains_key(o) && same_job(n, r, o));
            assert(same_job(r, z, o));
        }
    }
}

/// use, watch and ignore
proof fn lemma_tubes(m: Model, c: ConnId, name: Seq<u8>, out: Out, s: Since)
    requires
        told(m, s),
    ensures
        told(m.cmd_use(c, name, out).0, s),
        told(m.cmd_watch(c, name, out).0, s),
        told(m.cmd_ignore(c, name, out).0, s),
        same_jobs(m, m.cmd_use(c, name, out).0),
        same_jobs(m, m.cmd_watch(c, name, out).0),
        same_jobs(m, m.cmd_ignore(c, name, out).0),
{
    let u = Model { ops: OpCounts { cmd_use: bump(m.ops.cmd_use), ..m.ops }, ..m };
    lemma_beside(m, u, s);
    lemma_made(u, name, s);
    let n = u.making_tube(name);
    let v = n.with_conn(c, ConnView { use_tube: u.tube_for(name), ..n.conns[c] });
    lemma_beside(n, v, s);
    lemma_collected(v, n.conns[c].use_tube, s);

    let w = Model { ops: OpCounts { cmd_watch: bump(m.ops.cmd_watch), ..m.ops }, ..m };
    lemma_beside(m, w, s);
    lemma_made(w, name, s);
    lemma_beside(w.making_tube(name), m.cmd_watch(c, name, out).0, s);

    let i = Model { ops: OpCounts { cmd_ignore: bump(m.ops.cmd_ignore), ..m.ops }, ..m };
    lemma_beside(m, i, s);
    match i.tube_named(name) {
        None => {},
        Some(t) => {
            let x = i.with_conn(
                c,
                ConnView { watch: i.conns[c].watch.remove(t), ..i.conns[c] },
            );
            lemma_beside(i, x, s);
            lemma_collected(x, t, s);
        },
    }
}

/// reserve and reserve-with-timeout
proof fn lemma_reserve(m: Model, now: Nanos, c: ConnId, timeout: Option<u32>, out: Out, s: Since)
    requires
        told(m, s),
    ensures
        told(m.cmd_reserve(now, c, timeout, out).0, s),
        same_jobs(m, m.cmd_reserve(now, c, timeout, out).0),
{
    let ops = match timeout {
        None => OpCounts { cmd_reserve: bump(m.ops.cmd_reserve), ..m.ops },
        Some(_) => OpCounts {
            cmd_reserve_with_timeout: bump(m.ops.cmd_reserve_with_timeout),
            ..m.ops
        },
    };
    let k = (Model { ops, ..m }).worker(c);
    lemma_beside(m, k, s);
    let until: Option<Nanos> = match timeout {
        None => None,
        Some(x) => Some(later(now, x)),
    };
    let w = k.start_waiting(c, until);
    assert forall|t: TubeId| #[trigger] w.live(t) == k.live(t) by {}
    lemma_same(k, w, s);
    lemma_processed(w, now, out, s);
    lemma_stopped(w.process_queue(now, out).0, c, s);
}

/// reserve-job
proof fn lemma_reserve_job(m: Model, now: Nanos, c: ConnId, id: JobId, out: Out, s: Since)
    requires
        told(m, s),
    ensures
        told(m.cmd_reserve_job(now, c, id, out).0, s),
        same_jobs(m, m.cmd_reserve_job(now, c, id, out).0),
{
    if m.jobs.contains_key(id) {
        lemma_beside(m, m.worker(c), s);
        lemma_reserved(m.worker(c), id, c, now, s);
    }
}

/// delete
proof fn lemma_delete(m: Model, c: ConnId, id: JobId, out: Out, s: Since)
    requires
        told(m, s),
    ensures
        told(m.cmd_delete(c, id, out).0, s),
        ({
            let n = m.cmd_delete(c, id, out).0;
            &&& n.jobs.dom() == m.jobs.dom() || n.jobs.dom() == m.jobs.dom().remove(id)
            &&& forall|o: JobId| #[trigger] n.jobs.contains_key(o) ==> same_job(m, n, o)
        }),
{
    let k = Model { ops: OpCounts { cmd_delete: bump(m.ops.cmd_delete), ..m.ops }, ..m };
    lemma_beside(m, k, s);
    if k.jobs.contains_key(id) {
        let t = k.jobs[id].tube;
        assert(k.live(t));
        let n = k.without_job(id);
        lemma_lifted(k, id);
        assert(n.live(t));
        let x = n.with_tube(
            t,
            TubeView { total_delete_ct: bump(n.tube(t).total_delete_ct), ..n.tube(t) },
        );
        let e = EntryView::Delete(id);
        let r = x.journaling(e);
        assert forall|u: TubeId| #[trigger] r.live(u) == k.live(u) by {
            assert(n.live(u) == k.live(u));
        }
        assert forall|u: TubeId| k.live(u) implies (#[trigger] r.tube(u)).name == k.tube(u).name
            && r.tube(u).buried == n.tube(u).buried by {
            assert(n.tube(u).name == k.tube(u).name);
        }
        assert forall|u: TubeId, o: JobId|
            r.live(u) && #[trigger] r.tube(u).buried.contains(o) implies r.jobs.contains_key(o)
            && r.jobs[o].state == JobState::Buried && r.jobs[o].tube == u by {
            assert(n.live(u));
            assert(n.tube(u).buried.contains(o));
        }
        assert forall|u: TubeId| #[trigger] r.live(u) implies r.tube(u).buried.no_duplicates() by {
            assert(n.live(u));
        }
        assert forall|u: TubeId| #[trigger] r.free.contains(u) implies u < r.tubes.len()
            && !r.live(u) by {
            assert(n.free.contains(u));
        }
        assert forall|o: JobId| #[trigger] r.jobs.contains_key(o) implies r.jobs[o].id == o
            && r.live(r.jobs[o].tube) by {
            assert(n.jobs.contains_key(o));
        }
        if s.on {
            lemma_noted(k, s, e);
            assert(r.journal == k.journal.push(e));
            let p = replayed(s.stored, k.journal.skip(s.journal.len() as int));
            let q = noted(p, e);
            assert(r.jobs.dom() =~= q.dom());
            assert forall|o: JobId| #[trigger] r.jobs.contains_key(o) implies keeps(
                q[o],
                r.jobs[o],
                r.tube(r.jobs[o].tube).name,
            ) by {
                assert(k.jobs.contains_key(o));
                assert(k.live(k.jobs[o].tube));
                assert(r.tube(k.jobs[o].tube).name == k.tube(k.jobs[o].tube).name);
            }
        }
        lemma_collected(r, t, s);
    }
}

/// release
proof fn lemma_release(
    m: Model,
    now: Nanos,
    c: ConnId,
    id: JobId,
    pri: u32,
    delay: u32,
    out: Out,
    s: Since,
)
    requires
        told(m, s),
    ensures
        told(m.cmd_release(now, c, id, pri, delay, out).0, s),
        same_jobs(m, m.cmd_release(now, c, id, pri, delay, out).0),
{
    let k = Model { ops: OpCounts { cmd_release: bump(m.ops.cmd_release), ..m.ops }, ..m };
    lemma_beside(m, k, s);
    if k.holds(c, id) {
        let j = JobView {
            pri,
            delay,
            reserver: None,
            release_ct: bump32(k.jobs[id].release_ct),
            ..k.jobs[id]
        };
        let d = JobView { state: JobState::Delayed, deadline_at: later(now, delay), ..j };
        let r = JobView { state: JobState::Ready, ..j };
        lemma_moved_and_noted(k, d, s);
        lemma_moved(k, r, s);
        let n = if delay > 0 {
            k.without_job(id).with_job(d).journaling_update(id)
        } else {
            k.without_job(id).with_job(r)
        };
        lemma_processed(n, now, out, s);
    }
}

/// bury and touch
proof fn lemma_bury_touch(m: Model, now: Nanos, c: ConnId, id: JobId, pri: u32, out: Out, s: Since)
    requires
        told(m, s),
    ensures
        told(m.cmd_bury(c, id, pri, out).0, s),
        told(m.cmd_touch(now, c, id, out).0, s),
        same_jobs(m, m.cmd_bury(c, id, pri, out).0),
        same_jobs(m, m.cmd_touch(now, c, id, out).0),
{
    let k = Model { ops: OpCounts { cmd_bury: bump(m.ops.cmd_bury), ..m.ops }, ..m };
    lemma_beside(m, k, s);
    if k.holds(c, id) {
        let j = JobView {
            pri,
            state: JobState::Buried,
            reserver: None,
            bury_ct: bump32(k.jobs[id].bury_ct),
            ..k.jobs[id]
        };
        lemma_moved_and_noted(k, j, s);
    }
    let x = Model { ops: OpCounts { cmd_touch: bump(m.ops.cmd_touch), ..m.ops }, ..m };
    lemma_beside(m, x, s);
    if x.holds(c, id) {
        let j = JobView { deadline_at: later(now, x.jobs[id].ttr), ..x.jobs[id] };
        let n = Model { jobs: x.jobs.insert(id, j), ..x };
        assert forall|t: TubeId| #[trigger] n.live(t) == x.live(t) && n.tube(t) == x.tube(t) by {}
        assert forall|t: TubeId, o: JobId|
            n.live(t) && #[trigger] n.tube(t).buried.contains(o) implies n.jobs.contains_key(o)
            && n.jobs[o].state == JobState::Buried && n.jobs[o].tube == t by {
            assert(x.live(t));
            assert(x.tube(t).buried.contains(o));
        }
        assert forall|t: TubeId| #[trigger] n.live(t) implies n.tube(t).buried.no_duplicates() by {
            assert(x.live(t));
        }
        assert forall|t: TubeId| #[trigger] n.free.contains(t) implies t < n.tubes.len()
            && !n.live(t) by {
            assert(x.free.contains(t));
        }
        assert forall|o: JobId| #[trigger] n.jobs.contains_key(o) implies n.jobs[o].id == o
            && n.live(n.jobs[o].tube) by {
            assert(x.jobs.contains_key(o));
        }
        assert(n.jobs.dom() =~= x.jobs.dom());
        if s.on {
            let p = replayed(s.stored, x.journal.skip(s.journal.len() as int));
            assert forall|o: JobId| #[trigger] n.jobs.contains_key(o) implies keeps(
                p[o],
                n.jobs[o],
                n.tube(n.jobs[o].tube).name,
            ) by {
                assert(x.jobs.contains_key(o));
            }
        }
    }
}

/// A job is kicked.
pub proof fn lemma_kicked(m: Model, id: JobId, now: Nanos, out: Out, s: Since)
    requires
        told(m, s),
        m.jobs.contains_key(id),
    ensures
        told(m.kicking(id, now, out).0, s),
        same_ones(m, m.kicking(id, now, out).0),
{
    let j = m.jobs[id];
    let k = JobView { state: JobState::Ready, reserver: None, kick_ct: bump32(j.kick_ct), ..j };
    lemma_moved_and_noted(m, k, s);
    lemma_processed(m.without_job(id).with_job(k).journaling_update(id), now, out, s);
}

/// Buried jobs are kicked.
proof fn lemma_kicked_buried(m: Model, t: TubeId, n: nat, now: Nanos, out: Out, s: Since)
    requires
        told(m, s),
        m.live(t),
    ensures
        told(m.kick_buried(t, n, now, out).0, s),
        same_jobs(m, m.kick_buried(t, n, now, out).0),
    decreases n,
{
    if n > 0 && m.tube(t).buried.len() > 0 {
        let id = m.tube(t).buried[0];
        assert(m.tube(t).buried.contains(id));
        lemma_kicked(m, id, now, out, s);
        let (k, o) = m.kicking(id, now, out);
        lemma_kicked_buried(k, t, (n - 1) as nat, now, o, s);
    }
}

/// Delayed jobs are kicked.
proof fn lemma_kicked_delayed(m: Model, t: TubeId, n: nat, now: Nanos, out: Out, s: Since)
    requires
        told(m, s),
    ensures
        told(m.kick_delayed(t, n, now, out).0, s),
        same_jobs(m, m.kick_delayed(t, n, now, out).0),
    decreases n,
{
    match least(delayed_set(m.jobs, t)) {
        Some(p) => if n > 0 {
            assert(is_least(delayed_set(m.jobs, t), p));
            lemma_kicked(m, p.1, now, out, s);
            let (k, o) = m.kicking(p.1, now, out);
            lemma_kicked_delayed(k, t, (n - 1) as nat, now, o, s);
        },
        None => {},
    }
}

/// kick and kick-job
proof fn lemma_kick(m: Model, now: Nanos, c: ConnId, n: u32, id: JobId, out: Out, s: Since)
    requires
        told(m, s),
        orderly(m),
        m.conns.contains_key(c),
    ensures
        told(m.cmd_kick(now, c, n, out).0, s),
        told(m.cmd_kick_job(now, c, id, out).0, s),
        same_jobs(m, m.cmd_kick(now, c, n, out).0),
        same_jobs(m, m.cmd_kick_job(now, c, id, out).0),
{
    let k = Model { ops: OpCounts { cmd_kick: bump(m.ops.cmd_kick), ..m.ops }, ..m };
    lemma_beside(m, k, s);
    let t = k.conns[c].use_tube;
    assert(m.live(t));
    assert(k.live(t));
    lemma_kicked_buried(k, t, n as nat, now, out, s);
    lemma_kicked_delayed(k, t, n as nat, now, out, s);
    if m.jobs.contains_key(id) {
        lemma_kicked(m, id, now, out, s);
    }
}

/// Commands that change a count, or a pause, and nothing else.
proof fn lemma_looked(
    m: Model,
    now: Nanos,
    c: ConnId,
    cmd: CommandView,
    sys: SysSnapshot,
    out: Out,
    s: Since,
)
    requires
        told(m, s),
        m.conns.contains_key(c),
        cmd is Peek || cmd is PeekReady || cmd is PeekDelayed || cmd is PeekBuried || cmd is StatsJob
            || cmd is StatsTube || cmd is Stats || cmd is ListTubes || cmd is ListTubeUsed
            || cmd is ListTubesWatched || cmd is Quit || cmd is PauseTubeBadName
            || cmd is PauseTube,
    ensures
        told(m.handle(now, c, cmd, sys, out).0, s),
        same_jobs(m, m.handle(now, c, cmd, sys, out).0),
{
    let r = m.handle(now, c, cmd, sys, out).0;
    match cmd {
        CommandView::PauseTube { tube, delay } => {
            let k = Model {
                ops: OpCounts { cmd_pause_tube: bump(m.ops.cmd_pause_tube), ..m.ops },
                ..m
            };
            lemma_beside(m, k, s);
            match k.tube_named(tube) {
                Some(t) => {
                    assert(k.live(t));
                    lemma_touched(
                        k,
                        t,
                        TubeView {
                            pause: Model::pause_length(delay),
                            unpause_at: (now + Model::pause_length(delay)) as u64,
                            pause_ct: bump(k.tube(t).pause_ct),
                            ..k.tube(t)
                        },
                        s,
                    );
                },
                None => {},
            }
        },
        _ => {
            lemma_beside(m, r, s);
        },
    }
}

/// A command is given.
proof fn lemma_handled(
    m: Model,
    now: Nanos,
    c: ConnId,
    cmd: CommandView,
    sys: SysSnapshot,
    out: Out,
    s: Since,
)
    requires
        told(m, s),
        orderly(m),
    ensures
        told(m.handle(now, c, cmd, sys, out).0, s),
        ({
            let n = m.handle(now, c, cmd, sys, out).0;
            &&& forall|id: JobId| #[trigger]
                m.jobs.contains_key(id) ==> n.jobs.contains_key(id) || cmd == CommandView::Delete(
                    id,
                )
            &&& forall|id: JobId| #[trigger]
                n.jobs.contains_key(id) ==> m.jobs.contains_key(id) || cmd is Put
            &&& forall|id: JobId|
                m.jobs.contains_key(id) && #[trigger] n.jobs.contains_key(id) ==> same_job(m, n, id)
        }),
{
    if m.conns.contains_key(c) {
        match cmd {
            CommandView::Put { pri, delay, ttr, body } => lemma_put(
                m,
                now,
                c,
                pri,
                delay,
                ttr,
                body,
                out,
                s,
            ),
            CommandView::Use(name) => lemma_tubes(m, c, name, out, s),
            CommandView::Watch(name) => lemma_tubes(m, c, name, out, s),
            CommandView::Ignore(name) => lemma_tubes(m, c, name, out, s),
            CommandView::Reserve => lemma_reserve(m, now, c, None, out, s),
            CommandView::ReserveWithTimeout(x) => lemma_reserve(m, now, c, Some(x), out, s),
            CommandView::ReserveJob(id) => lemma_reserve_job(m, now, c, id, out, s),
            CommandView::Delete(id) => lemma_delete(m, c, id, out, s),
            CommandView::Release { id, pri, delay } => lemma_release(
                m,
                now,
                c,
                id,
                pri,
                delay,
                out,
                s,
            ),
            CommandView::Bury { id, pri } => lemma_bury_touch(m, now, c, id, pri, out, s),
            CommandView::Touch(id) => lemma_bury_touch(m, now, c, id, 0, out, s),
            CommandView::Kick(n) => lemma_kick(m, now, c, n, 0, out, s),
            CommandView::KickJob(id) => lemma_kick(m, now, c, 0, id, out, s),
            _ => lemma_looked(m, now, c, cmd, sys, out, s),
        }
        let n = m.handle(now, c, cmd, sys, out).0;
        if !(cmd is Put) && !(cmd is Delete) {
            assert(same_jobs(m, n));
        }
        assert forall|id: JobId| m.jobs.dom().contains(id) == #[trigger] m.jobs.contains_key(id) by {}
        assert forall|id: JobId| n.jobs.dom().contains(id) == #[trigger] n.jobs.contains_key(id) by {}
    }
}

/// Jobs become ready again, one by one.
proof fn lemma_given_back(m: Model, ids: Seq<JobId>, i: nat, now: Nanos, out: Out, s: Since)
    requires
        told(m, s),
        forall|k: int| 0 <= k < ids.len() ==> m.jobs.contains_key(#[trigger] ids[k]),
    ensures
        told(m.give_back(ids, i, now, out).0, s),
        same_jobs(m, m.give_back(ids, i, now, out).0),
    decreases ids.len() - i,
{
    if i < ids.len() {
        let id = ids[i as int];
        lemma_readied(m, id, now, out, s);
        let (n, o) = m.readying(id).process_queue(now, out);
        assert forall|k: int| 0 <= k < ids.len() implies n.jobs.contains_key(#[trigger] ids[k]) by {
            assert(m.jobs.contains_key(ids[k]));
            assert(n.jobs.dom().contains(ids[k]));
        }
        lemma_given_back(n, ids, i + 1, now, o, s);
    }
}

/// A connection watches nothing any more.
proof fn lemma_unwatched(m: Model, c: ConnId, s: Since)
    requires
        told(m, s),
    ensures
        told(m.unwatch_all(c), s),
        same_jobs(m, m.unwatch_all(c)),
    decreases m.conns[c].watch.items.len(),
{
    let w = m.conns[c].watch;
    if w.items.len() > 0 {
        let k = m.with_conn(
            c,
            ConnView { watch: MsView { items: swap_remove(w.items, 0), ..w }, ..m.conns[c] },
        );
        lemma_beside(m, k, s);
        lemma_collected(k, w.items[0], s);
        let n = k.collecting(w.items[0]);
        if n.conns[c].watch.items.len() < w.items.len() {
            lemma_unwatched(n, c, s);
        }
    }
}

/// A connection closes.
proof fn lemma_disconnected(m: Model, c: ConnId, now: Nanos, out: Out, s: Since)
    requires
        told(m, s),
        orderly(m),
    ensures
        told(m.disconnect(c, now, out).0, s),
        same_jobs(m, m.disconnect(c, now, out).0),
{
    if m.conns.contains_key(c) {
        let m1 = m.stop_waiting(c);
        lemma_stopped(m, c, s);
        let ids = m1.conns[c].reserved;
        assert(ids == m.conns[c].reserved);
        assert forall|k: int| 0 <= k < ids.len() implies m1.jobs.contains_key(#[trigger] ids[k]) by {
            assert(m.conns[c].reserved.contains(ids[k]));
        }
        lemma_given_back(m1, ids, 0, now, out, s);
        let m2 = m1.give_back(ids, 0, now, out).0;
        lemma_unwatched(m2, c, s);
        let m3 = m2.unwatch_all(c);
        let m4 = Model { conns: m3.conns.remove(c), ..m3 };
        lemma_beside(m3, m4, s);
        lemma_collected(m4, m3.conns[c].use_tube, s);
    }
}

/// An event happens.
proof fn lemma_taken_in(
    m: Model,
    now: Nanos,
    input: EngineInput,
    sys: SysSnapshot,
    out: Out,
    s: Since,
)
    requires
        told(m, s),
        orderly(m),
    ensures
        told(m.take_in(now, input, sys, out).0, s),
        ({
            let n = m.take_in(now, input, sys, out).0;
            &&& forall|id: JobId| #[trigger]
                m.jobs.contains_key(id) ==> n.jobs.contains_key(id) || deletes(input, id)
            &&& forall|id: JobId| #[trigger]
                n.jobs.contains_key(id) ==> m.jobs.contains_key(id) || puts(input)
            &&& forall|id: JobId|
                m.jobs.contains_key(id) && #[trigger] n.jobs.contains_key(id) ==> same_job(m, n, id)
        }),
{
    let n = m.take_in(now, input, sys, out).0;
    match input {
        EngineInput::Disconnect(c) => lemma_disconnected(m, c, now, out, s),
        EngineInput::HalfClose(c) => lemma_stopped(m, c, s),
        EngineInput::Command { conn, cmd } => lemma_handled(m, now, conn, cmd@, sys, out, s),
        _ => lemma_beside(m, n, s),
    }
    if !(input is Command) {
        assert(same_jobs(m, n));
        assert forall|id: JobId| m.jobs.contains_key(id) == #[trigger] n.jobs.contains_key(id) by {
            assert(n.jobs.dom().contains(id) == m.jobs.dom().contains(id));
        }
    }
}

/// What a log would hold that has just been given the present record of every
/// job.
pub open spec fn all_noted(m: Model) -> Stored {
    Map::new(
        |id: JobId| m.jobs.contains_key(id),
        |id: JobId|
            RecoveredView {
                record: record_of(m.jobs[id]),
                tube: m.tube(m.jobs[id].tube).name,
                body: m.jobs[id].body,
            },
    )
}

/// Where a log stands that has just been given the present record of every job.
pub open spec fn here(m: Model) -> Since {
    Since { on: m.cfg.journal, journal: m.journal, stored: all_noted(m) }
}

/// Such a log knows the jobs.
pub proof fn lemma_told(m: Model)
    requires
        orderly(m),
    ensures
        told(m, here(m)),
{
    assert(m.journal.take(m.journal.len() as int) =~= m.journal);
    assert(m.journal.skip(m.journal.len() as int) =~= Seq::<EntryView>::empty());
    assert(all_noted(m).dom() =~= m.jobs.dom());
}

/// Whether `input` is the command `delete` of job `id`.
pub open spec fn deletes(input: EngineInput, id: JobId) -> bool {
    match input {
        EngineInput::Command { cmd, .. } => cmd@ == CommandView::Delete(id),
        _ => false,
    }
}

/// Whether `input` is a put.
pub open spec fn puts(input: EngineInput) -> bool {
    match input {
        EngineInput::Command { cmd, .. } => cmd@ is Put,
        _ => false,
    }
}

/// No job is lost, and none is made up or changed: whatever happens, a job goes
/// only if it is deleted, one appears only if it is put, and the others keep
/// their tube, body, time to run and age.
pub proof fn jobs_stay_until_deleted(
    m: Model,
    now: Nanos,
    input: EngineInput,
    sys: SysSnapshot,
    out: Out,
    id: JobId,
)
    requires
        orderly(m),
    ensures
        ({
            let n = m.apply_input(now, input, sys, out).0;
            &&& m.jobs.contains_key(id) && !n.jobs.contains_key(id) ==> deletes(input, id)
            &&& n.jobs.contains_key(id) && !m.jobs.contains_key(id) ==> puts(input)
            &&& m.jobs.contains_key(id) && n.jobs.contains_key(id) ==> same_job(m, n, id)
        }),
{
    let s = here(m);
    lemma_told(m);
    lemma_taken_in(m, now, input, sys, out, s);
    let (k, o) = m.take_in(now, input, sys, out);
    lemma_ticked(k, now, o, s);
    let n = k.tick(now, o).0;
    assert(n.jobs.contains_key(id) == k.jobs.contains_key(id)) by {
        assert(n.jobs.dom().contains(id) == k.jobs.dom().contains(id));
    }
}

/// A job that is put is there: the reply names its number, under which it
/// stands in the tube that the connection uses, with the body that was sent.
pub proof fn what_is_put_is_there(
    m: Model,
    now: Nanos,
    c: ConnId,
    pri: u32,
    delay: u32,
    ttr: u32,
    body: Seq<u8>,
    out: Out,
)
    requires
        orderly(m),
        m.conns.contains_key(c),
        !m.draining,
    ensures
        ({
            let (n, o) = m.cmd_put(now, c, pri, delay, ttr, body, out);
            let id = m.put_number(c);
            &&& o.last() == (c, ResponseView::Inserted(id))
            &&& !m.jobs.contains_key(id)
            &&& n.jobs.dom() == m.jobs.dom().insert(id)
            &&& n.jobs[id].body == body
            &&& n.tube(n.jobs[id].tube).name == m.tube(m.conns[c].use_tube).name
        }),
{
    let s = here(m);
    lemma_told(m);
    lemma_put(m, now, c, pri, delay, ttr, body, out, s);
}

/// Whatever happens, a log that knows the jobs and is then given what was
/// journaled knows the jobs again. What was journaled before stays as it is.
pub proof fn journal_tells_the_jobs(
    m: Model,
    now: Nanos,
    input: EngineInput,
    sys: SysSnapshot,
    out: Out,
    p: Stored,
)
    requires
        orderly(m),
        m.cfg.journal,
        knows(p, m),
    ensures
        ({
            let n = m.apply_input(now, input, sys, out).0;
            let k = m.journal.len() as int;
            &&& k <= n.journal.len()
            &&& n.journal.take(k) == m.journal
            &&& knows(replayed(p, n.journal.skip(k)), n)
        }),
{
    let s = Since { on: true, journal: m.journal, stored: p };
    assert(m.journal.take(m.journal.len() as int) =~= m.journal);
    assert(m.journal.skip(m.journal.len() as int) =~= Seq::<EntryView>::empty());
    lemma_taken_in(m, now, input, sys, out, s);
    let (n, o) = m.take_in(now, input, sys, out);
    lemma_ticked(n, now, o, s);
}

/// An empty log knows the jobs of a new engine.
pub proof fn empty_log_knows_a_new_engine(now: Nanos, cfg: EngineConfig)
    ensures
        knows(Map::empty(), Model::initial(now, cfg)),
{
    assert(Map::<JobId, RecoveredView>::empty().dom() =~= Model::initial(now, cfg).jobs.dom());
}

/// Without a journal nothing is ever journaled.
pub proof fn no_journal_stays_empty(
    m: Model,
    now: Nanos,
    input: EngineInput,
    sys: SysSnapshot,
    out: Out,
)
    requires
        orderly(m),
        !m.cfg.journal,
    ensures
        m.apply_input(now, input, sys, out).0.journal == m.journal,
{
    let s = Since { on: false, journal: m.journal, stored: Map::empty() };
    assert(m.journal.take(m.journal.len() as int) =~= m.journal);
    lemma_taken_in(m, now, input, sys, out, s);
    let (n, o) = m.take_in(now, input, sys, out);
    lemma_ticked(n, now, o, s);
}

} // verus!
