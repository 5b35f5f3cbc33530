//! What happens depends on nothing but the state, the time and the input: not on
//! the replies that were sent before, and not on the host. Two runs of one
//! history end in the same state.

use crate::api::{ConnId, EngineInput, Nanos, SysSnapshot};
use crate::proto::{CommandView, JobId, PutRejection, ResponseView};
use crate::rules::{count_jobs, least, JobSel, Model, Out};
use vstd::prelude::*;

verus! {

/// Whether `x`, what a step does after the replies `out`, is what it does after
/// none, `y`, with its own replies behind those.
pub open spec fn adds(x: (Model, Out), y: (Model, Out), out: Out) -> bool {
    x.0 == y.0 && x.1 == out + y.1
}

/// No replies.
spec fn none() -> Out {
    Seq::empty()
}

/// One more reply, behind others.
proof fn lemma_push(out: Out)
    ensures
        out + none() == out,
        forall|p: (ConnId, ResponseView)| #[trigger] out.push(p) == out + none().push(p),
        forall|e: Out, p: (ConnId, ResponseView)| #[trigger] (out + e).push(p) == out + e.push(p),
{
    assert(out + none() =~= out);
    assert forall|p: (ConnId, ResponseView)| #[trigger] out.push(p) == out + none().push(p) by {
        assert(out.push(p) =~= out + none().push(p));
    }
    assert forall|e: Out, p: (ConnId, ResponseView)| #[trigger] (out + e).push(p) == out + e.push(
        p,
    ) by {
        assert((out + e).push(p) =~= out + e.push(p));
    }
}

/// A step and the rest, behind other replies.
proof fn lemma_then(x: (Model, Out), y: (Model, Out), z: (Model, Out), a: Out, b: Out)
    requires
        adds(x, z, a + b),
        adds(y, z, b),
    ensures
        adds(x, y, a),
{
    assert((a + b) + z.1 =~= a + (b + z.1));
}

proof fn lemma_dispatch(m: Model, now: Nanos, out: Out)
    ensures
        adds(m.dispatch(now, out), m.dispatch(now, none()), out),
    decreases count_jobs(m.jobs, JobSel::Ready),
{
    lemma_push(out);
    match m.next_awaited() {
        None => {},
        Some(id) => {
            let n = m.handing_over(id, now);
            let c = m.next_waiter(m.jobs[id].tube);
            let p = (c, ResponseView::Reserved { id, body: m.jobs[id].body });
            if count_jobs(n.jobs, JobSel::Ready) < count_jobs(m.jobs, JobSel::Ready) {
                lemma_dispatch(n, now, out.push(p));
                lemma_dispatch(n, now, none().push(p));
                assert(out.push(p) == out + none().push(p));
                lemma_then(
                    m.dispatch(now, out),
                    m.dispatch(now, none()),
                    n.dispatch(now, none()),
                    out,
                    none().push(p),
                );
            }
        },
    }
}

proof fn lemma_process(m: Model, now: Nanos, out: Out)
    ensures
        adds(m.process_queue(now, out), m.process_queue(now, none()), out),
{
    lemma_dispatch(m.unpaused(now), now, out);
}

proof fn lemma_release(m: Model, now: Nanos, out: Out)
    ensures
        adds(m.release_due(now, out), m.release_due(now, none()), out),
    decreases count_jobs(m.jobs, JobSel::Delayed),
{
    lemma_push(out);
    if let Some(id) = m.soonest_delayed() {
        if m.jobs[id].deadline_at <= now {
            let n = m.readying(id);
            lemma_process(n, now, out);
            let r = n.process_queue(now, out);
            let e = n.process_queue(now, none());
            if count_jobs(r.0.jobs, JobSel::Delayed) < count_jobs(m.jobs, JobSel::Delayed) {
                lemma_release(r.0, now, r.1);
                lemma_release(r.0, now, e.1);
                lemma_then(
                    m.release_due(now, out),
                    m.release_due(now, none()),
                    r.0.release_due(now, none()),
                    out,
                    e.1,
                );
            }
        }
    }
}

proof fn lemma_expire(m: Model, c: ConnId, now: Nanos, out: Out)
    ensures
        adds(m.expire(c, now, out), m.expire(c, now, none()), out),
    decreases count_jobs(m.jobs, JobSel::Overdue(now)),
{
    lemma_push(out);
    if let Some((d, id)) = m.soonest_reserved(c) {
        if d < now {
            let j = m.jobs[id];
            let n = (Model {
                timeout_ct: crate::rules::bump(m.timeout_ct),
                ..m
            }).without_job(id).with_job(
                crate::model::JobView {
                    state: crate::model::JobState::Ready,
                    reserver: None,
                    timeout_ct: crate::rules::bump32(j.timeout_ct),
                    ..j
                },
            );
            lemma_process(n, now, out);
            let r = n.process_queue(now, out);
            let e = n.process_queue(now, none());
            if count_jobs(r.0.jobs, JobSel::Overdue(now)) < count_jobs(
                m.jobs,
                JobSel::Overdue(now),
            ) {
                lemma_expire(r.0, c, now, r.1);
                lemma_expire(r.0, c, now, e.1);
                lemma_then(
                    m.expire(c, now, out),
                    m.expire(c, now, none()),
                    r.0.expire(c, now, none()),
                    out,
                    e.1,
                );
            }
        }
    }
}

proof fn lemma_attend(m: Model, c: ConnId, now: Nanos, out: Out)
    ensures
        adds(m.attend(c, now, out), m.attend(c, now, none()), out),
{
    lemma_push(out);
    lemma_expire(m, c, now, out);
}

proof fn lemma_attend_all(m: Model, done: Set<ConnId>, now: Nanos, out: Out)
    ensures
        adds(m.attend_all(done, now, out), m.attend_all(done, now, none()), out),
    decreases m.conns.dom().difference(done).len(),
{
    lemma_push(out);
    match least(m.due_conns(done, now)) {
        None => {},
        Some(p) => {
            lemma_attend(m, p.1, now, out);
            let r = m.attend(p.1, now, out);
            let e = m.attend(p.1, now, none());
            let after = done.insert(p.1);
            if r.0.conns.dom().difference(after).len() < m.conns.dom().difference(done).len() {
                lemma_attend_all(r.0, after, now, r.1);
                lemma_attend_all(r.0, after, now, e.1);
                lemma_then(
                    m.attend_all(done, now, out),
                    m.attend_all(done, now, none()),
                    r.0.attend_all(after, now, none()),
                    out,
                    e.1,
                );
            }
        },
    }
}

proof fn lemma_tick(m: Model, now: Nanos, out: Out)
    ensures
        adds(m.tick(now, out), m.tick(now, none()), out),
{
    lemma_release(m, now, out);
    let (m1, o1) = m.release_due(now, out);
    let e1 = m.release_due(now, none()).1;
    lemma_process(m1, now, o1);
    lemma_process(m1, now, e1);
    let (m2, o2) = if m1.pause_expired(now) {
        m1.process_queue(now, o1)
    } else {
        (m1, o1)
    };
    let e2 = if m1.pause_expired(now) {
        m1.process_queue(now, e1).1
    } else {
        e1
    };
    assert(o2 == out + e2) by {
        if m1.pause_expired(now) {
            lemma_then(
                m1.process_queue(now, o1),
                m1.process_queue(now, e1),
                m1.process_queue(now, none()),
                out,
                e1,
            );
        }
    }
    lemma_attend_all(m2, Set::empty(), now, o2);
    lemma_attend_all(m2, Set::empty(), now, e2);
    lemma_then(
        m.tick(now, out),
        m.tick(now, none()),
        m2.attend_all(Set::empty(), now, none()),
        out,
        e2,
    );
}

proof fn lemma_give_back(m: Model, ids: Seq<JobId>, i: nat, now: Nanos, out: Out)
    ensures
        adds(m.give_back(ids, i, now, out), m.give_back(ids, i, now, none()), out),
    decreases ids.len() - i,
{
    lemma_push(out);
    if i < ids.len() {
        let n = m.readying(ids[i as int]);
        lemma_process(n, now, out);
        let r = n.process_queue(now, out);
        let e = n.process_queue(now, none());
        lemma_give_back(r.0, ids, i + 1, now, r.1);
        lemma_give_back(r.0, ids, i + 1, now, e.1);
        lemma_then(
            m.give_back(ids, i, now, out),
            m.give_back(ids, i, now, none()),
            r.0.give_back(ids, i + 1, now, none()),
            out,
            e.1,
        );
    }
}

proof fn lemma_leaving(m: Model, c: ConnId, now: Nanos, why: PutRejection, out: Out)
    ensures
        adds(m.disconnect(c, now, out), m.disconnect(c, now, none()), out),
        adds(m.half_close(c, out), m.half_close(c, none()), out),
        adds(m.put_rejected(c, why, out), m.put_rejected(c, why, none()), out),
{
    lemma_push(out);
    let m1 = m.stop_waiting(c);
    lemma_give_back(m1, m1.conns[c].reserved, 0, now, out);
}

proof fn lemma_kicking(m: Model, id: JobId, now: Nanos, out: Out)
    ensures
        adds(m.kicking(id, now, out), m.kicking(id, now, none()), out),
{
    let j = m.jobs[id];
    let n = m.without_job(id).with_job(
        crate::model::JobView {
            state: crate::model::JobState::Ready,
            reserver: None,
            kick_ct: crate::rules::bump32(j.kick_ct),
            ..j
        },
    ).journaling_update(id);
    lemma_process(n, now, out);
}

proof fn lemma_kick_buried(m: Model, t: usize, n: nat, now: Nanos, out: Out)
    ensures
        ({
            let x = m.kick_buried(t, n, now, out);
            let y = m.kick_buried(t, n, now, none());
            adds((x.0, x.1), (y.0, y.1), out) && x.2 == y.2
        }),
    decreases n,
{
    lemma_push(out);
    if n > 0 && m.tube(t).buried.len() > 0 {
        let id = m.tube(t).buried[0];
        lemma_kicking(m, id, now, out);
        let r = m.kicking(id, now, out);
        let e = m.kicking(id, now, none());
        let k = (n - 1) as nat;
        lemma_kick_buried(r.0, t, k, now, r.1);
        lemma_kick_buried(r.0, t, k, now, e.1);
        let z = r.0.kick_buried(t, k, now, none());
        let x = m.kick_buried(t, n, now, out);
        let y = m.kick_buried(t, n, now, none());
        lemma_then((x.0, x.1), (y.0, y.1), (z.0, z.1), out, e.1);
    }
}

proof fn lemma_kick_delayed(m: Model, t: usize, n: nat, now: Nanos, out: Out)
    ensures
        ({
            let x = m.kick_delayed(t, n, now, out);
            let y = m.kick_delayed(t, n, now, none());
            adds((x.0, x.1), (y.0, y.1), out) && x.2 == y.2
        }),
    decreases n,
{
    lemma_push(out);
    if let Some(p) = least(crate::rules::delayed_set(m.jobs, t)) {
        if n > 0 {
            lemma_kicking(m, p.1, now, out);
            let r = m.kicking(p.1, now, out);
            let e = m.kicking(p.1, now, none());
            let k = (n - 1) as nat;
            lemma_kick_delayed(r.0, t, k, now, r.1);
            lemma_kick_delayed(r.0, t, k, now, e.1);
            let z = r.0.kick_delayed(t, k, now, none());
            let x = m.kick_delayed(t, n, now, out);
            let y = m.kick_delayed(t, n, now, none());
            lemma_then((x.0, x.1), (y.0, y.1), (z.0, z.1), out, e.1);
        }
    }
}

proof fn lemma_kick(m: Model, now: Nanos, c: ConnId, n: u32, id: JobId, out: Out)
    ensures
        adds(m.cmd_kick(now, c, n, out), m.cmd_kick(now, c, n, none()), out),
        adds(m.cmd_kick_job(now, c, id, out), m.cmd_kick_job(now, c, id, none()), out),
{
    lemma_push(out);
    let k = m.cmd_kick(now, c, n, out).0;
    assert forall|x: Model, t: usize|
        #![trigger x.kick_buried(t, n as nat, now, out)]
        ({
            let a = x.kick_buried(t, n as nat, now, out);
            let b = x.kick_buried(t, n as nat, now, none());
            a.0 == b.0 && a.1 == out + b.1 && a.2 == b.2
        }) by {
        lemma_kick_buried(x, t, n as nat, now, out);
    }
    assert forall|x: Model, t: usize|
        #![trigger x.kick_delayed(t, n as nat, now, out)]
        ({
            let a = x.kick_delayed(t, n as nat, now, out);
            let b = x.kick_delayed(t, n as nat, now, none());
            a.0 == b.0 && a.1 == out + b.1 && a.2 == b.2
        }) by {
        lemma_kick_delayed(x, t, n as nat, now, out);
    }
    lemma_kicking(m, id, now, out);
}

proof fn lemma_put(
    m: Model,
    now: Nanos,
    c: ConnId,
    pri: u32,
    delay: u32,
    ttr: u32,
    body: Seq<u8>,
    out: Out,
)
    ensures
        adds(
            m.cmd_put(now, c, pri, delay, ttr, body, out),
            m.cmd_put(now, c, pri, delay, ttr, body, none()),
            out,
        ),
{
    lemma_push(out);
    assert forall|x: Model| adds(
        #[trigger] x.process_queue(now, out),
        x.process_queue(now, none()),
        out,
    ) by {
        lemma_process(x, now, out);
    }
}

proof fn lemma_reserve(m: Model, now: Nanos, c: ConnId, timeout: Option<u32>, out: Out)
    ensures
        adds(m.cmd_reserve(now, c, timeout, out), m.cmd_reserve(now, c, timeout, none()), out),
{
    lemma_push(out);
    assert forall|x: Model| adds(
        #[trigger] x.process_queue(now, out),
        x.process_queue(now, none()),
        out,
    ) by {
        lemma_process(x, now, out);
    }
}

proof fn lemma_release_job(
    m: Model,
    now: Nanos,
    c: ConnId,
    id: JobId,
    pri: u32,
    delay: u32,
    out: Out,
)
    ensures
        adds(
            m.cmd_release(now, c, id, pri, delay, out),
            m.cmd_release(now, c, id, pri, delay, none()),
            out,
        ),
{
    lemma_push(out);
    assert forall|x: Model| adds(
        #[trigger] x.process_queue(now, out),
        x.process_queue(now, none()),
        out,
    ) by {
        lemma_process(x, now, out);
    }
}

proof fn lemma_handle(
    m: Model,
    now: Nanos,
    c: ConnId,
    cmd: CommandView,
    sys: SysSnapshot,
    any: SysSnapshot,
    out: Out,
)
    ensures
        adds(m.handle(now, c, cmd, sys, out), m.handle(now, c, cmd, sys, none()), out),
        m.handle(now, c, cmd, sys, out).0 == m.handle(now, c, cmd, any, out).0,
{
    lemma_push(out);
    match cmd {
        CommandView::Put { pri, delay, ttr, body } => lemma_put(
            m,
            now,
            c,
            pri,
            delay,
            ttr,
            body,
            out,
        ),
        CommandView::Reserve => lemma_reserve(m, now, c, None, out),
        CommandView::ReserveWithTimeout(s) => lemma_reserve(m, now, c, Some(s), out),
        CommandView::Release { id, pri, delay } => lemma_release_job(
            m,
            now,
            c,
            id,
            pri,
            delay,
            out,
        ),
        CommandView::Kick(n) => lemma_kick(m, now, c, n, 0, out),
        CommandView::KickJob(id) => lemma_kick(m, now, c, 0, id, out),
        _ => {},
    }
}

proof fn lemma_take_in(
    m: Model,
    now: Nanos,
    input: EngineInput,
    sys: SysSnapshot,
    any: SysSnapshot,
    out: Out,
)
    ensures
        adds(m.take_in(now, input, sys, out), m.take_in(now, input, sys, none()), out),
        m.take_in(now, input, sys, out).0 == m.take_in(now, input, any, out).0,
{
    lemma_push(out);
    match input {
        EngineInput::Disconnect(c) => lemma_leaving(m, c, now, PutRejection::JobTooBig, out),
        EngineInput::HalfClose(c) => lemma_leaving(m, c, now, PutRejection::JobTooBig, out),
        EngineInput::PutRejected { conn, why } => lemma_leaving(m, conn, now, why, out),
        EngineInput::Command { conn, cmd } => lemma_handle(m, now, conn, cmd@, sys, any, out),
        _ => {},
    }
}

/// An input adds replies behind those that were sent before, which have no
/// bearing on it; and neither they nor the host has any bearing on the state
/// that it leads to.
pub proof fn input_adds_to_the_replies(
    m: Model,
    now: Nanos,
    input: EngineInput,
    sys: SysSnapshot,
    any: SysSnapshot,
    out: Out,
)
    ensures
        adds(
            m.apply_input(now, input, sys, out),
            m.apply_input(now, input, sys, Seq::empty()),
            out,
        ),
        m.apply_input(now, input, sys, out).0 == m.apply_input(now, input, any, Seq::empty()).0,
{
    lemma_take_in(m, now, input, sys, any, out);
    lemma_take_in(m, now, input, any, sys, none());
    let (n, o) = m.take_in(now, input, sys, out);
    let e = m.take_in(now, input, sys, none()).1;
    let f = m.take_in(now, input, any, none()).1;
    lemma_tick(n, now, o);
    lemma_tick(n, now, e);
    lemma_tick(n, now, f);
    lemma_then(
        m.apply_input(now, input, sys, out),
        m.apply_input(now, input, sys, none()),
        n.tick(now, none()),
        out,
        e,
    );
}

impl Model {
    /// The state that an input leads to.
    pub open spec fn after(self, now: Nanos, input: EngineInput) -> Model {
        self.apply_input(now, input, arbitrary(), Seq::empty()).0
    }

    /// The state that inputs lead to, one after the other, each at its time.
    pub open spec fn after_all(self, history: Seq<(Nanos, EngineInput)>) -> Model
        decreases history.len(),
    {
        if history.len() == 0 {
            self
        } else {
            let last = history.last();
            self.after_all(history.drop_last()).after(last.0, last.1)
        }
    }
}

} // verus!
