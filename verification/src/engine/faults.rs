//! What can be wrong with a state from outside, in which order it is looked for,
//! and how it is told.

use super::state::{by_id, names_ascend, sorted, EngineState, Parts};
use crate::api::ConnId;
use crate::inv::{
    at, dispatchable_of, flag_ok, heads_of, is_head, live, pauses_of, tick_ok, ticks_of,
};
use crate::model::{conns_view, ConnState, JobState, JobView, TubeId, TubeState};
use crate::proto::{default_name, JobId, TubeName};
use crate::rules::{count_conns, count_jobs, ConnSel, JobSel};
use crate::text::{add_number, bytes_lt, digits};
use vstd::prelude::*;
use vstd::string::StringExecFns;
use vstd::utf8::{decode_utf8, encode_utf8_decode_utf8};

verus! {

/// How many slots hold a tube.
pub open spec fn live_count(tubes: Seq<Option<TubeState>>) -> nat
    decreases tubes.len(),
{
    if tubes.len() == 0 {
        0
    } else if tubes.last() is Some {
        live_count(tubes.drop_last()) + 1
    } else {
        live_count(tubes.drop_last())
    }
}

/// Whether `id` was given to the connection's put.
pub open spec fn pending(x: ConnState, id: JobId) -> bool {
    x.pending_put is Some && x.pending_put->0.id == Some(id)
}

/// Whether connection `c` waits on tube `t`.
pub open spec fn waits_on(conns: Map<ConnId, ConnState>, c: ConnId, t: TubeId) -> bool {
    conns.contains_key(c) && conns[c].waiting && conns[c].watch@.items.contains(t)
}

/// The jobs that connections list as their own.
pub open spec fn held_jobs(conns: Map<ConnId, ConnState>) -> Set<JobId> {
    Set::new(
        |id: JobId|
            exists|c: ConnId| #[trigger]
                conns.contains_key(c) && conns[c].reserved_fifo@.contains(id),
    )
}

/// The jobs that tubes list as buried.
pub open spec fn buried_jobs(tubes: Seq<Option<TubeState>>) -> Set<JobId> {
    Set::new(
        |id: JobId| exists|t: TubeId| #[trigger] live(tubes, t)
            && at(tubes, t).buried@.contains(id),
    )
}

/// Whether job `id` is in tube `t` and in state `s`.
pub open spec fn in_state(jobs: Map<JobId, JobView>, id: JobId, s: JobState, t: TubeId) -> bool {
    jobs.contains_key(id) && jobs[id].state == s && jobs[id].tube == t
}

/// Whether `x` stands in `s` at `i`.
pub open spec fn stands_at<T>(s: Seq<T>, i: usize, x: T) -> bool {
    i < s.len() && s[i as int] == x
}

/// Whether `x` stands in `s` at `i`, and before that too.
pub open spec fn stands_again_at<T>(s: Seq<T>, i: usize, x: T) -> bool {
    stands_at(s, i, x) && exists|k: int| 0 <= k < i && #[trigger] s[k] == x
}

/// Whether `a` comes before `b`: by the first number in which they differ.
pub open spec fn sooner(a: (int, int, int, int), b: (int, int, int, int)) -> bool {
    ||| a.0 < b.0
    ||| a.0 == b.0 && a.1 < b.1
    ||| a.0 == b.0 && a.1 == b.1 && a.2 < b.2
    ||| a.0 == b.0 && a.1 == b.1 && a.2 == b.2 && a.3 < b.3
}

/// Something wrong with the tubes' slab, their names, their list or the free list, or with the
/// next number.
#[derive(Debug)]
pub enum SlabFault {
    /// Slot 0 holds no tube.
    NoDefault,
    /// The tube in slot 0 is called something else.
    DefaultName { name: TubeName },
    /// The tube in slot 0 stands elsewhere in the list.
    DefaultPlace,
    /// The index of names does not lead to the tube.
    NotMapped { name: TubeName, tube: usize },
    /// The list does not name the tube at its position.
    NotPlaced { tube: usize, pos: usize },
    /// The index of names has an entry for no tube.
    NameCount { entries: usize, tubes: usize },
    /// The list has an entry for no tube.
    ListCount { entries: usize, tubes: usize },
    /// The free list is too long or too short.
    FreeCount { entries: usize, slots: usize },
    /// The free list names something else.
    FreeWrong { index: usize, tube: usize },
    /// The free list names a slot again.
    FreeTwice { index: usize, tube: usize },
    /// The next number is not one that a job can have.
    NextZero,
}

impl SlabFault {
    /// Whether this is wrong in parts that should agree.
    pub open spec fn upsets(self, p: Parts) -> bool {
        match self {
            SlabFault::NoDefault => !live(p.tubes, 0),
            SlabFault::DefaultName { name } => {
                &&& live(p.tubes, 0)
                &&& at(p.tubes, 0).name@ == name@
                &&& name@ != default_name()
            },
            SlabFault::DefaultPlace => live(p.tubes, 0) && at(p.tubes, 0).pos != 0,
            SlabFault::NotMapped { name, tube } => {
                &&& live(p.tubes, tube)
                &&& at(p.tubes, tube).name@ == name@
                &&& forall|i: int|
                    0 <= i < p.names.len() ==> !((#[trigger] p.names[i]).0@ == name@ && p.names[i].1
                        == tube)
            },
            SlabFault::NotPlaced { tube, pos } => {
                &&& live(p.tubes, tube)
                &&& at(p.tubes, tube).pos == pos
                &&& !(pos < p.order.len() && p.order[pos as int] == tube)
            },
            SlabFault::NameCount { entries, tubes } => {
                &&& entries == p.names.len()
                &&& tubes == live_count(p.tubes)
                &&& exists|i: int|
                    0 <= i < p.names.len() && !(live(p.tubes, (#[trigger] p.names[i]).1) && at(
                        p.tubes,
                        p.names[i].1,
                    ).name@ == p.names[i].0@)
            },
            SlabFault::ListCount { entries, tubes } => {
                &&& entries == p.order.len()
                &&& tubes == live_count(p.tubes)
                &&& exists|i: int|
                    0 <= i < p.order.len() && !(live(p.tubes, #[trigger] p.order[i]) && at(
                        p.tubes,
                        p.order[i],
                    ).pos == i)
            },
            SlabFault::FreeCount { entries, slots } => {
                &&& entries == p.free.len()
                &&& slots == p.tubes.len() - live_count(p.tubes)
                &&& entries != slots
            },
            SlabFault::FreeWrong { index, tube } => {
                &&& stands_at(p.free, index, tube)
                &&& !(tube < p.tubes.len() && !live(p.tubes, tube))
            },
            SlabFault::FreeTwice { index, tube } => stands_again_at(p.free, index, tube),
            SlabFault::NextZero => p.next == 0,
        }
    }

    /// When it is looked for: at which step, at which entry of a list or set, and
    /// at which look there.
    pub open spec fn place(self) -> (int, int, int, int) {
        match self {
            SlabFault::NoDefault => (0, 0, 0, 0),
            SlabFault::DefaultName { name: _ } => (1, 0, 0, 0),
            SlabFault::DefaultPlace => (2, 0, 0, 0),
            SlabFault::NotMapped { name: _, tube } => (3, tube as int, 0, 0),
            SlabFault::NotPlaced { tube, pos: _ } => (3, tube as int, 0, 1),
            SlabFault::NameCount { entries: _, tubes: _ } => (4, 0, 0, 0),
            SlabFault::ListCount { entries: _, tubes: _ } => (5, 0, 0, 0),
            SlabFault::FreeCount { entries: _, slots: _ } => (6, 0, 0, 0),
            SlabFault::FreeWrong { index, tube: _ } => (7, index as int, 0, 0),
            SlabFault::FreeTwice { index, tube: _ } => (7, index as int, 0, 1),
            SlabFault::NextZero => (8, 0, 0, 0),
        }
    }

    /// Whether this is the first thing wrong.
    pub open spec fn first_in(self, p: Parts) -> bool {
        &&& self.upsets(p)
        &&& forall|g: SlabFault| #[trigger] g.upsets(p) ==> !sooner(g.place(), self.place())
    }

    /// Whether nothing is wrong before step `step`.
    pub open spec fn clear_below(p: Parts, step: int) -> bool {
        forall|g: SlabFault| #[trigger] g.upsets(p) ==> g.place().0 >= step
    }

    /// The words for it.
    pub open spec fn says(self) -> Seq<char> {
        match self {
            SlabFault::NoDefault => "tube 0 (default) is missing"@,
            SlabFault::DefaultName { name } => "tube 0 is TubeName(\""@ + decode_utf8(name@)
                + "\"), not default"@,
            SlabFault::DefaultPlace => "default tube is not first in the tube list"@,
            SlabFault::NotMapped { name, tube } => "tube_ids does not map TubeName(\""@
                + decode_utf8(name@) + "\") to tube "@ + digits(tube as nat),
            SlabFault::NotPlaced { tube, pos } => "tube "@ + digits(tube as nat)
                + " is not at its position "@ + digits(pos as nat) + " in the tube list"@,
            SlabFault::NameCount { entries, tubes } => "tube_ids has "@ + digits(entries as nat)
                + " entries for "@ + digits(tubes as nat) + " tubes"@,
            SlabFault::ListCount { entries, tubes } => "tube list has "@ + digits(entries as nat)
                + " entries for "@ + digits(tubes as nat) + " tubes"@,
            SlabFault::FreeCount { entries, slots } => "free list has "@ + digits(entries as nat)
                + " entries for "@ + digits(slots as nat) + " free slots"@,
            SlabFault::FreeWrong { index: _, tube } => "free list names tube "@
                + digits(tube as nat) + ", which is not a free slot"@,
            SlabFault::FreeTwice { index: _, tube } => "free list repeats tube "@
                + digits(tube as nat),
            SlabFault::NextZero => "next job id is 0"@,
        }
    }

    /// The text for it.
    pub fn text(&self) -> (r: String)
        ensures
            r@ == self.says(),
    {
        match self {
            SlabFault::NoDefault => "tube 0 (default) is missing".to_owned(),
            SlabFault::DefaultName { name } => {
                let mut r = "tube 0 is TubeName(\"".to_owned();
                add_name(&mut r, name);
                r.append("\"), not default");
                r
            },
            SlabFault::DefaultPlace => "default tube is not first in the tube list".to_owned(),
            SlabFault::NotMapped { name, tube } => {
                let mut r = "tube_ids does not map TubeName(\"".to_owned();
                add_name(&mut r, name);
                r.append("\") to tube ");
                add_number(&mut r, *tube as u64);
                r
            },
            SlabFault::NotPlaced { tube, pos } => {
                let mut r = "tube ".to_owned();
                add_number(&mut r, *tube as u64);
                r.append(" is not at its position ");
                add_number(&mut r, *pos as u64);
                r.append(" in the tube list");
                r
            },
            SlabFault::NameCount { entries, tubes } => {
                let mut r = "tube_ids has ".to_owned();
                add_number(&mut r, *entries as u64);
                r.append(" entries for ");
                add_number(&mut r, *tubes as u64);
                r.append(" tubes");
                r
            },
            SlabFault::ListCount { entries, tubes } => {
                let mut r = "tube list has ".to_owned();
                add_number(&mut r, *entries as u64);
                r.append(" entries for ");
                add_number(&mut r, *tubes as u64);
                r.append(" tubes");
                r
            },
            SlabFault::FreeCount { entries, slots } => {
                let mut r = "free list has ".to_owned();
                add_number(&mut r, *entries as u64);
                r.append(" entries for ");
                add_number(&mut r, *slots as u64);
                r.append(" free slots");
                r
            },
            SlabFault::FreeWrong { index: _, tube } => {
                let mut r = "free list names tube ".to_owned();
                add_number(&mut r, *tube as u64);
                r.append(", which is not a free slot");
                r
            },
            SlabFault::FreeTwice { index: _, tube } => {
                let mut r = "free list repeats tube ".to_owned();
                add_number(&mut r, *tube as u64);
                r
            },
            SlabFault::NextZero => "next job id is 0".to_owned(),
        }
    }
}

/// Something wrong with one connection.
#[derive(Debug)]
pub enum ConnFault {
    /// The tube that it uses is not there.
    UsesMissing { tube: usize },
    /// It watches nothing.
    WatchesNone,
    /// A tube that it watches is not there.
    WatchesMissing { index: usize, tube: usize },
    /// It lists a tube again.
    WatchesTwice { index: usize, tube: usize },
    /// It does not wait and has an end of its wait.
    IdleDeadline,
    /// The number given to its put has not been handed out.
    PendingHigh { id: u64, next: u64 },
    /// The number given to its put has been used.
    PendingLive { id: u64 },
    /// The number given to its put was given to an earlier connection's.
    PendingShared { id: u64 },
    /// Its list of jobs and its index of deadlines have different sizes.
    ListsDiffer,
    /// It lists a job again.
    ReservesTwice { index: usize, id: u64 },
    /// A job that it lists is not there.
    ReservesMissing { index: usize, id: u64 },
    /// A job that it lists is not its own.
    NotReserved { index: usize, id: u64 },
    /// An entry of its index is not in its list.
    DeadlineOnly { due: u64, id: u64 },
    /// An entry of its index has the wrong deadline.
    DeadlineStale { due: u64, id: u64 },
    /// Its own record of its tick is wrong.
    TickKey,
}

impl ConnFault {
    /// Whether this is wrong about connection `conn` in parts that should agree.
    pub open spec fn upsets(self, p: Parts, conn: ConnId) -> bool {
        match self {
            ConnFault::UsesMissing { tube } => {
                &&& p.conns.contains_key(conn)
                &&& p.conns[conn].use_tube == tube
                &&& !live(p.tubes, tube)
            },
            ConnFault::WatchesNone => {
                &&& p.conns.contains_key(conn)
                &&& p.conns[conn].watch@.items.len() == 0
            },
            ConnFault::WatchesMissing { index, tube } => {
                &&& p.conns.contains_key(conn)
                &&& stands_at(p.conns[conn].watch@.items, index, tube)
                &&& !live(p.tubes, tube)
            },
            ConnFault::WatchesTwice { index, tube } => {
                &&& p.conns.contains_key(conn)
                &&& stands_again_at(p.conns[conn].watch@.items, index, tube)
            },
            ConnFault::IdleDeadline => {
                &&& p.conns.contains_key(conn)
                &&& !p.conns[conn].waiting
                &&& p.conns[conn].wait_deadline is Some
            },
            ConnFault::PendingHigh { id, next } => {
                &&& p.conns.contains_key(conn)
                &&& pending(p.conns[conn], id)
                &&& next == p.next
                &&& id >= next
            },
            ConnFault::PendingLive { id } => {
                &&& p.conns.contains_key(conn)
                &&& pending(p.conns[conn], id)
                &&& p.jobs.contains_key(id)
            },
            ConnFault::PendingShared { id } => {
                &&& p.conns.contains_key(conn)
                &&& pending(p.conns[conn], id)
                &&& exists|b: ConnId|
                    b < conn && #[trigger] p.conns.contains_key(b) && pending(p.conns[b], id)
            },
            ConnFault::ListsDiffer => {
                &&& p.conns.contains_key(conn)
                &&& p.conns[conn].reserved_fifo@.len() != p.conns[conn].reserved_by_deadline@.len()
            },
            ConnFault::ReservesTwice { index, id } => {
                &&& p.conns.contains_key(conn)
                &&& stands_again_at(p.conns[conn].reserved_fifo@, index, id)
            },
            ConnFault::ReservesMissing { index, id } => {
                &&& p.conns.contains_key(conn)
                &&& stands_at(p.conns[conn].reserved_fifo@, index, id)
                &&& !p.jobs.contains_key(id)
            },
            ConnFault::NotReserved { index, id } => {
                &&& p.conns.contains_key(conn)
                &&& stands_at(p.conns[conn].reserved_fifo@, index, id)
                &&& p.jobs.contains_key(id)
                &&& !(p.jobs[id].state == JobState::Reserved && p.jobs[id].reserver == Some(conn))
            },
            ConnFault::DeadlineOnly { due, id } => {
                &&& p.conns.contains_key(conn)
                &&& p.conns[conn].reserved_by_deadline@.contains((due, id))
                &&& !p.conns[conn].reserved_fifo@.contains(id)
            },
            ConnFault::DeadlineStale { due, id } => {
                &&& p.conns.contains_key(conn)
                &&& p.conns[conn].reserved_by_deadline@.contains((due, id))
                &&& !(p.jobs.contains_key(id) && p.jobs[id].deadline_at == due)
            },
            ConnFault::TickKey => p.conns.contains_key(conn) && !tick_ok(p.conns[conn]),
        }
    }

    /// When it is looked for: at which step, at which entry of a list or set, and
    /// at which look there.
    pub open spec fn place(self) -> (int, int, int, int) {
        match self {
            ConnFault::UsesMissing { tube: _ } => (0, 0, 0, 0),
            ConnFault::WatchesNone => (1, 0, 0, 0),
            ConnFault::WatchesMissing { index, tube: _ } => (2, index as int, 0, 0),
            ConnFault::WatchesTwice { index, tube: _ } => (2, index as int, 0, 1),
            ConnFault::IdleDeadline => (3, 0, 0, 0),
            ConnFault::PendingHigh { id: _, next: _ } => (4, 0, 0, 0),
            ConnFault::PendingLive { id: _ } => (5, 0, 0, 0),
            ConnFault::PendingShared { id: _ } => (6, 0, 0, 0),
            ConnFault::ListsDiffer => (7, 0, 0, 0),
            ConnFault::ReservesTwice { index, id: _ } => (8, index as int, 0, 0),
            ConnFault::ReservesMissing { index, id: _ } => (8, index as int, 0, 1),
            ConnFault::NotReserved { index, id: _ } => (8, index as int, 0, 2),
            ConnFault::DeadlineOnly { due, id } => (9, due as int, id as int, 0),
            ConnFault::DeadlineStale { due, id } => (9, due as int, id as int, 1),
            ConnFault::TickKey => (10, 0, 0, 0),
        }
    }

    /// Whether this is the first thing wrong about connection `conn`.
    pub open spec fn first_in(self, p: Parts, conn: ConnId) -> bool {
        &&& self.upsets(p, conn)
        &&& forall|g: ConnFault| #[trigger] g.upsets(p, conn) ==> !sooner(g.place(), self.place())
    }

    /// Whether nothing is wrong about connection `conn` before step `step`.
    pub open spec fn clear_below(p: Parts, conn: ConnId, step: int) -> bool {
        forall|g: ConnFault| #[trigger] g.upsets(p, conn) ==> g.place().0 >= step
    }

    /// The words for it.
    pub open spec fn says(self, conn: ConnId) -> Seq<char> {
        match self {
            ConnFault::UsesMissing { tube } => "conn "@ + digits(conn as nat)
                + " uses missing tube "@ + digits(tube as nat),
            ConnFault::WatchesNone => "conn "@ + digits(conn as nat) + " watches no tube"@,
            ConnFault::WatchesMissing { index: _, tube } => "conn "@ + digits(conn as nat)
                + " watches missing tube "@ + digits(tube as nat),
            ConnFault::WatchesTwice { index: _, tube } => "conn "@ + digits(conn as nat)
                + " watches tube "@ + digits(tube as nat) + " twice"@,
            ConnFault::IdleDeadline => "conn "@ + digits(conn as nat)
                + " has a wait deadline but is not waiting"@,
            ConnFault::PendingHigh { id, next } => "conn "@ + digits(conn as nat)
                + " has pending job id "@ + digits(id as nat) + " >= next id "@
                + digits(next as nat),
            ConnFault::PendingLive { id } => "conn "@ + digits(conn as nat)
                + " has pending job id "@ + digits(id as nat) + ", which is a live job"@,
            ConnFault::PendingShared { id } => "pending job id "@ + digits(id as nat)
                + " is shared"@,
            ConnFault::ListsDiffer => "conn "@ + digits(conn as nat)
                + ": reservation lists differ in length"@,
            ConnFault::ReservesTwice { index: _, id } => "conn "@ + digits(conn as nat)
                + " reserves job "@ + digits(id as nat) + " twice"@,
            ConnFault::ReservesMissing { index: _, id } => "conn "@ + digits(conn as nat)
                + " reserves missing job "@ + digits(id as nat),
            ConnFault::NotReserved { index: _, id } => "conn "@ + digits(conn as nat)
                + " lists job "@ + digits(id as nat) + ", which it has not reserved"@,
            ConnFault::DeadlineOnly { due: _, id } => "conn "@ + digits(conn as nat) + ": job "@
                + digits(id as nat) + " is in the deadline index only"@,
            ConnFault::DeadlineStale { due: _, id } => "conn "@ + digits(conn as nat)
                + ": stale deadline for job "@ + digits(id as nat),
            ConnFault::TickKey => "tick_key of conn "@ + digits(conn as nat) + " is stale"@,
        }
    }

    /// The text for it.
    pub fn text(&self, conn: ConnId) -> (r: String)
        ensures
            r@ == self.says(conn),
    {
        match self {
            ConnFault::UsesMissing { tube } => {
                let mut r = "conn ".to_owned();
                add_number(&mut r, conn);
                r.append(" uses missing tube ");
                add_number(&mut r, *tube as u64);
                r
            },
            ConnFault::WatchesNone => {
                let mut r = "conn ".to_owned();
                add_number(&mut r, conn);
                r.append(" watches no tube");
                r
            },
            ConnFault::WatchesMissing { index: _, tube } => {
                let mut r = "conn ".to_owned();
                add_number(&mut r, conn);
                r.append(" watches missing tube ");
                add_number(&mut r, *tube as u64);
                r
            },
            ConnFault::WatchesTwice { index: _, tube } => {
                let mut r = "conn ".to_owned();
                add_number(&mut r, conn);
                r.append(" watches tube ");
                add_number(&mut r, *tube as u64);
                r.append(" twice");
                r
            },
            ConnFault::IdleDeadline => {
                let mut r = "conn ".to_owned();
                add_number(&mut r, conn);
                r.append(" has a wait deadline but is not waiting");
                r
            },
            ConnFault::PendingHigh { id, next } => {
                let mut r = "conn ".to_owned();
                add_number(&mut r, conn);
                r.append(" has pending job id ");
                add_number(&mut r, *id);
                r.append(" >= next id ");
                add_number(&mut r, *next);
                r
            },
            ConnFault::PendingLive { id } => {
                let mut r = "conn ".to_owned();
                add_number(&mut r, conn);
                r.append(" has pending job id ");
                add_number(&mut r, *id);
                r.append(", which is a live job");
                r
            },
            ConnFault::PendingShared { id } => {
                let mut r = "pending job id ".to_owned();
                add_number(&mut r, *id);
                r.append(" is shared");
                r
            },
            ConnFault::ListsDiffer => {
                let mut r = "conn ".to_owned();
                add_number(&mut r, conn);
                r.append(": reservation lists differ in length");
                r
            },
            ConnFault::ReservesTwice { index: _, id } => {
                let mut r = "conn ".to_owned();
                add_number(&mut r, conn);
                r.append(" reserves job ");
                add_number(&mut r, *id);
                r.append(" twice");
                r
            },
            ConnFault::ReservesMissing { index: _, id } => {
                let mut r = "conn ".to_owned();
                add_number(&mut r, conn);
                r.append(" reserves missing job ");
                add_number(&mut r, *id);
                r
            },
            ConnFault::NotReserved { index: _, id } => {
                let mut r = "conn ".to_owned();
                add_number(&mut r, conn);
                r.append(" lists job ");
                add_number(&mut r, *id);
                r.append(", which it has not reserved");
                r
            },
            ConnFault::DeadlineOnly { due: _, id } => {
                let mut r = "conn ".to_owned();
                add_number(&mut r, conn);
                r.append(": job ");
                add_number(&mut r, *id);
                r.append(" is in the deadline index only");
                r
            },
            ConnFault::DeadlineStale { due: _, id } => {
                let mut r = "conn ".to_owned();
                add_number(&mut r, conn);
                r.append(": stale deadline for job ");
                add_number(&mut r, *id);
                r
            },
            ConnFault::TickKey => {
                let mut r = "tick_key of conn ".to_owned();
                add_number(&mut r, conn);
                r.append(" is stale");
                r
            },
        }
    }
}

/// Something wrong with what is recorded of all connections.
#[derive(Debug)]
pub enum ConnsFault {
    /// The index of ticks is wrong.
    Ticks,
    /// The connections are miscounted.
    Current { count: u64, conns: usize },
    /// More connections are there than ever were.
    Total,
    /// The producers are miscounted.
    Producers { count: u64, found: u64 },
    /// The workers are miscounted.
    Workers { count: u64, found: u64 },
    /// The waiting connections are miscounted.
    Waiting { count: u64, found: u64 },
}

impl ConnsFault {
    /// Whether this is wrong in parts that should agree.
    pub open spec fn upsets(self, p: Parts) -> bool {
        match self {
            ConnsFault::Ticks => p.conn_ticks != ticks_of(p.conns),
            ConnsFault::Current { count, conns } => {
                &&& count == p.tallies.cur_conns
                &&& conns == p.conns.dom().len()
                &&& count != conns
            },
            ConnsFault::Total => p.tot_conns < p.tallies.cur_conns,
            ConnsFault::Producers { count, found } => {
                &&& count == p.tallies.cur_producers
                &&& found == count_conns(conns_view(p.conns), ConnSel::Producer)
                &&& count != found
            },
            ConnsFault::Workers { count, found } => {
                &&& count == p.tallies.cur_workers
                &&& found == count_conns(conns_view(p.conns), ConnSel::Worker)
                &&& count != found
            },
            ConnsFault::Waiting { count, found } => {
                &&& count == p.tallies.waiting_ct
                &&& found == count_conns(conns_view(p.conns), ConnSel::Waiting)
                &&& count != found
            },
        }
    }

    /// When it is looked for: at which step, at which entry of a list or set, and
    /// at which look there.
    pub open spec fn place(self) -> (int, int, int, int) {
        match self {
            ConnsFault::Ticks => (0, 0, 0, 0),
            ConnsFault::Current { count: _, conns: _ } => (1, 0, 0, 0),
            ConnsFault::Total => (2, 0, 0, 0),
            ConnsFault::Producers { count: _, found: _ } => (3, 0, 0, 0),
            ConnsFault::Workers { count: _, found: _ } => (4, 0, 0, 0),
            ConnsFault::Waiting { count: _, found: _ } => (5, 0, 0, 0),
        }
    }

    /// Whether this is the first thing wrong.
    pub open spec fn first_in(self, p: Parts) -> bool {
        &&& self.upsets(p)
        &&& forall|g: ConnsFault| #[trigger] g.upsets(p) ==> !sooner(g.place(), self.place())
    }

    /// Whether nothing is wrong before step `step`.
    pub open spec fn clear_below(p: Parts, step: int) -> bool {
        forall|g: ConnsFault| #[trigger] g.upsets(p) ==> g.place().0 >= step
    }

    /// The words for it.
    pub open spec fn says(self) -> Seq<char> {
        match self {
            ConnsFault::Ticks => "conn_ticks index is stale"@,
            ConnsFault::Current { count, conns } => "cur_conns is "@ + digits(count as nat)
                + " for "@ + digits(conns as nat) + " conns"@,
            ConnsFault::Total => "tot_conns below cur_conns"@,
            ConnsFault::Producers { count, found } => "cur_producers is "@ + digits(count as nat)
                + ", recomputed "@ + digits(found as nat),
            ConnsFault::Workers { count, found } => "cur_workers is "@ + digits(count as nat)
                + ", recomputed "@ + digits(found as nat),
            ConnsFault::Waiting { count, found } => "waiting_ct is "@ + digits(count as nat)
                + ", recomputed "@ + digits(found as nat),
        }
    }

    /// The text for it.
    pub fn text(&self) -> (r: String)
        ensures
            r@ == self.says(),
    {
        match self {
            ConnsFault::Ticks => "conn_ticks index is stale".to_owned(),
            ConnsFault::Current { count, conns } => {
                let mut r = "cur_conns is ".to_owned();
                add_number(&mut r, *count);
                r.append(" for ");
                add_number(&mut r, *conns as u64);
                r.append(" conns");
                r
            },
            ConnsFault::Total => "tot_conns below cur_conns".to_owned(),
            ConnsFault::Producers { count, found } => {
                let mut r = "cur_producers is ".to_owned();
                add_number(&mut r, *count);
                r.append(", recomputed ");
                add_number(&mut r, *found);
                r
            },
            ConnsFault::Workers { count, found } => {
                let mut r = "cur_workers is ".to_owned();
                add_number(&mut r, *count);
                r.append(", recomputed ");
                add_number(&mut r, *found);
                r
            },
            ConnsFault::Waiting { count, found } => {
                let mut r = "waiting_ct is ".to_owned();
                add_number(&mut r, *count);
                r.append(", recomputed ");
                add_number(&mut r, *found);
                r
            },
        }
    }
}

/// Something wrong with one job.
#[derive(Debug)]
pub enum JobFault {
    /// It is stored under another's number.
    StoredUnder { own: u64 },
    /// Its number has not been handed out.
    High { next: u64 },
    /// It may not be held at all.
    NoTtr,
    /// Its tube is not there.
    NoTube { tube: usize },
    /// It is reserved and nobody holds it.
    NoReserver,
    /// Its holder is not there.
    ReserverMissing { conn: u64 },
    /// It is not reserved and somebody holds it.
    HasReserver,
    /// It is ready and not listed.
    ReadyUnlisted,
    /// It is delayed and not listed.
    DelayedUnlisted,
}

impl JobFault {
    /// Whether this is wrong about the job stored under `id` in parts that should agree.
    pub open spec fn upsets(self, p: Parts, id: JobId) -> bool {
        match self {
            JobFault::StoredUnder { own } => {
                &&& p.jobs.contains_key(id)
                &&& p.jobs[id].id == own
                &&& own != id
            },
            JobFault::High { next } => p.jobs.contains_key(id) && next == p.next && id >= next,
            JobFault::NoTtr => p.jobs.contains_key(id) && p.jobs[id].ttr == 0,
            JobFault::NoTube { tube } => {
                &&& p.jobs.contains_key(id)
                &&& p.jobs[id].tube == tube
                &&& !live(p.tubes, tube)
            },
            JobFault::NoReserver => {
                &&& p.jobs.contains_key(id)
                &&& p.jobs[id].state == JobState::Reserved
                &&& p.jobs[id].reserver is None
            },
            JobFault::ReserverMissing { conn } => {
                &&& p.jobs.contains_key(id)
                &&& p.jobs[id].state == JobState::Reserved
                &&& p.jobs[id].reserver == Some(conn)
                &&& !p.conns.contains_key(conn)
            },
            JobFault::HasReserver => {
                &&& p.jobs.contains_key(id)
                &&& p.jobs[id].state != JobState::Reserved
                &&& p.jobs[id].reserver is Some
            },
            JobFault::ReadyUnlisted => {
                &&& p.jobs.contains_key(id)
                &&& p.jobs[id].state == JobState::Ready
                &&& !at(p.tubes, p.jobs[id].tube).ready@.contains((p.jobs[id].pri, id))
            },
            JobFault::DelayedUnlisted => {
                &&& p.jobs.contains_key(id)
                &&& p.jobs[id].state == JobState::Delayed
                &&& !at(p.tubes, p.jobs[id].tube).delayed@.contains((p.jobs[id].deadline_at, id))
            },
        }
    }

    /// When it is looked for: at which step, at which entry of a list or set, and
    /// at which look there.
    pub open spec fn place(self) -> (int, int, int, int) {
        match self {
            JobFault::StoredUnder { own: _ } => (0, 0, 0, 0),
            JobFault::High { next: _ } => (1, 0, 0, 0),
            JobFault::NoTtr => (2, 0, 0, 0),
            JobFault::NoTube { tube: _ } => (3, 0, 0, 0),
            JobFault::NoReserver => (4, 0, 0, 0),
            JobFault::ReserverMissing { conn: _ } => (5, 0, 0, 0),
            JobFault::HasReserver => (6, 0, 0, 0),
            JobFault::ReadyUnlisted => (7, 0, 0, 0),
            JobFault::DelayedUnlisted => (8, 0, 0, 0),
        }
    }

    /// Whether this is the first thing wrong about the job stored under `id`.
    pub open spec fn first_in(self, p: Parts, id: JobId) -> bool {
        &&& self.upsets(p, id)
        &&& forall|g: JobFault| #[trigger] g.upsets(p, id) ==> !sooner(g.place(), self.place())
    }

    /// Whether nothing is wrong about the job stored under `id` before step `step`.
    pub open spec fn clear_below(p: Parts, id: JobId, step: int) -> bool {
        forall|g: JobFault| #[trigger] g.upsets(p, id) ==> g.place().0 >= step
    }

    /// The words for it.
    pub open spec fn says(self, id: JobId) -> Seq<char> {
        match self {
            JobFault::StoredUnder { own } => "job stored under id "@ + digits(id as nat)
                + " has id "@ + digits(own as nat),
            JobFault::High { next } => "job "@ + digits(id as nat) + " is not below next id "@
                + digits(next as nat),
            JobFault::NoTtr => "job "@ + digits(id as nat) + " has ttr 0"@,
            JobFault::NoTube { tube } => "job "@ + digits(id as nat) + " is in missing tube "@
                + digits(tube as nat),
            JobFault::NoReserver => "reserved job "@ + digits(id as nat) + " has no reserver"@,
            JobFault::ReserverMissing { conn } => "job "@ + digits(id as nat)
                + " is reserved by missing conn "@ + digits(conn as nat),
            JobFault::HasReserver => "unreserved job "@ + digits(id as nat) + " has a reserver"@,
            JobFault::ReadyUnlisted => "ready job "@ + digits(id as nat)
                + " is not in its tube's ready set"@,
            JobFault::DelayedUnlisted => "delayed job "@ + digits(id as nat)
                + " is not in its tube's delayed set"@,
        }
    }

    /// The text for it.
    pub fn text(&self, id: JobId) -> (r: String)
        ensures
            r@ == self.says(id),
    {
        match self {
            JobFault::StoredUnder { own } => {
                let mut r = "job stored under id ".to_owned();
                add_number(&mut r, id);
                r.append(" has id ");
                add_number(&mut r, *own);
                r
            },
            JobFault::High { next } => {
                let mut r = "job ".to_owned();
                add_number(&mut r, id);
                r.append(" is not below next id ");
                add_number(&mut r, *next);
                r
            },
            JobFault::NoTtr => {
                let mut r = "job ".to_owned();
                add_number(&mut r, id);
                r.append(" has ttr 0");
                r
            },
            JobFault::NoTube { tube } => {
                let mut r = "job ".to_owned();
                add_number(&mut r, id);
                r.append(" is in missing tube ");
                add_number(&mut r, *tube as u64);
                r
            },
            JobFault::NoReserver => {
                let mut r = "reserved job ".to_owned();
                add_number(&mut r, id);
                r.append(" has no reserver");
                r
            },
            JobFault::ReserverMissing { conn } => {
                let mut r = "job ".to_owned();
                add_number(&mut r, id);
                r.append(" is reserved by missing conn ");
                add_number(&mut r, *conn);
                r
            },
            JobFault::HasReserver => {
                let mut r = "unreserved job ".to_owned();
                add_number(&mut r, id);
                r.append(" has a reserver");
                r
            },
            JobFault::ReadyUnlisted => {
                let mut r = "ready job ".to_owned();
                add_number(&mut r, id);
                r.append(" is not in its tube's ready set");
                r
            },
            JobFault::DelayedUnlisted => {
                let mut r = "delayed job ".to_owned();
                add_number(&mut r, id);
                r.append(" is not in its tube's delayed set");
                r
            },
        }
    }
}

/// Something wrong with the reserved jobs together.
#[derive(Debug)]
pub enum HeldFault {
    /// A reserved job is not in its holder's list.
    Entries { entries: usize, jobs: u64 },
    /// The reserved jobs are miscounted.
    Total { count: u64, found: u64 },
}

impl HeldFault {
    /// Whether this is wrong in parts that should agree.
    pub open spec fn upsets(self, p: Parts) -> bool {
        match self {
            HeldFault::Entries { entries, jobs } => {
                &&& entries == held_jobs(p.conns).len()
                &&& jobs == count_jobs(p.jobs, JobSel::Reserved)
                &&& exists|id: JobId| #[trigger]
                    p.jobs.contains_key(id) && p.jobs[id].state == JobState::Reserved
                        && !held_jobs(p.conns).contains(id)
            },
            HeldFault::Total { count, found } => {
                &&& count == p.tallies.reserved_ct
                &&& found == count_jobs(p.jobs, JobSel::Reserved)
                &&& count != found
            },
        }
    }

    /// When it is looked for: at which step, at which entry of a list or set, and
    /// at which look there.
    pub open spec fn place(self) -> (int, int, int, int) {
        match self {
            HeldFault::Entries { entries: _, jobs: _ } => (0, 0, 0, 0),
            HeldFault::Total { count: _, found: _ } => (1, 0, 0, 0),
        }
    }

    /// Whether this is the first thing wrong.
    pub open spec fn first_in(self, p: Parts) -> bool {
        &&& self.upsets(p)
        &&& forall|g: HeldFault| #[trigger] g.upsets(p) ==> !sooner(g.place(), self.place())
    }

    /// Whether nothing is wrong before step `step`.
    pub open spec fn clear_below(p: Parts, step: int) -> bool {
        forall|g: HeldFault| #[trigger] g.upsets(p) ==> g.place().0 >= step
    }

    /// The words for it.
    pub open spec fn says(self) -> Seq<char> {
        match self {
            HeldFault::Entries { entries, jobs } => digits(entries as nat)
                + " reservation entries for "@ + digits(jobs as nat) + " reserved jobs"@,
            HeldFault::Total { count, found } => "reserved_ct is "@ + digits(count as nat)
                + ", recomputed "@ + digits(found as nat),
        }
    }

    /// The text for it.
    pub fn text(&self) -> (r: String)
        ensures
            r@ == self.says(),
    {
        match self {
            HeldFault::Entries { entries, jobs } => {
                let mut r = String::new();
                add_number(&mut r, *entries as u64);
                assert(r@ =~= digits(*entries as nat));
                r.append(" reservation entries for ");
                add_number(&mut r, *jobs);
                r.append(" reserved jobs");
                r
            },
            HeldFault::Total { count, found } => {
                let mut r = "reserved_ct is ".to_owned();
                add_number(&mut r, *count);
                r.append(", recomputed ");
                add_number(&mut r, *found);
                r
            },
        }
    }
}

/// Something wrong with one tube.
#[derive(Debug)]
pub enum TubeFault {
    /// It lists a job as ready that is not.
    ReadyStale { pri: u32, id: u64 },
    /// It lists a job as delayed that is not.
    DelayedStale { due: u64, id: u64 },
    /// It lists a job as buried that is not.
    BuriedStale { index: usize, id: u64 },
    /// It lists a job as buried again.
    BuriedTwice { index: usize, id: u64 },
    /// It lists a connection as waiting that does not wait on it.
    NotWaiting { index: usize, conn: u64 },
    /// It lists a waiting connection again.
    WaitsTwice { index: usize, conn: u64 },
    /// It does not list a connection that waits on it.
    MissesWaiting,
    /// Its urgent jobs are miscounted.
    Urgent { count: u64, found: u64 },
    /// Its buried jobs are miscounted.
    Buried,
    /// Its reserved jobs are miscounted.
    Reserved,
    /// The connections that wait on it are miscounted.
    Waiting,
    /// The connections that use it are miscounted.
    Using,
    /// The connections that watch it are miscounted.
    Watching,
    /// Its jobs are miscounted.
    Jobs,
    /// Nothing keeps it alive.
    Unreferenced,
    /// Its own record of its first deadline is wrong.
    DelayHead,
    /// Its own record of whether jobs and connections meet is wrong.
    Flag,
    /// Jobs are left lying that could be handed out.
    NotPaused,
}

impl TubeFault {
    /// Whether this is wrong about tube `tube` in parts that should agree.
    pub open spec fn upsets(self, p: Parts, tube: TubeId) -> bool {
        match self {
            TubeFault::ReadyStale { pri, id } => {
                &&& live(p.tubes, tube)
                &&& at(p.tubes, tube).ready@.contains((pri, id))
                &&& !(in_state(p.jobs, id, JobState::Ready, tube) && p.jobs[id].pri == pri)
            },
            TubeFault::DelayedStale { due, id } => {
                &&& live(p.tubes, tube)
                &&& at(p.tubes, tube).delayed@.contains((due, id))
                &&& !(in_state(p.jobs, id, JobState::Delayed, tube) && p.jobs[id].deadline_at == due)
            },
            TubeFault::BuriedStale { index, id } => {
                &&& live(p.tubes, tube)
                &&& stands_at(at(p.tubes, tube).buried@, index, id)
                &&& !in_state(p.jobs, id, JobState::Buried, tube)
            },
            TubeFault::BuriedTwice { index, id } => {
                &&& live(p.tubes, tube)
                &&& stands_again_at(at(p.tubes, tube).buried@, index, id)
            },
            TubeFault::NotWaiting { index, conn } => {
                &&& live(p.tubes, tube)
                &&& stands_at(at(p.tubes, tube).waiting_conns@.items, index, conn)
                &&& !waits_on(p.conns, conn, tube)
            },
            TubeFault::WaitsTwice { index, conn } => {
                &&& live(p.tubes, tube)
                &&& stands_again_at(at(p.tubes, tube).waiting_conns@.items, index, conn)
            },
            TubeFault::MissesWaiting => {
                &&& live(p.tubes, tube)
                &&& exists|c: ConnId| #[trigger]
                    waits_on(p.conns, c, tube) && !at(
                        p.tubes,
                        tube,
                    ).waiting_conns@.items.contains(c)
            },
            TubeFault::Urgent { count, found } => {
                &&& live(p.tubes, tube)
                &&& count == at(p.tubes, tube).stat.urgent_ct
                &&& found == count_jobs(p.jobs, JobSel::UrgentIn(tube))
                &&& count != found
            },
            TubeFault::Buried => {
                &&& live(p.tubes, tube)
                &&& at(p.tubes, tube).stat.buried_ct != at(p.tubes, tube).buried@.len()
            },
            TubeFault::Reserved => {
                &&& live(p.tubes, tube)
                &&& at(p.tubes, tube).stat.reserved_ct != count_jobs(
                    p.jobs,
                    JobSel::ReservedIn(tube),
                )
            },
            TubeFault::Waiting => {
                &&& live(p.tubes, tube)
                &&& at(p.tubes, tube).stat.waiting_ct != at(
                    p.tubes,
                    tube,
                ).waiting_conns@.items.len()
            },
            TubeFault::Using => {
                &&& live(p.tubes, tube)
                &&& at(p.tubes, tube).using_ct != count_conns(
                    conns_view(p.conns),
                    ConnSel::Uses(tube),
                )
            },
            TubeFault::Watching => {
                &&& live(p.tubes, tube)
                &&& at(p.tubes, tube).watching_ct != count_conns(
                    conns_view(p.conns),
                    ConnSel::Watches(tube),
                )
            },
            TubeFault::Jobs => {
                &&& live(p.tubes, tube)
                &&& at(p.tubes, tube).job_ref_ct != count_jobs(p.jobs, JobSel::InTube(tube))
            },
            TubeFault::Unreferenced => {
                &&& live(p.tubes, tube)
                &&& tube != 0
                &&& count_conns(conns_view(p.conns), ConnSel::Uses(tube)) + count_conns(
                    conns_view(p.conns),
                    ConnSel::Watches(tube),
                ) + count_jobs(p.jobs, JobSel::InTube(tube)) == 0
            },
            TubeFault::DelayHead => {
                &&& live(p.tubes, tube)
                &&& !is_head(at(p.tubes, tube).delayed@, at(p.tubes, tube).delay_head)
            },
            TubeFault::Flag => live(p.tubes, tube) && !flag_ok(at(p.tubes, tube)),
            TubeFault::NotPaused => {
                &&& live(p.tubes, tube)
                &&& at(p.tubes, tube).dispatchable
                &&& at(p.tubes, tube).pause == 0
            },
        }
    }

    /// When it is looked for: at which step, at which entry of a list or set, and
    /// at which look there.
    pub open spec fn place(self) -> (int, int, int, int) {
        match self {
            TubeFault::ReadyStale { pri, id } => (0, pri as int, id as int, 0),
            TubeFault::DelayedStale { due, id } => (1, due as int, id as int, 0),
            TubeFault::BuriedStale { index, id: _ } => (2, index as int, 0, 0),
            TubeFault::BuriedTwice { index, id: _ } => (2, index as int, 0, 1),
            TubeFault::NotWaiting { index, conn: _ } => (3, index as int, 0, 0),
            TubeFault::WaitsTwice { index, conn: _ } => (3, index as int, 0, 1),
            TubeFault::MissesWaiting => (4, 0, 0, 0),
            TubeFault::Urgent { count: _, found: _ } => (5, 0, 0, 0),
            TubeFault::Buried => (6, 0, 0, 0),
            TubeFault::Reserved => (7, 0, 0, 0),
            TubeFault::Waiting => (8, 0, 0, 0),
            TubeFault::Using => (9, 0, 0, 0),
            TubeFault::Watching => (10, 0, 0, 0),
            TubeFault::Jobs => (11, 0, 0, 0),
            TubeFault::Unreferenced => (12, 0, 0, 0),
            TubeFault::DelayHead => (13, 0, 0, 0),
            TubeFault::Flag => (14, 0, 0, 0),
            TubeFault::NotPaused => (15, 0, 0, 0),
        }
    }

    /// Whether this is the first thing wrong about tube `tube`.
    pub open spec fn first_in(self, p: Parts, tube: TubeId) -> bool {
        &&& self.upsets(p, tube)
        &&& forall|g: TubeFault| #[trigger] g.upsets(p, tube) ==> !sooner(g.place(), self.place())
    }

    /// Whether nothing is wrong about tube `tube` before step `step`.
    pub open spec fn clear_below(p: Parts, tube: TubeId, step: int) -> bool {
        forall|g: TubeFault| #[trigger] g.upsets(p, tube) ==> g.place().0 >= step
    }

    /// The words for it.
    pub open spec fn says(self, tube: TubeId) -> Seq<char> {
        match self {
            TubeFault::ReadyStale { pri: _, id } => "ready set of tube "@ + digits(tube as nat)
                + " holds a stale entry for job "@ + digits(id as nat),
            TubeFault::DelayedStale { due: _, id } => "delayed set of tube "@
                + digits(tube as nat) + " holds a stale entry for job "@ + digits(id as nat),
            TubeFault::BuriedStale { index: _, id } => "buried list of tube "@
                + digits(tube as nat) + " holds a stale entry for job "@ + digits(id as nat),
            TubeFault::BuriedTwice { index: _, id } => "job "@ + digits(id as nat)
                + " is buried twice"@,
            TubeFault::NotWaiting { index: _, conn } => "tube "@ + digits(tube as nat)
                + " lists conn "@ + digits(conn as nat) + " as waiting"@,
            TubeFault::WaitsTwice { index: _, conn } => "tube "@ + digits(tube as nat)
                + " lists conn "@ + digits(conn as nat) + " twice"@,
            TubeFault::MissesWaiting => "tube "@ + digits(tube as nat) + " misses waiting conns"@,
            TubeFault::Urgent { count, found } => "urgent count of tube "@ + digits(tube as nat)
                + " is "@ + digits(count as nat) + ", recomputed "@ + digits(found as nat),
            TubeFault::Buried => "buried count of tube "@ + digits(tube as nat) + " is stale"@,
            TubeFault::Reserved => "reserved count of tube "@ + digits(tube as nat)
                + " is stale"@,
            TubeFault::Waiting => "waiting count of tube "@ + digits(tube as nat) + " is stale"@,
            TubeFault::Using => "using count of tube "@ + digits(tube as nat) + " is stale"@,
            TubeFault::Watching => "watching count of tube "@ + digits(tube as nat)
                + " is stale"@,
            TubeFault::Jobs => "job count of tube "@ + digits(tube as nat) + " is stale"@,
            TubeFault::Unreferenced => "tube "@ + digits(tube as nat) + " is unreferenced"@,
            TubeFault::DelayHead => "delay_head of tube "@ + digits(tube as nat) + " is stale"@,
            TubeFault::Flag => "dispatchable flag of tube "@ + digits(tube as nat) + " is stale"@,
            TubeFault::NotPaused => "tube "@ + digits(tube as nat)
                + " has ready jobs and waiting conns but is not paused"@,
        }
    }

    /// The text for it.
    pub fn text(&self, tube: TubeId) -> (r: String)
        ensures
            r@ == self.says(tube),
    {
        match self {
            TubeFault::ReadyStale { pri: _, id } => {
                let mut r = "ready set of tube ".to_owned();
                add_number(&mut r, tube as u64);
                r.append(" holds a stale entry for job ");
                add_number(&mut r, *id);
                r
            },
            TubeFault::DelayedStale { due: _, id } => {
                let mut r = "delayed set of tube ".to_owned();
                add_number(&mut r, tube as u64);
                r.append(" holds a stale entry for job ");
                add_number(&mut r, *id);
                r
            },
            TubeFault::BuriedStale { index: _, id } => {
                let mut r = "buried list of tube ".to_owned();
                add_number(&mut r, tube as u64);
                r.append(" holds a stale entry for job ");
                add_number(&mut r, *id);
                r
            },
            TubeFault::BuriedTwice { index: _, id } => {
                let mut r = "job ".to_owned();
                add_number(&mut r, *id);
                r.append(" is buried twice");
                r
            },
            TubeFault::NotWaiting { index: _, conn } => {
                let mut r = "tube ".to_owned();
                add_number(&mut r, tube as u64);
                r.append(" lists conn ");
                add_number(&mut r, *conn);
                r.append(" as waiting");
                r
            },
            TubeFault::WaitsTwice { index: _, conn } => {
                let mut r = "tube ".to_owned();
                add_number(&mut r, tube as u64);
                r.append(" lists conn ");
                add_number(&mut r, *conn);
                r.append(" twice");
                r
            },
            TubeFault::MissesWaiting => {
                let mut r = "tube ".to_owned();
                add_number(&mut r, tube as u64);
                r.append(" misses waiting conns");
                r
            },
            TubeFault::Urgent { count, found } => {
                let mut r = "urgent count of tube ".to_owned();
                add_number(&mut r, tube as u64);
                r.append(" is ");
                add_number(&mut r, *count);
                r.append(", recomputed ");
                add_number(&mut r, *found);
                r
            },
            TubeFault::Buried => {
                let mut r = "buried count of tube ".to_owned();
                add_number(&mut r, tube as u64);
                r.append(" is stale");
                r
            },
            TubeFault::Reserved => {
                let mut r = "reserved count of tube ".to_owned();
                add_number(&mut r, tube as u64);
                r.append(" is stale");
                r
            },
            TubeFault::Waiting => {
                let mut r = "waiting count of tube ".to_owned();
                add_number(&mut r, tube as u64);
                r.append(" is stale");
                r
            },
            TubeFault::Using => {
                let mut r = "using count of tube ".to_owned();
                add_number(&mut r, tube as u64);
                r.append(" is stale");
                r
            },
            TubeFault::Watching => {
                let mut r = "watching count of tube ".to_owned();
                add_number(&mut r, tube as u64);
                r.append(" is stale");
                r
            },
            TubeFault::Jobs => {
                let mut r = "job count of tube ".to_owned();
                add_number(&mut r, tube as u64);
                r.append(" is stale");
                r
            },
            TubeFault::Unreferenced => {
                let mut r = "tube ".to_owned();
                add_number(&mut r, tube as u64);
                r.append(" is unreferenced");
                r
            },
            TubeFault::DelayHead => {
                let mut r = "delay_head of tube ".to_owned();
                add_number(&mut r, tube as u64);
                r.append(" is stale");
                r
            },
            TubeFault::Flag => {
                let mut r = "dispatchable flag of tube ".to_owned();
                add_number(&mut r, tube as u64);
                r.append(" is stale");
                r
            },
            TubeFault::NotPaused => {
                let mut r = "tube ".to_owned();
                add_number(&mut r, tube as u64);
                r.append(" has ready jobs and waiting conns but is not paused");
                r
            },
        }
    }
}

/// Something wrong with what is recorded of all jobs and tubes.
#[derive(Debug)]
pub enum SumFault {
    /// A buried job is not listed.
    BuriedEntries { entries: usize, jobs: u64 },
    /// The ready jobs are miscounted.
    Ready { count: u64, found: u64 },
    /// The urgent jobs are miscounted.
    Urgent { count: u64, found: u64 },
    /// The delayed jobs are miscounted.
    Delayed { count: u64, found: u64 },
    /// The buried jobs are miscounted.
    Buried { count: u64, found: u64 },
    /// The index of first deadlines is wrong.
    DelayHeads,
    /// The index of pauses is wrong.
    Pauses,
    /// The set of tubes where jobs and connections meet is wrong.
    Dispatchable,
}

impl SumFault {
    /// Whether this is wrong in parts that should agree.
    pub open spec fn upsets(self, p: Parts) -> bool {
        match self {
            SumFault::BuriedEntries { entries, jobs } => {
                &&& entries == buried_jobs(p.tubes).len()
                &&& jobs == count_jobs(p.jobs, JobSel::Buried)
                &&& exists|id: JobId| #[trigger]
                    p.jobs.contains_key(id) && p.jobs[id].state == JobState::Buried
                        && !buried_jobs(p.tubes).contains(id)
            },
            SumFault::Ready { count, found } => {
                &&& count == p.tallies.ready_ct
                &&& found == count_jobs(p.jobs, JobSel::Ready)
                &&& count != found
            },
            SumFault::Urgent { count, found } => {
                &&& count == p.tallies.urgent_ct
                &&& found == count_jobs(p.jobs, JobSel::Urgent)
                &&& count != found
            },
            SumFault::Delayed { count, found } => {
                &&& count == p.tallies.delayed_ct
                &&& found == count_jobs(p.jobs, JobSel::Delayed)
                &&& count != found
            },
            SumFault::Buried { count, found } => {
                &&& count == p.tallies.buried_ct
                &&& found == count_jobs(p.jobs, JobSel::Buried)
                &&& count != found
            },
            SumFault::DelayHeads => p.delay_heads != heads_of(p.tubes),
            SumFault::Pauses => p.pauses != pauses_of(p.tubes),
            SumFault::Dispatchable => p.dispatchable != dispatchable_of(p.tubes),
        }
    }

    /// When it is looked for: at which step, at which entry of a list or set, and
    /// at which look there.
    pub open spec fn place(self) -> (int, int, int, int) {
        match self {
            SumFault::BuriedEntries { entries: _, jobs: _ } => (0, 0, 0, 0),
            SumFault::Ready { count: _, found: _ } => (1, 0, 0, 0),
            SumFault::Urgent { count: _, found: _ } => (2, 0, 0, 0),
            SumFault::Delayed { count: _, found: _ } => (3, 0, 0, 0),
            SumFault::Buried { count: _, found: _ } => (4, 0, 0, 0),
            SumFault::DelayHeads => (5, 0, 0, 0),
            SumFault::Pauses => (6, 0, 0, 0),
            SumFault::Dispatchable => (7, 0, 0, 0),
        }
    }

    /// Whether this is the first thing wrong.
    pub open spec fn first_in(self, p: Parts) -> bool {
        &&& self.upsets(p)
        &&& forall|g: SumFault| #[trigger] g.upsets(p) ==> !sooner(g.place(), self.place())
    }

    /// Whether nothing is wrong before step `step`.
    pub open spec fn clear_below(p: Parts, step: int) -> bool {
        forall|g: SumFault| #[trigger] g.upsets(p) ==> g.place().0 >= step
    }

    /// The words for it.
    pub open spec fn says(self) -> Seq<char> {
        match self {
            SumFault::BuriedEntries { entries, jobs } => digits(entries as nat)
                + " buried entries for "@ + digits(jobs as nat) + " buried jobs"@,
            SumFault::Ready { count, found } => "ready_ct is "@ + digits(count as nat)
                + ", recomputed "@ + digits(found as nat),
            SumFault::Urgent { count, found } => "urgent_ct is "@ + digits(count as nat)
                + ", recomputed "@ + digits(found as nat),
            SumFault::Delayed { count, found } => "delayed_ct is "@ + digits(count as nat)
                + ", recomputed "@ + digits(found as nat),
            SumFault::Buried { count, found } => "buried_ct is "@ + digits(count as nat)
                + ", recomputed "@ + digits(found as nat),
            SumFault::DelayHeads => "delay_heads index is stale"@,
            SumFault::Pauses => "pauses index is stale"@,
            SumFault::Dispatchable => "dispatchable set is stale"@,
        }
    }

    /// The text for it.
    pub fn text(&self) -> (r: String)
        ensures
            r@ == self.says(),
    {
        match self {
            SumFault::BuriedEntries { entries, jobs } => {
                let mut r = String::new();
                add_number(&mut r, *entries as u64);
                assert(r@ =~= digits(*entries as nat));
                r.append(" buried entries for ");
                add_number(&mut r, *jobs);
                r.append(" buried jobs");
                r
            },
            SumFault::Ready { count, found } => {
                let mut r = "ready_ct is ".to_owned();
                add_number(&mut r, *count);
                r.append(", recomputed ");
                add_number(&mut r, *found);
                r
            },
            SumFault::Urgent { count, found } => {
                let mut r = "urgent_ct is ".to_owned();
                add_number(&mut r, *count);
                r.append(", recomputed ");
                add_number(&mut r, *found);
                r
            },
            SumFault::Delayed { count, found } => {
                let mut r = "delayed_ct is ".to_owned();
                add_number(&mut r, *count);
                r.append(", recomputed ");
                add_number(&mut r, *found);
                r
            },
            SumFault::Buried { count, found } => {
                let mut r = "buried_ct is ".to_owned();
                add_number(&mut r, *count);
                r.append(", recomputed ");
                add_number(&mut r, *found);
                r
            },
            SumFault::DelayHeads => "delay_heads index is stale".to_owned(),
            SumFault::Pauses => "pauses index is stale".to_owned(),
            SumFault::Dispatchable => "dispatchable set is stale".to_owned(),
        }
    }
}

/// Where all entries before `k` ascend, one that does not stands at `k` or later.
proof fn lemma_first_break<T>(v: Seq<(u64, T)>, i: int, k: int)
    requires
        0 < i < v.len(),
        0 < k < v.len(),
        v[i].0 <= v[i - 1].0,
        sorted(v.take(k)),
    ensures
        k <= i,
{
    if i < k {
        assert(v.take(k)[i - 1] == v[i - 1] && v.take(k)[i] == v[i]);
    }
}

/// Where an entry is told not to ascend, its list does not.
proof fn lemma_breaks(s: EngineState, f: Fault)
    requires
        f.found_in(s),
    ensures
        f is JobsOrder ==> !sorted(by_id(s.jobs@)),
        f is NamesOrder ==> !names_ascend(s.tube_ids@),
        f is ConnsOrder ==> !sorted(s.conns@),
{
    match f {
        Fault::JobsOrder { id } => {
            let v = by_id(s.jobs@);
            let i = choose|i: int|
                0 < i < s.jobs@.len() && (#[trigger] s.jobs@[i]).id == id && id <= s.jobs@[i - 1].id
                    && sorted(v.take(i));
            assert(v[i].0 <= v[i - 1].0);
        },
        Fault::NamesOrder { name } => {
            let v = s.tube_ids@;
            let i = choose|i: int|
                0 < i < v.len() && (#[trigger] v[i]).0@ == name@ && !bytes_lt(v[i - 1].0@, name@)
                    && names_ascend(v.take(i));
            assert(!bytes_lt(v[i - 1].0@, v[i].0@));
        },
        Fault::ConnsOrder { conn } => {
            let v = s.conns@;
            let i = choose|i: int|
                0 < i < v.len() && (#[trigger] v[i]).0 == conn && conn <= v[i - 1].0 && sorted(
                    v.take(i),
                );
            assert(v[i].0 <= v[i - 1].0);
        },
        _ => {},
    }
}

/// Something that is wrong with a state.
#[derive(Debug)]
pub enum Fault {
    /// The jobs do not ascend: `id` is not above the one before it.
    JobsOrder { id: u64 },
    /// The names do not ascend: `name` is not above the one before it.
    NamesOrder { name: TubeName },
    /// The connections do not ascend: `conn` is not above the one before it.
    ConnsOrder { conn: u64 },
    /// The slab, the names, the list of tubes, the free list or the next number.
    Slab(SlabFault),
    /// One connection.
    Conn { conn: u64, what: ConnFault },
    /// What is recorded of all connections.
    Conns(ConnsFault),
    /// One job.
    Job { id: u64, what: JobFault },
    /// The reserved jobs together.
    Held(HeldFault),
    /// One tube.
    Tube { tube: usize, what: TubeFault },
    /// What is recorded of all jobs and tubes.
    Sum(SumFault),
}

impl Fault {
    /// Whether this is wrong with parts that should agree.
    pub open spec fn upsets(self, p: Parts) -> bool {
        match self {
            Fault::Slab(what) => what.upsets(p),
            Fault::Conn { conn, what } => what.upsets(p, conn),
            Fault::Conns(what) => what.upsets(p),
            Fault::Job { id, what } => what.upsets(p, id),
            Fault::Held(what) => what.upsets(p),
            Fault::Tube { tube, what } => what.upsets(p, tube),
            Fault::Sum(what) => what.upsets(p),
            _ => false,
        }
    }

    /// Which part it is looked for in, and at which connection, job or tube: the
    /// slab comes first, then each connection, what is recorded of all of them,
    /// each job, the reserved jobs together, each tube, and what is recorded of
    /// all jobs and tubes. Connections, jobs and tubes ascend.
    pub open spec fn part(self) -> (int, int) {
        match self {
            Fault::Slab(_) => (0, 0),
            Fault::Conn { conn, .. } => (1, conn as int),
            Fault::Conns(_) => (2, 0),
            Fault::Job { id, .. } => (3, id as int),
            Fault::Held(_) => (4, 0),
            Fault::Tube { tube, .. } => (5, tube as int),
            Fault::Sum(_) => (6, 0),
            _ => (-1, 0),
        }
    }

    /// When it is looked for there.
    pub open spec fn place(self) -> (int, int, int, int) {
        match self {
            Fault::Slab(what) => what.place(),
            Fault::Conn { what, .. } => what.place(),
            Fault::Conns(what) => what.place(),
            Fault::Job { what, .. } => what.place(),
            Fault::Held(what) => what.place(),
            Fault::Tube { what, .. } => what.place(),
            Fault::Sum(what) => what.place(),
            _ => (0, 0, 0, 0),
        }
    }

    /// Whether this is looked for before `other`.
    pub open spec fn comes_before(self, other: Fault) -> bool {
        let (a, b) = (self.part(), other.part());
        a.0 < b.0 || (a.0 == b.0 && (a.1 < b.1 || (a.1 == b.1 && sooner(
            self.place(),
            other.place(),
        ))))
    }

    /// Whether this is the first thing wrong with parts that should agree.
    pub open spec fn first_in(self, p: Parts) -> bool {
        &&& self.upsets(p)
        &&& forall|g: Fault| #[trigger] g.upsets(p) ==> !g.comes_before(self)
    }

    /// Whether nothing is wrong before part `part`.
    pub open spec fn clear_before(p: Parts, part: int) -> bool {
        forall|g: Fault| #[trigger] g.upsets(p) ==> g.part().0 >= part
    }

    /// Whether this is what is told of a state: the first job that does not
    /// ascend; where all do, the first such name; where all of those do too, the
    /// first such connection; and else the first thing in which the parts
    /// disagree.
    pub open spec fn found_in(self, s: EngineState) -> bool {
        match self {
            Fault::JobsOrder { id } => exists|i: int|
                0 < i < s.jobs@.len() && (#[trigger] s.jobs@[i]).id == id && id <= s.jobs@[i - 1].id
                    && sorted(by_id(s.jobs@).take(i)),
            Fault::NamesOrder { name } => sorted(by_id(s.jobs@)) && exists|i: int|
                0 < i < s.tube_ids@.len() && (#[trigger] s.tube_ids@[i]).0@ == name@ && !bytes_lt(
                    s.tube_ids@[i - 1].0@,
                    name@,
                ) && names_ascend(s.tube_ids@.take(i)),
            Fault::ConnsOrder { conn } => sorted(by_id(s.jobs@)) && names_ascend(s.tube_ids@)
                && exists|i: int|
                0 < i < s.conns@.len() && (#[trigger] s.conns@[i]).0 == conn && conn
                    <= s.conns@[i - 1].0 && sorted(s.conns@.take(i)),
            _ => sorted(by_id(s.jobs@)) && names_ascend(s.tube_ids@) && sorted(s.conns@)
                && self.first_in(s.parts()),
        }
    }

    /// What first upsets the parts of a state whose lists ascend is told of it.
    pub proof fn lemma_found(self, s: EngineState)
        requires
            sorted(by_id(s.jobs@)),
            names_ascend(s.tube_ids@),
            sorted(s.conns@),
            self.first_in(s.parts()),
        ensures
            self.found_in(s),
    {
    }

    /// Of a state that has faults, one thing is told: whichever of them is found,
    /// the words are the same.
    pub proof fn told_words_are_fixed(s: EngineState, f: Fault, g: Fault)
        requires
            f.found_in(s),
            g.found_in(s),
        ensures
            f.says() == g.says(),
    {
        let jobs = by_id(s.jobs@);
        match (f, g) {
            (Fault::JobsOrder { id: a }, Fault::JobsOrder { id: b }) => {
                let i = choose|i: int|
                    0 < i < s.jobs@.len() && (#[trigger] s.jobs@[i]).id == a && a <= s.jobs@[i
                        - 1].id && sorted(jobs.take(i));
                let k = choose|k: int|
                    0 < k < s.jobs@.len() && (#[trigger] s.jobs@[k]).id == b && b <= s.jobs@[k
                        - 1].id && sorted(jobs.take(k));
                lemma_first_break(jobs, i, k);
                lemma_first_break(jobs, k, i);
            },
            (Fault::JobsOrder { id }, _) => {
                lemma_breaks(s, f);
            },
            (_, Fault::JobsOrder { id }) => {
                lemma_breaks(s, g);
            },
            (Fault::NamesOrder { name: a }, Fault::NamesOrder { name: b }) => {
                let names = s.tube_ids@;
                let i = choose|i: int|
                    0 < i < names.len() && (#[trigger] names[i]).0@ == a@ && !bytes_lt(
                        names[i - 1].0@,
                        a@,
                    ) && names_ascend(names.take(i));
                let k = choose|k: int|
                    0 < k < names.len() && (#[trigger] names[k]).0@ == b@ && !bytes_lt(
                        names[k - 1].0@,
                        b@,
                    ) && names_ascend(names.take(k));
                if i < k {
                    assert(names.take(k)[i - 1] == names[i - 1] && names.take(k)[i] == names[i]);
                } else if k < i {
                    assert(names.take(i)[k - 1] == names[k - 1] && names.take(i)[k] == names[k]);
                }
            },
            (Fault::NamesOrder { name }, _) => {
                lemma_breaks(s, f);
            },
            (_, Fault::NamesOrder { name }) => {
                lemma_breaks(s, g);
            },
            (Fault::ConnsOrder { conn: a }, Fault::ConnsOrder { conn: b }) => {
                let i = choose|i: int|
                    0 < i < s.conns@.len() && (#[trigger] s.conns@[i]).0 == a && a <= s.conns@[i
                        - 1].0 && sorted(s.conns@.take(i));
                let k = choose|k: int|
                    0 < k < s.conns@.len() && (#[trigger] s.conns@[k]).0 == b && b <= s.conns@[k
                        - 1].0 && sorted(s.conns@.take(k));
                lemma_first_break(s.conns@, i, k);
                lemma_first_break(s.conns@, k, i);
            },
            (Fault::ConnsOrder { conn }, _) => {
                lemma_breaks(s, f);
            },
            (_, Fault::ConnsOrder { conn }) => {
                lemma_breaks(s, g);
            },
            _ => {
                assert(!f.comes_before(g) && !g.comes_before(f));
            },
        }
    }

    /// The words for it.
    pub open spec fn says(self) -> Seq<char> {
        match self {
            Fault::JobsOrder { id } => "jobs not strictly ascending at id "@ + digits(id as nat),
            Fault::NamesOrder { name } => "tube_ids not strictly ascending at "@ + decode_utf8(
                name@,
            ),
            Fault::ConnsOrder { conn } => "conns not strictly ascending at id "@ + digits(
                conn as nat,
            ),
            Fault::Slab(what) => what.says(),
            Fault::Conn { conn, what } => what.says(conn),
            Fault::Conns(what) => what.says(),
            Fault::Job { id, what } => what.says(id),
            Fault::Held(what) => what.says(),
            Fault::Tube { tube, what } => what.says(tube),
            Fault::Sum(what) => what.says(),
        }
    }

    /// The text for it.
    pub fn text(&self) -> (r: String)
        ensures
            r@ == self.says(),
    {
        match self {
            Fault::JobsOrder { id } => {
                let mut r = "jobs not strictly ascending at id ".to_owned();
                add_number(&mut r, *id);
                r
            },
            Fault::NamesOrder { name } => {
                let mut r = "tube_ids not strictly ascending at ".to_owned();
                add_name(&mut r, name);
                r
            },
            Fault::ConnsOrder { conn } => {
                let mut r = "conns not strictly ascending at id ".to_owned();
                add_number(&mut r, *conn);
                r
            },
            Fault::Slab(what) => what.text(),
            Fault::Conn { conn, what } => what.text(*conn),
            Fault::Conns(what) => what.text(),
            Fault::Job { id, what } => what.text(*id),
            Fault::Held(what) => what.text(),
            Fault::Tube { tube, what } => what.text(*tube),
            Fault::Sum(what) => what.text(),
        }
    }
}

/// Appends the name.
fn add_name(out: &mut String, name: &TubeName)
    ensures
        final(out)@ == old(out)@ + decode_utf8(name@),
{
    let s = name.as_str();
    proof {
        encode_utf8_decode_utf8(s@);
    }
    out.append(s);
}

} // verus!
