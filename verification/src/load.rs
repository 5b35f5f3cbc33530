//! Generating load: what the load generator sends, and what it makes of what
//! comes back.

use crate::buf::{bytes_copy, bytes_slice};
use crate::latency::{ascends, sort_samples};
use crate::parse::{word, word_of, Op};
use crate::proto::{
    default_name, name_char, valid_tube_name, Command, CommandView, TubeName,
};
use crate::reply::{
    parse_reply_line, plain_number, reply_of, stat_value, stats_u64, trimmed, unexpected, Reply,
    ReplyView, Unexpected,
};
use crate::response::{crlf, push_crlf};
use crate::scan::{front_of, tube_name_from_bytes, Class};
use crate::sending::{client_args, client_line, client_op, client_wire, digits_spell_the_number};
use crate::text::{decimal, push_bytes, push_decimal, push_str};
use vstd::prelude::*;
use vstd::string::StringSliceAdditionalSpecFns;
use vstd::utf8::{decode_utf8, encode_utf8, is_ascii_chars_encode_utf8};

verus! {

/// What the connections do.
#[derive(Debug, Clone, Copy, PartialEq, Eq, Structural)]
pub enum Scenario {
    /// Each puts into a tube of its own, and reserves and deletes from it.
    PutReserveDelete,
    /// Half put into a shared tube, and half reserve and delete from it.
    ProducersConsumers,
    /// Each puts into a shared tube.
    PutOnly,
}

impl Scenario {
    /// The name of the scenario.
    pub open spec fn text(self) -> Seq<u8> {
        match self {
            Scenario::PutReserveDelete => "put-reserve-delete".spec_bytes(),
            Scenario::ProducersConsumers => "producers-consumers".spec_bytes(),
            Scenario::PutOnly => "put-only".spec_bytes(),
        }
    }

    /// The name of the scenario.
    pub fn name(self) -> (r: &'static str)
        ensures
            r.spec_bytes() == self.text(),
    {
        match self {
            Scenario::PutReserveDelete => "put-reserve-delete",
            Scenario::ProducersConsumers => "producers-consumers",
            Scenario::PutOnly => "put-only",
        }
    }
}

/// Why the arguments of a run make no sense.
#[derive(Debug, Clone, Copy, PartialEq, Eq, Structural)]
pub enum BadArgs {
    /// No connections, no commands in a batch, or no time.
    Zero,
    /// Too few connections for both producers and consumers.
    TooFewConns,
}

/// Whether the arguments of a run make sense.
pub fn check_args(scenario: Scenario, conns: usize, pipeline: usize, duration: u64) -> (r: Result<
    (),
    BadArgs,
>)
    ensures
        r == (if conns == 0 || pipeline == 0 || duration == 0 {
            Err::<(), BadArgs>(BadArgs::Zero)
        } else if scenario == Scenario::ProducersConsumers && conns < 2 {
            Err::<(), BadArgs>(BadArgs::TooFewConns)
        } else {
            Ok::<(), BadArgs>(())
        }),
{
    if conns == 0 || pipeline == 0 || duration == 0 {
        return Err(BadArgs::Zero);
    }
    if scenario == Scenario::ProducersConsumers && conns < 2 {
        return Err(BadArgs::TooFewConns);
    }
    Ok(())
}

/// What the tube of a connection is called: one of its own, by its number, or
/// the one that all share.
pub open spec fn tube_text(tag: u32, conn: Option<u64>) -> Seq<u8> {
    "bench-".spec_bytes() + decimal(tag as nat) + "-".spec_bytes() + (match conn {
        Some(i) => decimal(i as nat),
        None => "shared".spec_bytes(),
    })
}

/// The number of the tube that connection `i` works on: in the scenario with
/// tubes of one's own its own, else the shared one.
pub fn own_tube(scenario: Scenario, i: u64) -> (r: Option<u64>)
    ensures
        r == (if scenario == Scenario::PutReserveDelete {
            Some(i)
        } else {
            None
        }),
{
    match scenario {
        Scenario::PutReserveDelete => Some(i),
        _ => None,
    }
}

/// What one connection does.
#[derive(Debug, Clone, Copy, PartialEq, Eq, Structural)]
pub enum Role {
    /// Puts, reserves and deletes.
    Cycle,
    /// Puts.
    Produce,
    /// Reserves and deletes.
    Consume,
}

/// How many of `conns` connections do nothing but put.
pub open spec fn producing(scenario: Scenario, conns: usize) -> usize {
    match scenario {
        Scenario::PutReserveDelete => 0,
        Scenario::ProducersConsumers => conns / 2,
        Scenario::PutOnly => conns,
    }
}

/// How many of `conns` connections do nothing but put.
pub fn producers(scenario: Scenario, conns: usize) -> (r: usize)
    ensures
        r == producing(scenario, conns),
{
    match scenario {
        Scenario::PutReserveDelete => 0,
        Scenario::ProducersConsumers => conns / 2,
        Scenario::PutOnly => conns,
    }
}

/// What connection `i` of `conns` does: those that do nothing but put come
/// first.
pub fn role(scenario: Scenario, conns: usize, i: usize) -> (r: Role)
    ensures
        r == (if i < producing(scenario, conns) {
            Role::Produce
        } else if scenario == Scenario::ProducersConsumers {
            Role::Consume
        } else {
            Role::Cycle
        }),
{
    if i < producers(scenario, conns) {
        Role::Produce
    } else {
        match scenario {
            Scenario::ProducersConsumers => Role::Consume,
            _ => Role::Cycle,
        }
    }
}

/// Such a name is a tube name.
proof fn lemma_tube_text(tag: u32, conn: Option<u64>)
    ensures
        valid_tube_name(tube_text(tag, conn)),
{
    reveal_strlit("bench-");
    reveal_strlit("-");
    reveal_strlit("shared");
    is_ascii_chars_encode_utf8("bench-"@);
    is_ascii_chars_encode_utf8("-"@);
    is_ascii_chars_encode_utf8("shared"@);
    let a = "bench-".spec_bytes();
    let b = decimal(tag as nat);
    let c = "-".spec_bytes();
    let d = match conn {
        Some(i) => decimal(i as nat),
        None => "shared".spec_bytes(),
    };
    assert(a =~= seq![98u8, 101u8, 110u8, 99u8, 104u8, 45u8]);
    assert(c =~= seq![45u8]);
    assert("shared".spec_bytes() =~= seq![115u8, 104u8, 97u8, 114u8, 101u8, 100u8]);
    lemma_number_named(tag as nat);
    match conn {
        Some(i) => lemma_number_named(i as nat),
        None => {},
    }
    let s = a + b + c + d;
    assert(s[0] == a[0]);
    assert forall|i: int| 0 <= i < s.len() implies name_char(#[trigger] s[i]) by {
        if i < a.len() {
            assert(s[i] == a[i]);
        } else if i < a.len() + b.len() {
            assert(s[i] == b[i - a.len()]);
        } else if i < a.len() + b.len() + c.len() {
            assert(s[i] == c[i - a.len() - b.len()]);
        } else {
            assert(s[i] == d[i - a.len() - b.len() - c.len()]);
        }
    }
}

/// A number of 64 bits is short, and may stand in a name.
proof fn lemma_number_named(n: nat)
    requires
        n <= u64::MAX,
    ensures
        decimal(n).len() <= 20,
        forall|i: int| 0 <= i < decimal(n).len() ==> name_char(#[trigger] decimal(n)[i]),
{
    digits_spell_the_number(n);
    assert(decimal(n).len() <= 20) by {
        reveal_with_fuel(decimal, 21);
    }
    assert forall|i: int| 0 <= i < decimal(n).len() implies name_char(#[trigger] decimal(n)[i]) by {
        assert(Class::Digit.has(decimal(n)[i]));
    }
}

/// The tube of a connection.
pub fn bench_tube(tag: u32, conn: Option<u64>) -> (r: TubeName)
    ensures
        r@ == tube_text(tag, conn),
{
    let mut v: Vec<u8> = Vec::new();
    push_str(&mut v, "bench-");
    push_decimal(&mut v, tag as u64);
    push_str(&mut v, "-");
    match conn {
        Some(i) => push_decimal(&mut v, i),
        None => push_str(&mut v, "shared"),
    }
    assert(v@ =~= tube_text(tag, conn));
    proof {
        lemma_tube_text(tag, conn);
    }
    match tube_name_from_bytes(v.as_slice()) {
        Some(t) => t,
        None => {
            assert(false);
            TubeName::default_tube()
        },
    }
}

/// Appends the command word of `op`.
fn push_word(out: &mut Vec<u8>, op: Op)
    ensures
        final(out)@ == old(out)@ + word(op),
{
    push_str(out, word_of(op));
}

/// Appends a space and a number.
fn push_next(out: &mut Vec<u8>, n: u64)
    ensures
        final(out)@ == old(out)@ + (seq![32u8] + decimal(n as nat)),
{
    out.push(32);
    push_decimal(out, n);
    assert(out@ =~= old(out)@ + (seq![32u8] + decimal(n as nat)));
}

/// Appends what a client sends for `c` after the word.
fn push_args(out: &mut Vec<u8>, c: &Command, body_len: usize)
    requires
        c@ matches CommandView::Put { body, .. } ==> body.len() == body_len,
    ensures
        final(out)@ == old(out)@ + client_args(c@),
{
    match c {
        Command::Put { pri, delay, ttr, .. } => {
            push_decimal(out, *pri as u64);
            push_next(out, *delay as u64);
            push_next(out, *ttr as u64);
            push_next(out, body_len as u64);
        },
        Command::Release { id, pri, delay } => {
            push_decimal(out, *id);
            push_next(out, *pri as u64);
            push_next(out, *delay as u64);
        },
        Command::Bury { id, pri } => {
            push_decimal(out, *id);
            push_next(out, *pri as u64);
        },
        Command::PauseTube { tube, delay } => {
            out.push(32);
            push_bytes(out, tube.as_str().as_bytes());
            push_next(out, *delay as u64);
        },
        Command::Use(t) => push_bytes(out, t.as_str().as_bytes()),
        Command::Watch(t) => push_bytes(out, t.as_str().as_bytes()),
        Command::Ignore(t) => push_bytes(out, t.as_str().as_bytes()),
        Command::StatsTube(t) => push_bytes(out, t.as_str().as_bytes()),
        Command::ReserveWithTimeout(n) => push_decimal(out, *n as u64),
        Command::Kick(n) => push_decimal(out, *n as u64),
        Command::ReserveJob(id) => push_decimal(out, *id),
        Command::Delete(id) => push_decimal(out, *id),
        Command::Touch(id) => push_decimal(out, *id),
        Command::Peek(id) => push_decimal(out, *id),
        Command::KickJob(id) => push_decimal(out, *id),
        Command::StatsJob(id) => push_decimal(out, *id),
        _ => {},
    }
    assert(out@ =~= old(out)@ + client_args(c@));
}

/// The command word that a client sends for `c`.
fn op_of(c: &Command) -> (r: Op)
    ensures
        r == client_op(c@),
{
    match c {
        Command::Put { .. } => Op::Put,
        Command::Use(_) => Op::Use,
        Command::Reserve => Op::Reserve,
        Command::ReserveWithTimeout(_) => Op::ReserveTimeout,
        Command::ReserveJob(_) => Op::ReserveJob,
        Command::Delete(_) => Op::Delete,
        Command::Release { .. } => Op::Release,
        Command::Bury { .. } => Op::Bury,
        Command::Touch(_) => Op::Touch,
        Command::Watch(_) => Op::Watch,
        Command::Ignore(_) => Op::Ignore,
        Command::Peek(_) => Op::PeekJob,
        Command::PeekReady => Op::PeekReady,
        Command::PeekDelayed => Op::PeekDelayed,
        Command::PeekBuried => Op::PeekBuried,
        Command::Kick(_) => Op::Kick,
        Command::KickJob(_) => Op::KickJob,
        Command::StatsJob(_) => Op::StatsJob,
        Command::StatsTube(_) => Op::StatsTube,
        Command::Stats => Op::Stats,
        Command::ListTubes => Op::ListTubes,
        Command::ListTubeUsed => Op::ListTubeUsed,
        Command::ListTubesWatched => Op::ListTubesWatched,
        Command::Quit => Op::Quit,
        Command::PauseTube { .. } => Op::PauseTube,
        Command::PauseTubeBadName => Op::PauseTube,
    }
}

/// Queues a command.
pub fn queue(out: &mut Vec<u8>, c: &Command)
    ensures
        final(out)@ == old(out)@ + client_wire(c@),
{
    let body: Option<&[u8]> = match c {
        Command::Put { body, .. } => Some(bytes_slice(body)),
        _ => None,
    };
    push_word(out, op_of(c));
    push_args(
        out,
        c,
        match body {
            Some(b) => b.len(),
            None => 0,
        },
    );
    assert(out@ =~= old(out)@ + client_line(c@));
    push_crlf(out);
    if let Some(b) = body {
        push_bytes(out, b);
        push_crlf(out);
    }
    assert(out@ =~= old(out)@ + client_wire(c@));
}

/// Queues a put.
pub fn queue_put(out: &mut Vec<u8>, pri: u32, delay: u32, ttr: u32, body: &[u8])
    ensures
        final(out)@ == old(out)@ + client_wire(CommandView::Put { pri, delay, ttr, body: body@ }),
{
    let c = Command::Put { pri, delay, ttr, body: bytes_copy(body) };
    queue(out, &c);
}

/// Queues a token for authentication.
pub fn queue_auth(out: &mut Vec<u8>, token: &[u8])
    ensures
        final(out)@ == old(out)@ + "auth ".spec_bytes() + token@ + crlf(),
{
    push_str(out, "auth ");
    push_bytes(out, token);
    push_crlf(out);
}

/// Whether `s` ends in `\r\n`.
pub open spec fn ends_line(s: Seq<u8>) -> bool {
    s.len() >= 2 && s[s.len() - 2] == 13 && s[s.len() - 1] == 10
}

/// Whether `s` ends in `\r\n`.
fn ends_in_crlf(s: &[u8]) -> (r: bool)
    ensures
        r == ends_line(s@),
{
    let n: usize = s.len();
    n >= 2 && s[n - 2] == 13 && s[n - 1] == 10
}

/// The reply that a line amounts to, if it is a whole line.
pub fn read_line(line: &[u8]) -> (r: Option<Reply>)
    ensures
        match r {
            Some(p) => ends_line(line@) && p@ == reply_of(line@.take(line@.len() - 2)),
            None => !ends_line(line@),
        },
{
    if !ends_in_crlf(line) {
        return None;
    }
    Some(parse_reply_line(front_of(line, line.len() - 2)))
}

/// How long the body behind a reply line is, if there is one.
pub open spec fn body_of(r: ReplyView) -> Option<usize> {
    match r {
        ReplyView::Reserved { body_len, .. } => Some(body_len),
        ReplyView::OkBody(n) => Some(n),
        _ => None,
    }
}

/// How long the body behind a reply line is, if there is one.
pub fn body_len(r: &Reply) -> (n: Option<usize>)
    ensures
        n == body_of(r@),
{
    match r {
        Reply::Reserved { body_len, .. } => Some(*body_len),
        Reply::OkBody(n) => Some(*n),
        _ => None,
    }
}

/// Takes the `\r\n` off a body. Tells whether there was one; without it the
/// body is left as it is.
pub fn finish_body(body: &mut Vec<u8>) -> (r: bool)
    ensures
        r == ends_line(old(body)@),
        final(body)@ == (if r {
            old(body)@.take(old(body)@.len() - 2)
        } else {
            old(body)@
        }),
{
    if !ends_in_crlf(body.as_slice()) {
        return false;
    }
    let n: usize = body.len();
    body.truncate(n - 2);
    assert(body@ =~= old(body)@.take(old(body)@.len() - 2));
    true
}

/// The number of the job that a put made.
pub fn inserted(reply: Reply) -> (r: Result<u64, Unexpected>)
    ensures
        match r {
            Ok(id) => reply@ == ReplyView::Inserted(id),
            Err(u) => !(reply@ is Inserted) && u.op@ == "put"@ && u.reply@ == reply@,
        },
{
    match reply {
        Reply::Inserted(id) => Ok(id),
        r => Err(unexpected("put", r)),
    }
}

/// The number of a job that was reserved, whose body must be as long as those
/// that were put.
pub fn reserved(reply: Reply, len: usize) -> (r: Result<u64, Unexpected>)
    ensures
        match r {
            Ok(id) => reply@ == (ReplyView::Reserved { id, body_len: len }),
            Err(u) => !(reply@ is Reserved && reply@->body_len == len) && u.op@ == "reserve"@
                && u.reply@ == reply@,
        },
{
    match reply {
        Reply::Reserved { id, body_len } => if body_len == len {
            Ok(id)
        } else {
            Err(unexpected("reserve", Reply::Reserved { id, body_len }))
        },
        r => Err(unexpected("reserve", r)),
    }
}

/// That a job was deleted.
pub fn deleted(reply: Reply) -> (r: Result<(), Unexpected>)
    ensures
        match r {
            Ok(_) => reply@ is Deleted,
            Err(u) => !(reply@ is Deleted) && u.op@ == "delete"@ && u.reply@ == reply@,
        },
{
    match reply {
        Reply::Deleted => Ok(()),
        r => Err(unexpected("delete", r)),
    }
}

/// That a tube is used.
pub fn using(reply: Reply) -> (r: Result<(), Unexpected>)
    ensures
        match r {
            Ok(_) => reply@ is Using,
            Err(u) => !(reply@ is Using) && u.op@ == "use"@ && u.reply@ == reply@,
        },
{
    match reply {
        Reply::Using => Ok(()),
        r => Err(unexpected("use", r)),
    }
}

/// That a tube is watched.
pub fn watching(reply: Reply) -> (r: Result<(), Unexpected>)
    ensures
        match r {
            Ok(_) => reply@ is Watching,
            Err(u) => !(reply@ is Watching) && u.op@ == "watch"@ && u.reply@ == reply@,
        },
{
    match reply {
        Reply::Watching(_) => Ok(()),
        r => Err(unexpected("watch", r)),
    }
}

/// Commands as plain values.
pub open spec fn commands_view(v: Seq<Command>) -> Seq<CommandView> {
    v.map_values(|c: Command| c@)
}

/// The commands that make the tube `name` the only one that is used and watched.
pub open spec fn setup_of(name: Seq<u8>) -> Seq<CommandView> {
    let both = seq![CommandView::Use(name), CommandView::Watch(name)];
    if name == default_name() {
        both
    } else {
        both.push(CommandView::Ignore(default_name()))
    }
}

/// The commands that make `tube` the only tube that is used and watched.
pub fn setup(tube: &TubeName) -> (r: Vec<Command>)
    ensures
        commands_view(r@) == setup_of(tube@),
{
    let default = TubeName::default_tube();
    let same = tube.same(&default);
    let mut r: Vec<Command> = Vec::new();
    r.push(Command::Use(tube.clone()));
    r.push(Command::Watch(tube.clone()));
    if !same {
        r.push(Command::Ignore(default));
    }
    assert(commands_view(r@) =~= setup_of(tube@));
    r
}

/// Whether `reply` is what `setup` expects to `c`.
pub fn set_up(c: &Command, reply: Reply) -> (r: Result<(), Unexpected>)
    requires
        c@ is Use || c@ is Watch || c@ is Ignore,
    ensures
        match r {
            Ok(_) => match c@ {
                CommandView::Use(_) => reply@ is Using,
                CommandView::Watch(_) => reply@ is Watching,
                _ => reply@ == ReplyView::Watching(1),
            },
            Err(u) => u.reply@ == reply@ && match c@ {
                CommandView::Use(_) => !(reply@ is Using) && u.op@ == "use"@,
                CommandView::Watch(_) => !(reply@ is Watching) && u.op@ == "watch"@,
                _ => reply@ != ReplyView::Watching(1) && u.op@ == "ignore"@,
            },
        },
{
    match c {
        Command::Use(_) => using(reply),
        Command::Watch(_) => watching(reply),
        _ => ignored(reply),
    }
}

/// That "default" is ignored, so that one tube is left.
pub fn ignored(reply: Reply) -> (r: Result<(), Unexpected>)
    ensures
        match r {
            Ok(_) => reply@ == ReplyView::Watching(1),
            Err(u) => reply@ != ReplyView::Watching(1) && u.op@ == "ignore"@ && u.reply@ == reply@,
        },
{
    match reply {
        Reply::Watching(n) => if n == 1 {
            Ok(())
        } else {
            Err(unexpected("ignore", Reply::Watching(n)))
        },
        r => Err(unexpected("ignore", r)),
    }
}

/// That a token was accepted.
pub fn authenticated(reply: Reply) -> (r: Result<(), Unexpected>)
    ensures
        match r {
            Ok(_) => reply@ is Authenticated,
            Err(u) => !(reply@ is Authenticated) && u.op@ == "auth"@ && u.reply@ == reply@,
        },
{
    match reply {
        Reply::Authenticated => Ok(()),
        r => Err(unexpected("auth", r)),
    }
}

/// That a report follows.
pub fn reported(reply: Reply) -> (r: Result<(), Unexpected>)
    ensures
        match r {
            Ok(_) => reply@ is OkBody,
            Err(u) => !(reply@ is OkBody) && u.op@ == "stats"@ && u.reply@ == reply@,
        },
{
    match reply {
        Reply::OkBody(_) => Ok(()),
        r => Err(unexpected("stats", r)),
    }
}

/// What a consumer does next.
#[derive(Debug, Clone, Copy, PartialEq, Eq, Structural)]
pub enum ConsumerStep {
    /// Delete the job that it got.
    Delete(u64),
    /// Try again: nothing came in time, but something may yet come.
    Retry,
    /// Stop: nothing came, and nothing will.
    Stop,
}

/// What a consumer does next, given the reply to its reserve, and whether all
/// producers were done before it asked.
pub fn consumer_step(reply: Reply, producers_done: bool) -> (r: Result<ConsumerStep, Unexpected>)
    ensures
        match r {
            Ok(ConsumerStep::Delete(id)) => reply@ matches ReplyView::Reserved { id: n, .. } && n
                == id,
            Ok(ConsumerStep::Retry) => reply@ is TimedOut && !producers_done,
            Ok(ConsumerStep::Stop) => reply@ is TimedOut && producers_done,
            Err(u) => !(reply@ is Reserved) && !(reply@ is TimedOut) && u.op@
                == "reserve-with-timeout"@ && u.reply@ == reply@,
        },
{
    match reply {
        Reply::Reserved { id, .. } => Ok(ConsumerStep::Delete(id)),
        Reply::TimedOut => if producers_done {
            Ok(ConsumerStep::Stop)
        } else {
            Ok(ConsumerStep::Retry)
        },
        r => Err(unexpected("reserve-with-timeout", r)),
    }
}

/// Whether the jobs that were reserved, in any order, are those that were put,
/// in ascending order.
pub fn own_jobs(reserved: &mut Vec<u64>, put: &[u64]) -> (r: bool)
    ensures
        ascends(final(reserved)@),
        final(reserved)@.to_multiset() == old(reserved)@.to_multiset(),
        r == (final(reserved)@ == put@),
{
    sort_samples(reserved);
    let n: usize = reserved.len();
    if n != put.len() {
        return false;
    }
    let mut i: usize = 0;
    while i < n
        invariant
            i <= n,
            n == reserved@.len(),
            n == put@.len(),
            ascends(reserved@),
            reserved@.to_multiset() == old(reserved)@.to_multiset(),
            forall|k: int| 0 <= k < i ==> reserved@[k] == put@[k],
        decreases n - i,
    {
        if reserved[i] != put[i] {
            return false;
        }
        i = i + 1;
    }
    assert(reserved@ =~= put@);
    true
}

/// The value of a number in a report.
pub open spec fn stat_number(yaml: Seq<u8>, key: Seq<u8>) -> Option<nat> {
    match stat_value(yaml, key) {
        Some(b) => plain_number(encode_utf8(trimmed(decode_utf8(b))), u64::MAX as nat),
        None => None,
    }
}

/// A count that must be 0 after a run, and what it is: `None` where the report
/// lacks it.
#[derive(Debug, Clone, Copy, PartialEq, Eq)]
pub struct Leftover {
    pub key: &'static str,
    pub count: Option<u64>,
}

/// The `i`th of the counts that must be 0 after a run.
pub open spec fn empty_key(i: int) -> Seq<char> {
    if i == 0 {
        "current-jobs-ready"@
    } else if i == 1 {
        "current-jobs-reserved"@
    } else if i == 2 {
        "current-jobs-delayed"@
    } else {
        "current-jobs-buried"@
    }
}

/// Which of the first `n` counts that must be 0 after a run is not.
pub open spec fn leftovers(yaml: Seq<u8>, n: int) -> Seq<(Seq<char>, Option<nat>)>
    decreases n,
{
    if n <= 0 {
        Seq::empty()
    } else {
        let k = empty_key(n - 1);
        let v = stat_number(yaml, encode_utf8(k));
        let before = leftovers(yaml, n - 1);
        if v == Some(0nat) {
            before
        } else {
            before.push((k, v))
        }
    }
}

/// Leftovers as plain values.
pub open spec fn leftovers_view(v: Seq<Leftover>) -> Seq<(Seq<char>, Option<nat>)> {
    v.map_values(
        |l: Leftover|
            (
                l.key@,
                match l.count {
                    Some(n) => Some(n as nat),
                    None => None,
                },
            ),
    )
}

/// Adds the count called `key` if it is not 0.
fn add_leftover(out: &mut Vec<Leftover>, yaml: &str, key: &'static str)
    ensures
        ({
            let v = stat_number(yaml.spec_bytes(), key.spec_bytes());
            leftovers_view(final(out)@) == (if v == Some(0nat) {
                leftovers_view(old(out)@)
            } else {
                leftovers_view(old(out)@).push((key@, v))
            })
        }),
{
    let count = stats_u64(yaml, key);
    let empty = match count {
        Some(n) => n == 0,
        None => false,
    };
    if !empty {
        out.push(Leftover { key, count });
        assert(leftovers_view(out@) =~= leftovers_view(old(out)@).push(
            (
                key@,
                match count {
                    Some(n) => Some(n as nat),
                    None => None,
                },
            ),
        ));
    }
}

/// What is left on the server after a run, by its report: nothing ready,
/// reserved, delayed or buried should be.
pub fn leftover_jobs(yaml: &str) -> (r: Vec<Leftover>)
    ensures
        leftovers_view(r@) == leftovers(yaml.spec_bytes(), 4),
{
    let mut r: Vec<Leftover> = Vec::new();
    proof {
        reveal_with_fuel(leftovers, 5);
        assert(leftovers_view(r@) =~= Seq::empty());
    }
    add_leftover(&mut r, yaml, "current-jobs-ready");
    add_leftover(&mut r, yaml, "current-jobs-reserved");
    add_leftover(&mut r, yaml, "current-jobs-delayed");
    add_leftover(&mut r, yaml, "current-jobs-buried");
    r
}

/// Where some put and others reserve, half of the connections put, one fewer than
/// the others if they are odd in number, so that with two or more there are some
/// of each; elsewhere all do the same.
pub proof fn half_of_them_put(conns: usize)
    ensures
        ({
            let n = producing(Scenario::ProducersConsumers, conns);
            &&& 2 * n == conns || 2 * n + 1 == conns
            &&& conns >= 2 ==> 1 <= n < conns
        }),
        producing(Scenario::PutOnly, conns) == conns,
        producing(Scenario::PutReserveDelete, conns) == 0,
{
}

/// The tubes of connections of one run differ: each has one of its own, and none
/// is the shared one.
pub proof fn own_tubes_differ(tag: u32, i: u64, k: u64)
    ensures
        i != k ==> tube_text(tag, Some(i)) != tube_text(tag, Some(k)),
        tube_text(tag, Some(i)) != tube_text(tag, None),
{
    let head = "bench-".spec_bytes() + decimal(tag as nat) + "-".spec_bytes();
    let (a, b) = (decimal(i as nat), decimal(k as nat));
    let c = "shared".spec_bytes();
    digits_spell_the_number(i as nat);
    digits_spell_the_number(k as nat);
    assert((head + a).skip(head.len() as int) =~= a);
    assert((head + b).skip(head.len() as int) =~= b);
    assert((head + c).skip(head.len() as int) =~= c);
    assert(c[0] == 115) by {
        reveal_strlit("shared");
        is_ascii_chars_encode_utf8("shared"@);
    }
    assert(Class::Digit.has(a[0]));
}

/// A run has left nothing exactly if the report has a 0 for the jobs of each of
/// the four states; and what is told of is what the report says.
pub proof fn nothing_left_is_four_zeros(yaml: Seq<u8>)
    ensures
        leftovers(yaml, 4).len() == 0 <==> {
            &&& stat_number(yaml, "current-jobs-ready".spec_bytes()) == Some(0nat)
            &&& stat_number(yaml, "current-jobs-reserved".spec_bytes()) == Some(0nat)
            &&& stat_number(yaml, "current-jobs-delayed".spec_bytes()) == Some(0nat)
            &&& stat_number(yaml, "current-jobs-buried".spec_bytes()) == Some(0nat)
        },
        forall|i: int|
            0 <= i < leftovers(yaml, 4).len() ==> {
                let (key, count) = #[trigger] leftovers(yaml, 4)[i];
                count == stat_number(yaml, encode_utf8(key)) && count != Some(0nat)
            },
{
    reveal_with_fuel(leftovers, 5);
}

} // verus!
