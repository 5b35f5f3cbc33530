//! Parsing command lines.
//!
//! A line is given without its `\r\n`. Which command it is goes by the words in
//! `which`, tried in that order: some are prefixes of others, and some end in a
//! space while others do not.

use crate::buf::bytes_new;
use crate::proto::{valid_tube_name, Command, CommandView, JobId, Response, ResponseView, TubeName};
use crate::scan::{
    after_run, begins, begins_with, digits_value, front_of, lemma_run, number, numeral,
    numeral_alone, read_u32_full, read_u32_partial, read_u64_full, read_u64_partial, rest_of, run,
    run_length, taken, tube_name_from_bytes, Class,
};
use vstd::prelude::*;
use vstd::string::StringSliceAdditionalSpecFns;

verus! {

/// The commands, by the words that they begin with.
#[derive(Debug, Clone, Copy, PartialEq, Eq, Structural)]
pub enum Op {
    Put,
    PeekJob,
    PeekReady,
    PeekDelayed,
    PeekBuried,
    ReserveTimeout,
    ReserveJob,
    Reserve,
    Delete,
    Release,
    Bury,
    Kick,
    KickJob,
    Touch,
    StatsJob,
    StatsTube,
    Stats,
    Use,
    Watch,
    Ignore,
    ListTubesWatched,
    ListTubeUsed,
    ListTubes,
    Quit,
    PauseTube,
}

/// The word that a command begins with.
pub open spec fn word(op: Op) -> Seq<u8> {
    match op {
        Op::Put => "put ".spec_bytes(),
        Op::PeekJob => "peek ".spec_bytes(),
        Op::PeekReady => "peek-ready".spec_bytes(),
        Op::PeekDelayed => "peek-delayed".spec_bytes(),
        Op::PeekBuried => "peek-buried".spec_bytes(),
        Op::ReserveTimeout => "reserve-with-timeout ".spec_bytes(),
        Op::ReserveJob => "reserve-job ".spec_bytes(),
        Op::Reserve => "reserve".spec_bytes(),
        Op::Delete => "delete ".spec_bytes(),
        Op::Release => "release ".spec_bytes(),
        Op::Bury => "bury ".spec_bytes(),
        Op::Kick => "kick ".spec_bytes(),
        Op::KickJob => "kick-job ".spec_bytes(),
        Op::Touch => "touch ".spec_bytes(),
        Op::StatsJob => "stats-job ".spec_bytes(),
        Op::StatsTube => "stats-tube ".spec_bytes(),
        Op::Stats => "stats".spec_bytes(),
        Op::Use => "use ".spec_bytes(),
        Op::Watch => "watch ".spec_bytes(),
        Op::Ignore => "ignore ".spec_bytes(),
        Op::ListTubesWatched => "list-tubes-watched".spec_bytes(),
        Op::ListTubeUsed => "list-tube-used".spec_bytes(),
        Op::ListTubes => "list-tubes".spec_bytes(),
        Op::Quit => "quit".spec_bytes(),
        Op::PauseTube => "pause-tube".spec_bytes(),
    }
}

/// The command that a line gives, by the first of these words that it begins
/// with.
pub open spec fn which(line: Seq<u8>) -> Option<Op> {
    if begins(line, word(Op::Put)) {
        Some(Op::Put)
    } else if begins(line, word(Op::PeekJob)) {
        Some(Op::PeekJob)
    } else if begins(line, word(Op::PeekReady)) {
        Some(Op::PeekReady)
    } else if begins(line, word(Op::PeekDelayed)) {
        Some(Op::PeekDelayed)
    } else if begins(line, word(Op::PeekBuried)) {
        Some(Op::PeekBuried)
    } else if begins(line, word(Op::ReserveTimeout)) {
        Some(Op::ReserveTimeout)
    } else if begins(line, word(Op::ReserveJob)) {
        Some(Op::ReserveJob)
    } else if begins(line, word(Op::Reserve)) {
        Some(Op::Reserve)
    } else if begins(line, word(Op::Delete)) {
        Some(Op::Delete)
    } else if begins(line, word(Op::Release)) {
        Some(Op::Release)
    } else if begins(line, word(Op::Bury)) {
        Some(Op::Bury)
    } else if begins(line, word(Op::Kick)) {
        Some(Op::Kick)
    } else if begins(line, word(Op::KickJob)) {
        Some(Op::KickJob)
    } else if begins(line, word(Op::Touch)) {
        Some(Op::Touch)
    } else if begins(line, word(Op::StatsJob)) {
        Some(Op::StatsJob)
    } else if begins(line, word(Op::StatsTube)) {
        Some(Op::StatsTube)
    } else if begins(line, word(Op::Stats)) {
        Some(Op::Stats)
    } else if begins(line, word(Op::Use)) {
        Some(Op::Use)
    } else if begins(line, word(Op::Watch)) {
        Some(Op::Watch)
    } else if begins(line, word(Op::Ignore)) {
        Some(Op::Ignore)
    } else if begins(line, word(Op::ListTubesWatched)) {
        Some(Op::ListTubesWatched)
    } else if begins(line, word(Op::ListTubeUsed)) {
        Some(Op::ListTubeUsed)
    } else if begins(line, word(Op::ListTubes)) {
        Some(Op::ListTubes)
    } else if begins(line, word(Op::Quit)) {
        Some(Op::Quit)
    } else if begins(line, word(Op::PauseTube)) {
        Some(Op::PauseTube)
    } else {
        None
    }
}

/// What stands on a put line.
#[derive(Debug, Clone, Copy, PartialEq, Eq)]
pub struct PutHeader {
    pub pri: u32,
    pub delay: u32,
    pub ttr: u32,
    pub body_size: u32,
    /// Whether anything follows the size. The codec asks only where the size is
    /// within its limit: a body that is too big is answered as that.
    pub trailing_garbage: bool,
}

/// A line that was understood.
#[derive(Debug, PartialEq, Eq)]
pub enum ParsedLine {
    /// A whole command.
    Command(Command),
    /// A put, whose body is still to come.
    Put(PutHeader),
}

/// A line that was understood, with its names as plain sequences.
pub enum ParsedView {
    Command(CommandView),
    Put(PutHeader),
}

impl View for ParsedLine {
    type V = ParsedView;

    open spec fn view(&self) -> ParsedView {
        match *self {
            ParsedLine::Command(c) => ParsedView::Command(c@),
            ParsedLine::Put(h) => ParsedView::Put(h),
        }
    }
}

/// What a line amounts to: what was understood, or the reply.
pub type Parsed = Result<ParsedView, ResponseView>;

/// The number that `kick` is given, as `strtoul` reads it: blanks and a sign
/// may stand before it, anything may follow it, and only a number of 64 bits or
/// fewer is accepted, of which the low 32 bits count (of its negation, after a
/// `-`).
pub open spec fn kick_count(s: Seq<u8>) -> Option<u32> {
    let t = after_run(s, Class::Blank);
    let signed = t.len() > 0 && (t[0] == 45 || t[0] == 43);
    let u = if signed {
        t.skip(1)
    } else {
        t
    };
    let n = number(taken(u, Class::Digit)) as int;
    if run(u, Class::Digit) == 0 || n > u64::MAX {
        None
    } else if signed && t[0] == 45 {
        Some(((0 - n) % 0x1_0000_0000) as u32)
    } else {
        Some((n % 0x1_0000_0000) as u32)
    }
}

/// A command that takes nothing.
pub open spec fn bare(rest: Seq<u8>, c: CommandView) -> Parsed {
    if rest.len() == 0 {
        Ok(ParsedView::Command(c))
    } else {
        Err(ResponseView::BadFormat)
    }
}

/// A command that takes the number of a job.
pub open spec fn of_job(rest: Seq<u8>, c: spec_fn(JobId) -> CommandView) -> Parsed {
    match numeral_alone(rest, u64::MAX as nat) {
        Some(id) => Ok(ParsedView::Command(c(id as u64))),
        None => Err(ResponseView::BadFormat),
    }
}

/// A command that takes the name of a tube and nothing else, not even a space.
pub open spec fn of_tube(rest: Seq<u8>, c: spec_fn(Seq<u8>) -> CommandView) -> Parsed {
    if valid_tube_name(rest) {
        Ok(ParsedView::Command(c(rest)))
    } else {
        Err(ResponseView::BadFormat)
    }
}

/// `put <pri> <delay> <ttr> <size>`
pub open spec fn put_line(s: Seq<u8>) -> Parsed {
    match numeral(s, u32::MAX as nat) {
        None => Err(ResponseView::BadFormat),
        Some((pri, s)) => match numeral(s, u32::MAX as nat) {
            None => Err(ResponseView::BadFormat),
            Some((delay, s)) => match numeral(s, u32::MAX as nat) {
                None => Err(ResponseView::BadFormat),
                Some((ttr, s)) => match numeral(s, u32::MAX as nat) {
                    None => Err(ResponseView::BadFormat),
                    Some((size, s)) => Ok(
                        ParsedView::Put(
                            PutHeader {
                                pri: pri as u32,
                                delay: delay as u32,
                                ttr: ttr as u32,
                                body_size: size as u32,
                                trailing_garbage: s.len() > 0,
                            },
                        ),
                    ),
                },
            },
        },
    }
}

/// `release <id> <pri> <delay>`
pub open spec fn release_line(s: Seq<u8>) -> Parsed {
    match numeral(s, u64::MAX as nat) {
        None => Err(ResponseView::BadFormat),
        Some((id, s)) => match numeral(s, u32::MAX as nat) {
            None => Err(ResponseView::BadFormat),
            Some((pri, s)) => match numeral_alone(s, u32::MAX as nat) {
                None => Err(ResponseView::BadFormat),
                Some(delay) => Ok(
                    ParsedView::Command(
                        CommandView::Release {
                            id: id as u64,
                            pri: pri as u32,
                            delay: delay as u32,
                        },
                    ),
                ),
            },
        },
    }
}

/// `bury <id> <pri>`
pub open spec fn bury_line(s: Seq<u8>) -> Parsed {
    match numeral(s, u64::MAX as nat) {
        None => Err(ResponseView::BadFormat),
        Some((id, s)) => match numeral_alone(s, u32::MAX as nat) {
            None => Err(ResponseView::BadFormat),
            Some(pri) => Ok(
                ParsedView::Command(CommandView::Bury { id: id as u64, pri: pri as u32 }),
            ),
        },
    }
}

/// `reserve-with-timeout <seconds>`: whatever follows the number is ignored.
pub open spec fn timeout_line(s: Seq<u8>) -> Parsed {
    match numeral(s, u32::MAX as nat) {
        Some((n, _)) => if n <= i32::MAX {
            Ok(ParsedView::Command(CommandView::ReserveWithTimeout(n as u32)))
        } else {
            Err(ResponseView::BadFormat)
        },
        None => Err(ResponseView::BadFormat),
    }
}

/// `pause-tube <tube> <delay>`: the name is the longest run of name characters,
/// so that digits that follow it with no space between belong to it.
pub open spec fn pause_line(s: Seq<u8>) -> Parsed {
    let t = after_run(s, Class::Space);
    let name = taken(t, Class::Name);
    if name.len() == 0 {
        Err(ResponseView::BadFormat)
    } else {
        match numeral_alone(after_run(t, Class::Name), u32::MAX as nat) {
            None => Err(ResponseView::BadFormat),
            Some(delay) => Ok(
                ParsedView::Command(
                    if valid_tube_name(name) {
                        CommandView::PauseTube { tube: name, delay: delay as u32 }
                    } else {
                        CommandView::PauseTubeBadName
                    },
                ),
            ),
        }
    }
}

/// What command `op` with `rest` behind its word amounts to.
pub open spec fn parsed_op(op: Op, rest: Seq<u8>) -> Parsed {
    match op {
        Op::Put => put_line(rest),
        Op::PeekJob => of_job(rest, |id: JobId| CommandView::Peek(id)),
        Op::PeekReady => bare(rest, CommandView::PeekReady),
        Op::PeekDelayed => bare(rest, CommandView::PeekDelayed),
        Op::PeekBuried => bare(rest, CommandView::PeekBuried),
        Op::ReserveTimeout => timeout_line(rest),
        Op::ReserveJob => of_job(rest, |id: JobId| CommandView::ReserveJob(id)),
        Op::Reserve => bare(rest, CommandView::Reserve),
        Op::Delete => of_job(rest, |id: JobId| CommandView::Delete(id)),
        Op::Release => release_line(rest),
        Op::Bury => bury_line(rest),
        Op::Kick => match kick_count(rest) {
            Some(n) => Ok(ParsedView::Command(CommandView::Kick(n))),
            None => Err(ResponseView::BadFormat),
        },
        Op::KickJob => of_job(rest, |id: JobId| CommandView::KickJob(id)),
        Op::Touch => of_job(rest, |id: JobId| CommandView::Touch(id)),
        Op::StatsJob => of_job(rest, |id: JobId| CommandView::StatsJob(id)),
        Op::StatsTube => of_tube(rest, |t: Seq<u8>| CommandView::StatsTube(t)),
        Op::Stats => bare(rest, CommandView::Stats),
        Op::Use => of_tube(rest, |t: Seq<u8>| CommandView::Use(t)),
        Op::Watch => of_tube(rest, |t: Seq<u8>| CommandView::Watch(t)),
        Op::Ignore => of_tube(rest, |t: Seq<u8>| CommandView::Ignore(t)),
        Op::ListTubesWatched => bare(rest, CommandView::ListTubesWatched),
        Op::ListTubeUsed => bare(rest, CommandView::ListTubeUsed),
        Op::ListTubes => bare(rest, CommandView::ListTubes),
        // Whatever follows is ignored.
        Op::Quit => Ok(ParsedView::Command(CommandView::Quit)),
        Op::PauseTube => pause_line(rest),
    }
}

/// What a line amounts to. A line that holds a zero byte is refused whatever
/// it says.
pub open spec fn parsed(line: Seq<u8>) -> Parsed {
    if line.contains(0u8) {
        Err(ResponseView::BadFormat)
    } else {
        match which(line) {
            Some(op) => parsed_op(op, line.skip(word(op).len() as int)),
            None => Err(ResponseView::UnknownCommand),
        }
    }
}

/// The command that a line gives, a put with an empty body; or the reply.
pub open spec fn command_of(line: Seq<u8>) -> Result<CommandView, ResponseView> {
    match parsed(line) {
        Ok(ParsedView::Command(c)) => Ok(c),
        Ok(ParsedView::Put(h)) => Ok(
            CommandView::Put { pri: h.pri, delay: h.delay, ttr: h.ttr, body: Seq::empty() },
        ),
        Err(r) => Err(r),
    }
}

/// Whether the result is what `p` says.
pub open spec fn matches_parsed(r: Result<ParsedLine, Response>, p: Parsed) -> bool {
    match r {
        Ok(l) => p == Ok::<ParsedView, ResponseView>(l@),
        Err(e) => p == Err::<ParsedView, ResponseView>(e@),
    }
}

/// The word that a command begins with.
pub(crate) fn word_of(op: Op) -> (r: &'static str)
    ensures
        r.spec_bytes() == word(op),
{
    match op {
        Op::Put => "put ",
        Op::PeekJob => "peek ",
        Op::PeekReady => "peek-ready",
        Op::PeekDelayed => "peek-delayed",
        Op::PeekBuried => "peek-buried",
        Op::ReserveTimeout => "reserve-with-timeout ",
        Op::ReserveJob => "reserve-job ",
        Op::Reserve => "reserve",
        Op::Delete => "delete ",
        Op::Release => "release ",
        Op::Bury => "bury ",
        Op::Kick => "kick ",
        Op::KickJob => "kick-job ",
        Op::Touch => "touch ",
        Op::StatsJob => "stats-job ",
        Op::StatsTube => "stats-tube ",
        Op::Stats => "stats",
        Op::Use => "use ",
        Op::Watch => "watch ",
        Op::Ignore => "ignore ",
        Op::ListTubesWatched => "list-tubes-watched",
        Op::ListTubeUsed => "list-tube-used",
        Op::ListTubes => "list-tubes",
        Op::Quit => "quit",
        Op::PauseTube => "pause-tube",
    }
}

/// Whether the line begins with the word of `op`.
fn is_op(line: &[u8], op: Op) -> (r: bool)
    ensures
        r == begins(line@, word(op)),
{
    begins_with(line, word_of(op).as_bytes())
}

/// Which command the line gives.
fn which_op(line: &[u8]) -> (r: Option<Op>)
    ensures
        r == which(line@),
{
    if is_op(line, Op::Put) {
        Some(Op::Put)
    } else if is_op(line, Op::PeekJob) {
        Some(Op::PeekJob)
    } else if is_op(line, Op::PeekReady) {
        Some(Op::PeekReady)
    } else if is_op(line, Op::PeekDelayed) {
        Some(Op::PeekDelayed)
    } else if is_op(line, Op::PeekBuried) {
        Some(Op::PeekBuried)
    } else if is_op(line, Op::ReserveTimeout) {
        Some(Op::ReserveTimeout)
    } else if is_op(line, Op::ReserveJob) {
        Some(Op::ReserveJob)
    } else if is_op(line, Op::Reserve) {
        Some(Op::Reserve)
    } else if is_op(line, Op::Delete) {
        Some(Op::Delete)
    } else if is_op(line, Op::Release) {
        Some(Op::Release)
    } else if is_op(line, Op::Bury) {
        Some(Op::Bury)
    } else if is_op(line, Op::Kick) {
        Some(Op::Kick)
    } else if is_op(line, Op::KickJob) {
        Some(Op::KickJob)
    } else if is_op(line, Op::Touch) {
        Some(Op::Touch)
    } else if is_op(line, Op::StatsJob) {
        Some(Op::StatsJob)
    } else if is_op(line, Op::StatsTube) {
        Some(Op::StatsTube)
    } else if is_op(line, Op::Stats) {
        Some(Op::Stats)
    } else if is_op(line, Op::Use) {
        Some(Op::Use)
    } else if is_op(line, Op::Watch) {
        Some(Op::Watch)
    } else if is_op(line, Op::Ignore) {
        Some(Op::Ignore)
    } else if is_op(line, Op::ListTubesWatched) {
        Some(Op::ListTubesWatched)
    } else if is_op(line, Op::ListTubeUsed) {
        Some(Op::ListTubeUsed)
    } else if is_op(line, Op::ListTubes) {
        Some(Op::ListTubes)
    } else if is_op(line, Op::Quit) {
        Some(Op::Quit)
    } else if is_op(line, Op::PauseTube) {
        Some(Op::PauseTube)
    } else {
        None
    }
}

/// Which command the line gives, and the length of its word.
fn which_cmd(line: &[u8]) -> (r: Option<(Op, usize)>)
    ensures
        match r {
            Some((op, n)) => which(line@) == Some(op) && n == word(op).len() && n <= line@.len(),
            None => which(line@) is None,
        },
{
    match which_op(line) {
        Some(op) => Some((op, word_of(op).as_bytes().len())),
        None => None,
    }
}

/// The number that `kick` is given.
pub(crate) fn parse_kick_count(s: &[u8]) -> (r: Option<u32>)
    ensures
        r == kick_count(s@),
{
    let t = rest_of(s, run_length(s, Class::Blank));
    let signed = t.len() > 0 && (t[0] == 45 || t[0] == 43);
    let negative = signed && t[0] == 45;
    let u = if signed {
        rest_of(t, 1)
    } else {
        t
    };
    let n: usize = run_length(u, Class::Digit);
    if n == 0 {
        return None;
    }
    let digits = front_of(u, n);
    proof {
        lemma_run(u@, Class::Digit);
        assert forall|i: int| 0 <= i < digits@.len() implies Class::Digit.has(
            #[trigger] digits@[i],
        ) by {
            assert(digits@[i] == u@[i]);
        }
    }
    match digits_value(digits) {
        Some(v) => {
            let low: u64 = v % 0x1_0000_0000;
            if negative && low > 0 {
                Some((0x1_0000_0000 - low) as u32)
            } else {
                Some(low as u32)
            }
        },
        None => None,
    }
}

/// A command that takes nothing.
fn bare_command(rest: &[u8], c: Command) -> (r: Result<ParsedLine, Response>)
    ensures
        matches_parsed(r, bare(rest@, c@)),
{
    if rest.len() == 0 {
        Ok(ParsedLine::Command(c))
    } else {
        Err(Response::BadFormat)
    }
}

/// The number of a job, alone.
fn job_arg(rest: &[u8]) -> (r: Result<JobId, Response>)
    ensures
        match r {
            Ok(id) => numeral_alone(rest@, u64::MAX as nat) == Some(id as nat),
            Err(e) => numeral_alone(rest@, u64::MAX as nat) is None && e@
                == ResponseView::BadFormat,
        },
{
    match read_u64_full(rest) {
        Some(id) => Ok(id),
        None => Err(Response::BadFormat),
    }
}

/// The name of a tube, alone.
fn tube_name_from_full_rest(rest: &[u8]) -> (r: Result<TubeName, Response>)
    ensures
        match r {
            Ok(t) => valid_tube_name(rest@) && t@ == rest@,
            Err(e) => !valid_tube_name(rest@) && e@ == ResponseView::BadFormat,
        },
{
    match tube_name_from_bytes(rest) {
        Some(t) => Ok(t),
        None => Err(Response::BadFormat),
    }
}

/// `put`
fn parse_put(s: &[u8]) -> (r: Result<ParsedLine, Response>)
    ensures
        matches_parsed(r, put_line(s@)),
{
    let (pri, s) = match read_u32_partial(s) {
        Some(p) => p,
        None => {
            return Err(Response::BadFormat);
        },
    };
    let (delay, s) = match read_u32_partial(s) {
        Some(p) => p,
        None => {
            return Err(Response::BadFormat);
        },
    };
    let (ttr, s) = match read_u32_partial(s) {
        Some(p) => p,
        None => {
            return Err(Response::BadFormat);
        },
    };
    let (body_size, s) = match read_u32_partial(s) {
        Some(p) => p,
        None => {
            return Err(Response::BadFormat);
        },
    };
    Ok(
        ParsedLine::Put(
            PutHeader { pri, delay, ttr, body_size, trailing_garbage: s.len() > 0 },
        ),
    )
}

/// `release`
fn parse_release(s: &[u8]) -> (r: Result<ParsedLine, Response>)
    ensures
        matches_parsed(r, release_line(s@)),
{
    let (id, s) = match read_u64_partial(s) {
        Some(p) => p,
        None => {
            return Err(Response::BadFormat);
        },
    };
    let (pri, s) = match read_u32_partial(s) {
        Some(p) => p,
        None => {
            return Err(Response::BadFormat);
        },
    };
    match read_u32_full(s) {
        Some(delay) => Ok(ParsedLine::Command(Command::Release { id, pri, delay })),
        None => Err(Response::BadFormat),
    }
}

/// `bury`
fn parse_bury(s: &[u8]) -> (r: Result<ParsedLine, Response>)
    ensures
        matches_parsed(r, bury_line(s@)),
{
    let (id, s) = match read_u64_partial(s) {
        Some(p) => p,
        None => {
            return Err(Response::BadFormat);
        },
    };
    match read_u32_full(s) {
        Some(pri) => Ok(ParsedLine::Command(Command::Bury { id, pri })),
        None => Err(Response::BadFormat),
    }
}

/// `reserve-with-timeout`
fn parse_timeout(s: &[u8]) -> (r: Result<ParsedLine, Response>)
    ensures
        matches_parsed(r, timeout_line(s@)),
{
    match read_u32_partial(s) {
        Some((n, _)) => if n <= i32::MAX as u32 {
            Ok(ParsedLine::Command(Command::ReserveWithTimeout(n)))
        } else {
            Err(Response::BadFormat)
        },
        None => Err(Response::BadFormat),
    }
}

/// `pause-tube`
fn parse_pause(s: &[u8]) -> (r: Result<ParsedLine, Response>)
    ensures
        matches_parsed(r, pause_line(s@)),
{
    let t = rest_of(s, run_length(s, Class::Space));
    let n: usize = run_length(t, Class::Name);
    if n == 0 {
        return Err(Response::BadFormat);
    }
    let name = front_of(t, n);
    match read_u32_full(rest_of(t, n)) {
        Some(delay) => match tube_name_from_bytes(name) {
            Some(tube) => Ok(ParsedLine::Command(Command::PauseTube { tube, delay })),
            None => Ok(ParsedLine::Command(Command::PauseTubeBadName)),
        },
        None => Err(Response::BadFormat),
    }
}

/// Parses what stands behind the word of `op`.
fn parse_op(op: Op, rest: &[u8]) -> (r: Result<ParsedLine, Response>)
    ensures
        matches_parsed(r, parsed_op(op, rest@)),
{
    match op {
        Op::Put => parse_put(rest),
        Op::PeekJob => match job_arg(rest) {
            Ok(id) => Ok(ParsedLine::Command(Command::Peek(id))),
            Err(e) => Err(e),
        },
        Op::PeekReady => bare_command(rest, Command::PeekReady),
        Op::PeekDelayed => bare_command(rest, Command::PeekDelayed),
        Op::PeekBuried => bare_command(rest, Command::PeekBuried),
        Op::ReserveTimeout => parse_timeout(rest),
        Op::ReserveJob => match job_arg(rest) {
            Ok(id) => Ok(ParsedLine::Command(Command::ReserveJob(id))),
            Err(e) => Err(e),
        },
        Op::Reserve => bare_command(rest, Command::Reserve),
        Op::Delete => match job_arg(rest) {
            Ok(id) => Ok(ParsedLine::Command(Command::Delete(id))),
            Err(e) => Err(e),
        },
        Op::Release => parse_release(rest),
        Op::Bury => parse_bury(rest),
        Op::Kick => match parse_kick_count(rest) {
            Some(n) => Ok(ParsedLine::Command(Command::Kick(n))),
            None => Err(Response::BadFormat),
        },
        Op::KickJob => match job_arg(rest) {
            Ok(id) => Ok(ParsedLine::Command(Command::KickJob(id))),
            Err(e) => Err(e),
        },
        Op::Touch => match job_arg(rest) {
            Ok(id) => Ok(ParsedLine::Command(Command::Touch(id))),
            Err(e) => Err(e),
        },
        Op::StatsJob => match job_arg(rest) {
            Ok(id) => Ok(ParsedLine::Command(Command::StatsJob(id))),
            Err(e) => Err(e),
        },
        Op::StatsTube => match tube_name_from_full_rest(rest) {
            Ok(t) => Ok(ParsedLine::Command(Command::StatsTube(t))),
            Err(e) => Err(e),
        },
        Op::Stats => bare_command(rest, Command::Stats),
        Op::Use => match tube_name_from_full_rest(rest) {
            Ok(t) => Ok(ParsedLine::Command(Command::Use(t))),
            Err(e) => Err(e),
        },
        Op::Watch => match tube_name_from_full_rest(rest) {
            Ok(t) => Ok(ParsedLine::Command(Command::Watch(t))),
            Err(e) => Err(e),
        },
        Op::Ignore => match tube_name_from_full_rest(rest) {
            Ok(t) => Ok(ParsedLine::Command(Command::Ignore(t))),
            Err(e) => Err(e),
        },
        Op::ListTubesWatched => bare_command(rest, Command::ListTubesWatched),
        Op::ListTubeUsed => bare_command(rest, Command::ListTubeUsed),
        Op::ListTubes => bare_command(rest, Command::ListTubes),
        Op::Quit => Ok(ParsedLine::Command(Command::Quit)),
        Op::PauseTube => parse_pause(rest),
    }
}

/// Whether the line holds a zero byte.
fn holds_nul(line: &[u8]) -> (r: bool)
    ensures
        r == line@.contains(0u8),
{
    let n: usize = line.len();
    let mut i: usize = 0;
    while i < n
        invariant
            i <= n,
            n == line@.len(),
            forall|k: int| 0 <= k < i ==> line@[k] != 0,
        decreases n - i,
    {
        if line[i] == 0 {
            assert(line@[i as int] == 0u8);
            return true;
        }
        i = i + 1;
    }
    false
}

/// Parses one command line. A put comes back as its header, since only the
/// codec knows how large a body may be.
pub fn parse_line_raw(line: &[u8]) -> (r: Result<ParsedLine, Response>)
    ensures
        matches_parsed(r, parsed(line@)),
{
    if holds_nul(line) {
        return Err(Response::BadFormat);
    }
    match which_cmd(line) {
        Some((op, n)) => parse_op(op, rest_of(line, n)),
        None => Err(Response::UnknownCommand),
    }
}

/// Parses one command line into a command. A put comes back with an empty body.
/// An error is the reply that the server must send.
pub fn parse_line(line: &[u8]) -> (r: Result<Command, Response>)
    ensures
        match r {
            Ok(c) => command_of(line@) == Ok::<CommandView, ResponseView>(c@),
            Err(e) => command_of(line@) == Err::<CommandView, ResponseView>(e@),
        },
{
    match parse_line_raw(line) {
        Ok(ParsedLine::Command(c)) => Ok(c),
        Ok(ParsedLine::Put(h)) => Ok(
            Command::Put { pri: h.pri, delay: h.delay, ttr: h.ttr, body: bytes_new() },
        ),
        Err(e) => Err(e),
    }
}

} // verus!
